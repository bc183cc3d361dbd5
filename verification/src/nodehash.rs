//! Content hashes and the typed identifiers built on them.

use vstd::prelude::*;
use vstd::utf8::*;
use crate::hex::{from_hex, hex_decode, hex_encode, is_hex, lemma_hex_round_trip, to_hex};
use crate::text::{ascii_string, is_ascii_bytes};

verus! {

/// A 20-byte hash that names a node: a changeset, a manifest or a file
/// version.
#[derive(Clone, Copy, Debug, Eq, Hash)]
pub struct HgNodeHash(pub [u8; 20]);

impl View for HgNodeHash {
    type V = Seq<u8>;

    open spec fn view(&self) -> Seq<u8> {
        self.0@
    }
}

impl PartialEq for HgNodeHash {
    fn eq(&self, other: &Self) -> (r: bool) {
        let mut i: usize = 0;
        while i < 20
            invariant
                i <= 20,
                forall|j: int| 0 <= j < i ==> self.0@[j] == other.0@[j],
            decreases 20 - i,
        {
            if self.0[i] != other.0[i] {
                return false;
            }
            i += 1;
        }
        assert(self.0@ =~= other.0@);
        true
    }
}

impl vstd::std_specs::cmp::PartialEqSpecImpl for HgNodeHash {
    open spec fn obeys_eq_spec() -> bool {
        true
    }

    open spec fn eq_spec(&self, other: &Self) -> bool {
        self@ == other@
    }
}

/// Two hashes with the same bytes are the same hash.
pub broadcast proof fn lemma_hash_view_injective(a: HgNodeHash, b: HgNodeHash)
    ensures
        #![trigger a@, b@]
        a@ == b@ <==> a == b,
{
    if a@ == b@ {
        assert(a.0 =~= b.0);
    }
}

/// The hash of all zero bytes, which stands for "no node".
pub open spec fn null_hash_bytes() -> Seq<u8> {
    Seq::new(20, |i: int| 0u8)
}

impl HgNodeHash {
    /// The all-zero hash.
    pub fn null() -> (r: HgNodeHash)
        ensures
            r@ == null_hash_bytes(),
    {
        let z = HgNodeHash([0u8; 20]);
        assert(z@ =~= null_hash_bytes());
        z
    }

    /// The hash with the given 20 bytes; nothing for any other length.
    pub fn from_bytes(bytes: &[u8]) -> (r: Option<HgNodeHash>)
        ensures
            r is Some <==> bytes@.len() == 20,
            r matches Some(h) ==> h@ == bytes@,
    {
        if bytes.len() != 20 {
            return None;
        }
        let mut a: [u8; 20] = [0u8; 20];
        let mut i: usize = 0;
        while i < 20
            invariant
                i <= 20,
                bytes@.len() == 20,
                forall|j: int| 0 <= j < i ==> a@[j] == bytes@[j],
            decreases 20 - i,
        {
            a[i] = bytes[i];
            i += 1;
        }
        assert(a@ =~= bytes@);
        Some(HgNodeHash(a))
    }

    /// The hash written as 40 hexadecimal digits; nothing for any other
    /// text.
    pub fn from_hex_bytes(s: &[u8]) -> (r: Option<HgNodeHash>)
        ensures
            r is Some <==> s@.len() == 40 && is_hex(s@),
            r matches Some(h) ==> h@ == from_hex(s@),
    {
        if s.len() != 40 {
            return None;
        }
        match hex_decode(s) {
            Some(v) => HgNodeHash::from_bytes(v.as_slice()),
            None => None,
        }
    }

    /// The hash written as 40 hexadecimal digits; nothing for any other
    /// text.
    pub fn from_str(s: &str) -> (r: Option<HgNodeHash>)
        ensures
            r is Some <==> encode_utf8(s@).len() == 40 && is_hex(encode_utf8(s@)),
            r matches Some(h) ==> h@ == from_hex(encode_utf8(s@)),
    {
        HgNodeHash::from_hex_bytes(s.as_bytes())
    }

    /// The 40 lower-case hexadecimal digits of the hash, as bytes.
    pub fn to_hex_bytes(&self) -> (r: Vec<u8>)
        ensures
            r@ == to_hex(self@),
            r@.len() == 40,
            is_ascii_bytes(r@),
    {
        hex_encode(self.0.as_slice())
    }

    /// The 40 lower-case hexadecimal digits of the hash.
    pub fn to_hex(&self) -> (r: String)
        ensures
            encode_utf8(r@) == to_hex(self@),
    {
        ascii_string(self.to_hex_bytes())
    }

    /// Whether this is the all-zero hash.
    pub fn is_null(&self) -> (r: bool)
        ensures
            r == (self@ == null_hash_bytes()),
    {
        let z = HgNodeHash::null();
        *self == z
    }
}

/// The identifier of a changeset.
#[derive(Clone, Copy, Debug, Eq, Hash)]
pub struct HgChangesetId(pub HgNodeHash);

impl View for HgChangesetId {
    type V = Seq<u8>;

    open spec fn view(&self) -> Seq<u8> {
        self.0@
    }
}

impl PartialEq for HgChangesetId {
    fn eq(&self, other: &Self) -> (r: bool) {
        self.0 == other.0
    }
}

impl vstd::std_specs::cmp::PartialEqSpecImpl for HgChangesetId {
    open spec fn obeys_eq_spec() -> bool {
        true
    }

    open spec fn eq_spec(&self, other: &Self) -> bool {
        self@ == other@
    }
}

impl HgChangesetId {
    pub fn new(hash: HgNodeHash) -> (r: HgChangesetId)
        ensures
            r@ == hash@,
            r.0 == hash,
    {
        HgChangesetId(hash)
    }

    pub fn into_nodehash(self) -> (r: HgNodeHash)
        ensures
            r == self.0,
    {
        self.0
    }

    /// The identifier written as 40 hexadecimal digits; nothing for any
    /// other text.
    pub fn from_str(s: &str) -> (r: Option<HgChangesetId>)
        ensures
            r is Some <==> encode_utf8(s@).len() == 40 && is_hex(encode_utf8(s@)),
            r matches Some(h) ==> h@ == from_hex(encode_utf8(s@)),
    {
        match HgNodeHash::from_str(s) {
            Some(h) => Some(HgChangesetId(h)),
            None => None,
        }
    }

    /// The 40 lower-case hexadecimal digits of the identifier.
    pub fn to_hex(&self) -> (r: String)
        ensures
            encode_utf8(r@) == to_hex(self@),
    {
        self.0.to_hex()
    }
}

/// The identifier of a manifest.
#[derive(Clone, Copy, Debug, Eq, Hash)]
pub struct HgManifestId(pub HgNodeHash);

impl View for HgManifestId {
    type V = Seq<u8>;

    open spec fn view(&self) -> Seq<u8> {
        self.0@
    }
}

impl PartialEq for HgManifestId {
    fn eq(&self, other: &Self) -> (r: bool) {
        self.0 == other.0
    }
}

impl vstd::std_specs::cmp::PartialEqSpecImpl for HgManifestId {
    open spec fn obeys_eq_spec() -> bool {
        true
    }

    open spec fn eq_spec(&self, other: &Self) -> bool {
        self@ == other@
    }
}

impl HgManifestId {
    pub fn new(hash: HgNodeHash) -> (r: HgManifestId)
        ensures
            r@ == hash@,
            r.0 == hash,
    {
        HgManifestId(hash)
    }

    pub fn into_nodehash(self) -> (r: HgNodeHash)
        ensures
            r == self.0,
    {
        self.0
    }

    /// The identifier written as 40 hexadecimal digits; nothing for any
    /// other text.
    pub fn from_str(s: &str) -> (r: Option<HgManifestId>)
        ensures
            r is Some <==> encode_utf8(s@).len() == 40 && is_hex(encode_utf8(s@)),
            r matches Some(h) ==> h@ == from_hex(encode_utf8(s@)),
    {
        match HgNodeHash::from_str(s) {
            Some(h) => Some(HgManifestId(h)),
            None => None,
        }
    }

    /// The 40 lower-case hexadecimal digits of the identifier.
    pub fn to_hex(&self) -> (r: String)
        ensures
            encode_utf8(r@) == to_hex(self@),
    {
        self.0.to_hex()
    }
}

/// The identifier of one version of a file at one place in its history.
#[derive(Clone, Copy, Debug, Eq, Hash)]
pub struct HgFileNodeId(pub HgNodeHash);

impl View for HgFileNodeId {
    type V = Seq<u8>;

    open spec fn view(&self) -> Seq<u8> {
        self.0@
    }
}

impl PartialEq for HgFileNodeId {
    fn eq(&self, other: &Self) -> (r: bool) {
        self.0 == other.0
    }
}

impl vstd::std_specs::cmp::PartialEqSpecImpl for HgFileNodeId {
    open spec fn obeys_eq_spec() -> bool {
        true
    }

    open spec fn eq_spec(&self, other: &Self) -> bool {
        self@ == other@
    }
}

impl HgFileNodeId {
    pub fn new(hash: HgNodeHash) -> (r: HgFileNodeId)
        ensures
            r@ == hash@,
            r.0 == hash,
    {
        HgFileNodeId(hash)
    }

    pub fn into_nodehash(self) -> (r: HgNodeHash)
        ensures
            r == self.0,
    {
        self.0
    }

    /// The identifier written as 40 hexadecimal digits; nothing for any
    /// other text.
    pub fn from_str(s: &str) -> (r: Option<HgFileNodeId>)
        ensures
            r is Some <==> encode_utf8(s@).len() == 40 && is_hex(encode_utf8(s@)),
            r matches Some(h) ==> h@ == from_hex(encode_utf8(s@)),
    {
        match HgNodeHash::from_str(s) {
            Some(h) => Some(HgFileNodeId(h)),
            None => None,
        }
    }

    /// The 40 lower-case hexadecimal digits of the identifier.
    pub fn to_hex(&self) -> (r: String)
        ensures
            encode_utf8(r@) == to_hex(self@),
    {
        self.0.to_hex()
    }
}

/// The identifier of a changeset in the commit graph.
#[derive(Clone, Copy, Debug, Eq, Hash)]
pub struct ChangesetId(pub HgNodeHash);

impl View for ChangesetId {
    type V = Seq<u8>;

    open spec fn view(&self) -> Seq<u8> {
        self.0@
    }
}

impl PartialEq for ChangesetId {
    fn eq(&self, other: &Self) -> (r: bool) {
        self.0 == other.0
    }
}

impl vstd::std_specs::cmp::PartialEqSpecImpl for ChangesetId {
    open spec fn obeys_eq_spec() -> bool {
        true
    }

    open spec fn eq_spec(&self, other: &Self) -> bool {
        self@ == other@
    }
}

impl ChangesetId {
    pub fn new(hash: HgNodeHash) -> (r: ChangesetId)
        ensures
            r@ == hash@,
            r.0 == hash,
    {
        ChangesetId(hash)
    }

    pub fn into_nodehash(self) -> (r: HgNodeHash)
        ensures
            r == self.0,
    {
        self.0
    }

    /// The identifier written as 40 hexadecimal digits; nothing for any
    /// other text.
    pub fn from_str(s: &str) -> (r: Option<ChangesetId>)
        ensures
            r is Some <==> encode_utf8(s@).len() == 40 && is_hex(encode_utf8(s@)),
            r matches Some(h) ==> h@ == from_hex(encode_utf8(s@)),
    {
        match HgNodeHash::from_str(s) {
            Some(h) => Some(ChangesetId(h)),
            None => None,
        }
    }

    /// The 40 lower-case hexadecimal digits of the identifier.
    pub fn to_hex(&self) -> (r: String)
        ensures
            encode_utf8(r@) == to_hex(self@),
    {
        self.0.to_hex()
    }
}

/// The identifier of a file's content.
#[derive(Clone, Copy, Debug, Eq, Hash)]
pub struct ContentId(pub HgNodeHash);

impl View for ContentId {
    type V = Seq<u8>;

    open spec fn view(&self) -> Seq<u8> {
        self.0@
    }
}

impl PartialEq for ContentId {
    fn eq(&self, other: &Self) -> (r: bool) {
        self.0 == other.0
    }
}

impl vstd::std_specs::cmp::PartialEqSpecImpl for ContentId {
    open spec fn obeys_eq_spec() -> bool {
        true
    }

    open spec fn eq_spec(&self, other: &Self) -> bool {
        self@ == other@
    }
}

impl ContentId {
    pub fn new(hash: HgNodeHash) -> (r: ContentId)
        ensures
            r@ == hash@,
            r.0 == hash,
    {
        ContentId(hash)
    }

    pub fn into_nodehash(self) -> (r: HgNodeHash)
        ensures
            r == self.0,
    {
        self.0
    }

    /// The identifier written as 40 hexadecimal digits; nothing for any
    /// other text.
    pub fn from_str(s: &str) -> (r: Option<ContentId>)
        ensures
            r is Some <==> encode_utf8(s@).len() == 40 && is_hex(encode_utf8(s@)),
            r matches Some(h) ==> h@ == from_hex(encode_utf8(s@)),
    {
        match HgNodeHash::from_str(s) {
            Some(h) => Some(ContentId(h)),
            None => None,
        }
    }

    /// The 40 lower-case hexadecimal digits of the identifier.
    pub fn to_hex(&self) -> (r: String)
        ensures
            encode_utf8(r@) == to_hex(self@),
    {
        self.0.to_hex()
    }
}

/// A 32-byte SHA-256 digest, which names a large file kept outside the
/// repository.
#[derive(Clone, Copy, Debug, Eq, Hash)]
pub struct Sha256(pub [u8; 32]);

impl View for Sha256 {
    type V = Seq<u8>;

    open spec fn view(&self) -> Seq<u8> {
        self.0@
    }
}

impl PartialEq for Sha256 {
    fn eq(&self, other: &Self) -> (r: bool) {
        let mut i: usize = 0;
        while i < 32
            invariant
                i <= 32,
                forall|j: int| 0 <= j < i ==> self.0@[j] == other.0@[j],
            decreases 32 - i,
        {
            if self.0[i] != other.0[i] {
                return false;
            }
            i += 1;
        }
        assert(self.0@ =~= other.0@);
        true
    }
}

impl vstd::std_specs::cmp::PartialEqSpecImpl for Sha256 {
    open spec fn obeys_eq_spec() -> bool {
        true
    }

    open spec fn eq_spec(&self, other: &Self) -> bool {
        self@ == other@
    }
}

impl Sha256 {
    /// The digest with the given 32 bytes; nothing for any other length.
    pub fn from_bytes(bytes: &[u8]) -> (r: Option<Sha256>)
        ensures
            r is Some <==> bytes@.len() == 32,
            r matches Some(h) ==> h@ == bytes@,
    {
        if bytes.len() != 32 {
            return None;
        }
        let mut a: [u8; 32] = [0u8; 32];
        let mut i: usize = 0;
        while i < 32
            invariant
                i <= 32,
                bytes@.len() == 32,
                forall|j: int| 0 <= j < i ==> a@[j] == bytes@[j],
            decreases 32 - i,
        {
            a[i] = bytes[i];
            i += 1;
        }
        assert(a@ =~= bytes@);
        Some(Sha256(a))
    }

    /// The digest written as 64 hexadecimal digits; nothing for any other
    /// text.
    pub fn from_str(s: &str) -> (r: Option<Sha256>)
        ensures
            r is Some <==> encode_utf8(s@).len() == 64 && is_hex(encode_utf8(s@)),
            r matches Some(h) ==> h@ == from_hex(encode_utf8(s@)),
    {
        let b = s.as_bytes();
        if b.len() != 64 {
            return None;
        }
        match hex_decode(b) {
            Some(v) => Sha256::from_bytes(v.as_slice()),
            None => None,
        }
    }

    /// The 64 lower-case hexadecimal digits of the digest.
    pub fn to_hex(&self) -> (r: String)
        ensures
            encode_utf8(r@) == to_hex(self@),
    {
        ascii_string(hex_encode(self.0.as_slice()))
    }
}

/// Parsing the hexadecimal text of a hash gives the hash back.
pub proof fn lemma_hash_hex_round_trip(h: HgNodeHash)
    ensures
        to_hex(h@).len() == 40,
        is_hex(to_hex(h@)),
        from_hex(to_hex(h@)) == h@,
{
    lemma_hex_round_trip(h@);
}

} // verus!
