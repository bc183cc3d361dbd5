//! Manifests: the entries of a directory, the parents of a node, and the
//! hash that names a node.

use vstd::prelude::*;
use crate::nodehash::{null_hash_bytes, HgNodeHash};
use crate::path::{MPath, MPathElement};
use crate::text::push_all;

verus! {

/// What kind of file a file is.
#[derive(Clone, Copy, Debug, PartialEq, Eq, Structural, Hash)]
pub enum FileType {
    Regular,
    Executable,
    Symlink,
}

/// What a manifest entry names: a file of some kind, or another manifest.
#[derive(Clone, Copy, Debug, PartialEq, Eq, Structural, Hash)]
pub enum Type {
    File(FileType),
    Tree,
}

/// One entry of a manifest. The root of a manifest tree has no name.
#[derive(Debug, PartialEq, Eq)]
pub struct Entry {
    pub name: Option<MPathElement>,
    pub ttype: Type,
    pub hash: HgNodeHash,
}

impl Entry {
    pub open spec fn name_view(&self) -> Option<Seq<u8>> {
        match self.name {
            Some(n) => Some(n@),
            None => None,
        }
    }

    pub fn get_type(&self) -> (t: Type)
        ensures
            t == self.ttype,
    {
        self.ttype
    }

    pub fn get_hash(&self) -> (h: HgNodeHash)
        ensures
            h == self.hash,
    {
        self.hash
    }

    pub fn duplicate(&self) -> (e: Entry)
        ensures
            e.name_view() == self.name_view(),
            e.ttype == self.ttype,
            e.hash == self.hash,
    {
        let name = match &self.name {
            Some(n) => Some(n.duplicate()),
            None => None,
        };
        Entry { name, ttype: self.ttype, hash: self.hash }
    }
}

/// The parents of a node: none, one, or two that differ.
#[derive(Clone, Copy, Debug, PartialEq, Eq)]
pub enum HgParents {
    Neither,
    One(HgNodeHash),
    Two(HgNodeHash, HgNodeHash),
}

impl HgParents {
    /// The parents that two optional hashes name: a hash given twice is
    /// one parent.
    pub fn new(p1: Option<HgNodeHash>, p2: Option<HgNodeHash>) -> (r: HgParents)
        ensures
            r == (match (p1, p2) {
                (None, None) => HgParents::Neither,
                (Some(a), None) => HgParents::One(a),
                (None, Some(b)) => HgParents::One(b),
                (Some(a), Some(b)) => if a@ == b@ {
                    HgParents::One(a)
                } else {
                    HgParents::Two(a, b)
                },
            }),
    {
        match (p1, p2) {
            (None, None) => HgParents::Neither,
            (Some(a), None) => HgParents::One(a),
            (None, Some(b)) => HgParents::One(b),
            (Some(a), Some(b)) => if a == b {
                HgParents::One(a)
            } else {
                HgParents::Two(a, b)
            },
        }
    }

    /// The first and the second parent, where there is one.
    pub fn get_nodes(&self) -> (r: (Option<HgNodeHash>, Option<HgNodeHash>))
        ensures
            r == (match *self {
                HgParents::Neither => (None::<HgNodeHash>, None::<HgNodeHash>),
                HgParents::One(a) => (Some(a), None),
                HgParents::Two(a, b) => (Some(a), Some(b)),
            }),
    {
        match self {
            HgParents::Neither => (None, None),
            HgParents::One(a) => (Some(*a), None),
            HgParents::Two(a, b) => (Some(*a), Some(*b)),
        }
    }
}

/// How an entry differs between two manifests.
#[derive(Debug)]
pub enum EntryStatus {
    Added(Entry),
    Deleted(Entry),
    Modified { to_entry: Entry, from_entry: Entry },
}

/// One difference between two manifests, and the directory it is in.
#[derive(Debug)]
pub struct ChangedEntry {
    pub dirname: Option<MPath>,
    pub status: EntryStatus,
}

impl EntryStatus {
    /// The entry on the new side, where there is one.
    pub open spec fn to_entry(&self) -> Option<Entry> {
        match *self {
            EntryStatus::Added(e) => Some(e),
            EntryStatus::Modified { to_entry, from_entry } => Some(to_entry),
            EntryStatus::Deleted(e) => None,
        }
    }

    /// Whether the difference is about a manifest, not a file.
    pub open spec fn tree(&self) -> bool {
        match *self {
            EntryStatus::Added(e) => e.ttype == Type::Tree,
            EntryStatus::Modified { to_entry, from_entry } => to_entry.ttype == Type::Tree,
            EntryStatus::Deleted(e) => e.ttype == Type::Tree,
        }
    }

    pub fn is_tree(&self) -> (r: bool)
        ensures
            r == self.tree(),
    {
        let t = match self {
            EntryStatus::Added(e) => e.ttype,
            EntryStatus::Modified { to_entry, from_entry } => to_entry.ttype,
            EntryStatus::Deleted(e) => e.ttype,
        };
        match t {
            Type::Tree => true,
            Type::File(_) => false,
        }
    }

    pub fn is_deleted(&self) -> (r: bool)
        ensures
            r == (self is Deleted),
    {
        match self {
            EntryStatus::Deleted(_) => true,
            _ => false,
        }
    }
}

/// The SHA-1 digest of a byte string: 20 bytes.
pub uninterp spec fn sha1(data: Seq<u8>) -> Seq<u8>;

/// The longest input that the SHA-1 implementation takes.
pub open spec fn sha1_input_limit() -> int {
    0x2000_0000_0000_0000
}

/// Whether content of this length, with its two parents before it, is
/// short enough to be hashed.
pub fn can_hash(len: usize) -> (r: bool)
    ensures
        r == (len + 40 < sha1_input_limit()),
{
    (len as u64) < 0x2000_0000_0000_0000u64 - 40
}

/// `crypto::sha1::Sha1` fed once and read out: the SHA-1 digest of the
/// data. The implementation counts bits in 64 bits and refuses longer
/// input.
#[verifier::external_body]
pub(crate) fn sha1_digest(data: &[u8]) -> (digest: HgNodeHash)
    requires
        data@.len() < sha1_input_limit(),
    ensures
        digest@ == sha1(data@),
{
    let mut hasher = crypto::sha1::Sha1::new();
    crypto::digest::Digest::input(&mut hasher, data);
    let mut out = [0u8; 20];
    crypto::digest::Digest::result(&mut hasher, &mut out);
    HgNodeHash(out)
}

/// Whether `a` comes after `b` when the two are read as big numbers.
pub open spec fn hash_greater(a: Seq<u8>, b: Seq<u8>) -> bool {
    exists|i: int|
        0 <= i < a.len() && i < b.len() && a[i] > b[i] && (forall|j: int|
            0 <= j < i ==> a[j] == b[j])
}

fn is_greater(a: &HgNodeHash, b: &HgNodeHash) -> (r: bool)
    ensures
        r == hash_greater(a@, b@),
{
    let mut i: usize = 0;
    while i < 20
        invariant
            i <= 20,
            forall|j: int| 0 <= j < i ==> a@[j] == b@[j],
        decreases 20 - i,
    {
        if a.0[i] > b.0[i] {
            return true;
        }
        if a.0[i] < b.0[i] {
            assert(!hash_greater(a@, b@)) by {
                if hash_greater(a@, b@) {
                    let w = choose|w: int|
                        0 <= w < a@.len() && w < b@.len() && a@[w] > b@[w] && (forall|j: int|
                            0 <= j < w ==> a@[j] == b@[j]);
                    if w < i {
                    } else if w > i {
                        assert(a@[i as int] == b@[i as int]);
                    }
                }
            }
            return false;
        }
        i += 1;
    }
    assert(!hash_greater(a@, b@));
    false
}

/// The two hashes that stand before the content when a node is hashed:
/// the parents with the smaller first, the null hash for a parent that is
/// not there.
pub open spec fn hashed_parents(parents: HgParents) -> (Seq<u8>, Seq<u8>) {
    match parents {
        HgParents::Neither => (null_hash_bytes(), null_hash_bytes()),
        HgParents::One(p) => (null_hash_bytes(), p@),
        HgParents::Two(p1, p2) => if hash_greater(p1@, p2@) {
            (p2@, p1@)
        } else {
            (p1@, p2@)
        },
    }
}

/// The hash that names a node: the SHA-1 digest of its parents, in
/// order of size, and then its content.
pub open spec fn node_id(content: Seq<u8>, parents: HgParents) -> Seq<u8> {
    sha1(hashed_parents(parents).0 + hashed_parents(parents).1 + content)
}

/// The hash that names a node with the given content and parents.
pub fn calculate_hg_node_id(content: &[u8], parents: &HgParents) -> (id: HgNodeHash)
    requires
        content@.len() + 40 < sha1_input_limit(),
    ensures
        id@ == node_id(content@, *parents),
{
    let null = HgNodeHash::null();
    let (h1, h2) = match parents {
        HgParents::Neither => (null, null),
        HgParents::One(p) => (null, *p),
        HgParents::Two(p1, p2) => if is_greater(p1, p2) {
            (*p2, *p1)
        } else {
            (*p1, *p2)
        },
    };
    let mut data: Vec<u8> = Vec::new();
    push_all(&mut data, h1.0.as_slice());
    push_all(&mut data, h2.0.as_slice());
    push_all(&mut data, content);
    assert(data@ =~= hashed_parents(*parents).0 + hashed_parents(*parents).1 + content@);
    sha1_digest(data.as_slice())
}


/// Whether the hash that a node came with is the one that its content
/// and parents give. Where it is not, the hash that they give is handed
/// back.
pub fn verify_node_hash(provided: &HgNodeHash, content: &[u8], parents: &HgParents) -> (r: Result<
    (),
    HgNodeHash,
>)
    requires
        content@.len() + 40 < sha1_input_limit(),
    ensures
        r is Ok <==> provided@ == node_id(content@, *parents),
        r matches Err(computed) ==> computed@ == node_id(content@, *parents),
{
    let computed = calculate_hg_node_id(content, parents);
    if *provided == computed {
        Ok(())
    } else {
        Err(computed)
    }
}

} // verus!
