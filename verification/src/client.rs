//! The commands of the wire protocol: what the server answers, given what
//! the repository holds.

use vstd::prelude::*;
use vstd::utf8::encode_utf8;
use vstd::string::StringExecFns;
use crate::bookmarks::Bookmark;
use crate::caps::{bundle2caps, bundle2caps_spec, strs, wireprotocaps, wireprotocaps_spec};
use crate::errors::ServerError;
use crate::hex::to_hex;
use crate::nodehash::{ChangesetId, HgChangesetId, HgNodeHash};
use crate::nodeset::NodeSet;
use crate::text::{bytes_eq, join, push_all, string_from_utf8_lossy, utf8_lossy};

verus! {

/// Whether a changeset has been shared.
#[derive(Clone, Copy, Debug, PartialEq, Eq, Structural)]
pub enum Phase {
    Public,
    Draft,
}

/// Whether a repository takes pushes.
#[derive(Debug)]
pub enum RepoReadOnly {
    /// It does not, for the reason given.
    ReadOnly(String),
    ReadWrite,
}

/// A future that ran out of time, or failed by itself.
#[derive(Debug)]
pub enum TimeoutError {
    Inner(ServerError),
    Elapsed,
}

/// A stream that ran out of time, or failed by itself.
#[derive(Debug)]
pub enum StreamTimeoutError {
    Error(ServerError),
    Timeout,
}

/// The state that serves one client's commands.
#[derive(Clone, Copy, Debug)]
pub struct RepoClient {
    /// The share, in percent, of requests whose returned entries are
    /// checked against their hashes.
    pub hash_validation_percentage: usize,
    /// Whether pushed bundles are kept as they came.
    pub preserve_raw_bundle2: bool,
}

/// How long a command may run, in seconds.
pub fn timeout_duration() -> (secs: u64)
    ensures
        secs == 15 * 60,
{
    15 * 60
}

/// How long `getfiles` and `getpackv1` may run, in seconds: their requests
/// can be long.
pub fn getfiles_timeout_duration() -> (secs: u64)
    ensures
        secs == 90 * 60,
{
    90 * 60
}

/// The error of a future that timed out or failed: its own failure, or a
/// timeout.
pub fn process_timeout_error(err: TimeoutError) -> (r: ServerError)
    ensures
        r == (match err {
            TimeoutError::Inner(e) => e,
            TimeoutError::Elapsed => ServerError::Timeout,
        }),
{
    match err {
        TimeoutError::Inner(e) => e,
        TimeoutError::Elapsed => ServerError::Timeout,
    }
}

/// The error of a stream that timed out or failed: its own failure, or a
/// timeout.
pub fn process_stream_timeout_error(err: StreamTimeoutError) -> (r: ServerError)
    ensures
        r == (match err {
            StreamTimeoutError::Error(e) => e,
            StreamTimeoutError::Timeout => ServerError::Timeout,
        }),
{
    match err {
        StreamTimeoutError::Error(e) => e,
        StreamTimeoutError::Timeout => ServerError::Timeout,
    }
}

/// `itertools::Itertools::join` over strings: the strings in order, with
/// the separator between each two neighbours.
#[verifier::external_body]
fn itertools_join(pieces: &Vec<String>, sep: &str) -> (r: String)
    ensures
        r@ == join(strs(pieces@), sep@),
{
    itertools::Itertools::join(&mut pieces.iter(), sep)
}

/// The hexadecimal text of each hash.
pub open spec fn hex_texts(nodes: Seq<HgNodeHash>) -> Seq<Seq<char>> {
    Seq::new(nodes.len(), |i: int| crate::text::ascii_chars(to_hex(nodes[i]@)))
}

/// The hashes in hexadecimal, separated by spaces.
pub fn format_nodes_list(nodes: &Vec<HgNodeHash>) -> (r: String)
    ensures
        r@ == join(hex_texts(nodes@), " "@),
{
    let mut texts: Vec<String> = Vec::new();
    let mut i: usize = 0;
    while i < nodes.len()
        invariant
            i <= nodes.len(),
            texts@.len() == i,
            forall|j: int| 0 <= j < i ==> (#[trigger] texts@[j])@ == hex_texts(nodes@)[j],
        decreases nodes.len() - i,
    {
        let t = crate::text::ascii_string(nodes[i].to_hex_bytes());
        texts.push(t);
        i += 1;
    }
    assert(strs(texts@) =~= hex_texts(nodes@));
    itertools_join(&texts, " ")
}

/// The text of each entry, read leniently as UTF-8.
pub open spec fn lossy_texts(entries: Seq<Vec<u8>>) -> Seq<Seq<char>> {
    Seq::new(entries.len(), |i: int| utf8_lossy(entries[i]@))
}

/// The entries as text, separated by commas; bytes that are not UTF-8 show
/// as replacement characters.
pub fn format_utf8_bytes_list(entries: &Vec<Vec<u8>>) -> (r: String)
    ensures
        r@ == join(lossy_texts(entries@), ","@),
{
    let mut texts: Vec<String> = Vec::new();
    let mut i: usize = 0;
    while i < entries.len()
        invariant
            i <= entries.len(),
            texts@.len() == i,
            forall|j: int| 0 <= j < i ==> (#[trigger] texts@[j])@ == lossy_texts(entries@)[j],
        decreases entries.len() - i,
    {
        let t = string_from_utf8_lossy(entries[i].as_slice());
        texts.push(t);
        i += 1;
    }
    assert(strs(texts@) =~= lossy_texts(entries@));
    itertools_join(&texts, ",")
}

/// A reply of `lookup`: `1` or `0`, a space, the message, a line feed.
pub open spec fn resp_buf(success: bool, message: Seq<u8>) -> Seq<u8> {
    seq![if success { 49u8 } else { 48u8 }, 32u8] + message + seq![10u8]
}

/// A reply of `lookup`: `1` or `0`, a space, the message, a line feed.
pub fn generate_resp_buf(success: bool, message: &[u8]) -> (buf: Vec<u8>)
    ensures
        buf@ == resp_buf(success, message@),
{
    let mut buf: Vec<u8> = Vec::new();
    if success {
        buf.push(49);
    } else {
        buf.push(48);
    }
    buf.push(32);
    push_all(&mut buf, message);
    buf.push(10);
    assert(buf@ =~= resp_buf(success, message@));
    buf
}

/// What `lookup` does next for a key.
#[derive(Debug)]
pub enum LookupStep {
    /// Ask the repository whether this changeset exists; the key is also a
    /// valid bookmark name, kept for the case that it does not.
    CheckChangeset(HgChangesetId, Bookmark),
    /// Ask the repository where this bookmark points.
    ResolveBookmark(Bookmark),
    /// Send this reply.
    Reply(Vec<u8>),
}

/// The reply when a key names a changeset that exists.
pub open spec fn found_reply(hash: Seq<u8>) -> Seq<u8> {
    resp_buf(true, to_hex(hash))
}

/// The reply when nothing is known under a bookmark's name.
pub open spec fn not_found_reply(name: Seq<u8>) -> Seq<u8> {
    resp_buf(false, name + encode_utf8(" not found"@))
}

/// The reply when a key is no hash and no bookmark name.
pub open spec fn invalid_input_reply() -> Seq<u8> {
    resp_buf(false, encode_utf8("invalid input"@))
}

impl RepoClient {
    pub fn new(hash_validation_percentage: usize, preserve_raw_bundle2: bool) -> (c: RepoClient)
        ensures
            c.hash_validation_percentage == hash_validation_percentage,
            c.preserve_raw_bundle2 == preserve_raw_bundle2,
    {
        RepoClient { hash_validation_percentage, preserve_raw_bundle2 }
    }

    /// Whether pushed bundles are kept as they came.
    pub fn should_preserve_raw_bundle2(&self) -> (r: bool)
        ensures
            r == self.preserve_raw_bundle2,
    {
        self.preserve_raw_bundle2
    }

    /// The answer to `hello`: under `capabilities`, the wire capabilities
    /// and then `bundle2=` with the bundle2 capabilities.
    pub fn hello(&self) -> (res: Vec<(String, Vec<String>)>)
        ensures
            res@.len() == 1,
            res@[0].0@ == "capabilities"@,
            strs(res@[0].1@) == wireprotocaps_spec().push("bundle2="@ + bundle2caps_spec()),
    {
        let mut caps = wireprotocaps();
        let mut b2 = String::from_str("bundle2=");
        let b2caps = bundle2caps();
        b2.append(b2caps.as_str());
        proof {
            assert(strs(caps@.push(b2)) =~= strs(caps@).push(b2@));
        }
        caps.push(b2);
        let mut res: Vec<(String, Vec<String>)> = Vec::new();
        res.push((String::from_str("capabilities"), caps));
        res
    }

    /// The first step of `lookup`. A key that reads as a hash is looked up
    /// as a changeset first; a key that is ASCII can name a bookmark; any
    /// other key is refused at once.
    pub fn lookup(&self, key: &str) -> (step: LookupStep)
        ensures
            match step {
                LookupStep::CheckChangeset(cs, bookmark) => {
                    &&& encode_utf8(key@).len() == 40
                    &&& crate::hex::is_hex(encode_utf8(key@))
                    &&& cs@ == crate::hex::from_hex(encode_utf8(key@))
                    &&& bookmark@ == encode_utf8(key@)
                },
                LookupStep::ResolveBookmark(bookmark) => {
                    &&& !(encode_utf8(key@).len() == 40 && crate::hex::is_hex(encode_utf8(key@)))
                    &&& crate::text::is_ascii_bytes(encode_utf8(key@))
                    &&& bookmark@ == encode_utf8(key@)
                },
                LookupStep::Reply(buf) => {
                    &&& !crate::text::is_ascii_bytes(encode_utf8(key@))
                    &&& buf@ == invalid_input_reply()
                },
            },
    {
        let node = HgNodeHash::from_str(key);
        let bookmark = Bookmark::new(key);
        match (node, bookmark) {
            (Some(n), Some(b)) => LookupStep::CheckChangeset(HgChangesetId::new(n), b),
            (None, Some(b)) => LookupStep::ResolveBookmark(b),
            (Some(_), None) => {
                proof {
                    let k = encode_utf8(key@);
                    assert forall|i: int| 0 <= i < k.len() implies #[trigger] k[i] < 128 by {
                        assert(crate::hex::hex_value(k[i]) is Some);
                    }
                }
                LookupStep::Reply(generate_resp_buf(false, "invalid input".as_bytes()))
            },
            (None, None) => LookupStep::Reply(generate_resp_buf(false, "invalid input".as_bytes())),
        }
    }

    /// The step after the repository has said whether the changeset
    /// exists: the reply if it does, else the bookmark of the same name is
    /// tried.
    pub fn lookup_changeset_checked(
        &self,
        cs: HgChangesetId,
        bookmark: Bookmark,
        exists: bool,
    ) -> (step: LookupStep)
        ensures
            exists ==> (step matches LookupStep::Reply(buf) && buf@ == found_reply(cs@)),
            !exists ==> (step matches LookupStep::ResolveBookmark(b) && b@ == bookmark@),
    {
        if exists {
            let hex = cs.into_nodehash().to_hex_bytes();
            LookupStep::Reply(generate_resp_buf(true, hex.as_slice()))
        } else {
            LookupStep::ResolveBookmark(bookmark)
        }
    }

    /// The reply after the repository has said where the bookmark points.
    pub fn lookup_bookmark_resolved(&self, bookmark: &Bookmark, target: Option<HgChangesetId>) -> (buf:
        Vec<u8>)
        ensures
            buf@ == (match target {
                Some(cs) => found_reply(cs@),
                None => not_found_reply(bookmark@),
            }),
    {
        match target {
            Some(cs) => {
                let hex = cs.into_nodehash().to_hex_bytes();
                generate_resp_buf(true, hex.as_slice())
            },
            None => {
                let mut message = bookmark.to_bytes();
                push_all(&mut message, " not found".as_bytes());
                generate_resp_buf(false, message.as_slice())
            },
        }
    }
}


/// The changeset that a list of pairs maps `cs` back to: the first half of
/// the last pair whose second half is `cs`.
pub open spec fn mapped_back(mapping: Seq<(HgChangesetId, ChangesetId)>, cs: ChangesetId) -> Option<
    HgChangesetId,
>
    decreases mapping.len(),
{
    if mapping.len() == 0 {
        None
    } else if mapping.last().1@ == cs@ {
        Some(mapping.last().0)
    } else {
        mapped_back(mapping.drop_last(), cs)
    }
}

/// A changeset is known when some changeset that is public maps back to
/// it.
pub open spec fn is_known(
    node: HgChangesetId,
    mapping: Seq<(HgChangesetId, ChangesetId)>,
    phases: Seq<(ChangesetId, Phase)>,
) -> bool {
    exists|j: int|
        0 <= j < phases.len() && (#[trigger] phases[j]).1 == Phase::Public && mapped_back(
            mapping,
            phases[j].0,
        ) is Some && mapped_back(mapping, phases[j].0)->0@ == node@
}

/// A changeset exists when the mapping has a pair for it.
pub open spec fn is_mapped(node: HgChangesetId, mapping: Seq<(HgChangesetId, ChangesetId)>) -> bool {
    exists|j: int| 0 <= j < mapping.len() && (#[trigger] mapping[j]).0@ == node@
}

fn map_back(mapping: &Vec<(HgChangesetId, ChangesetId)>, cs: &ChangesetId) -> (r: Option<
    HgChangesetId,
>)
    ensures
        r == mapped_back(mapping@, *cs),
{
    let mut i: usize = mapping.len();
    assert(mapping@.take(i as int) =~= mapping@);
    while i > 0
        invariant
            i <= mapping.len(),
            mapped_back(mapping@, *cs) == mapped_back(mapping@.take(i as int), *cs),
        decreases i,
    {
        i -= 1;
        proof {
            let t = mapping@.take(i + 1);
            assert(t.last() == mapping@[i as int]);
            assert(t.drop_last() =~= mapping@.take(i as int));
        }
        if mapping[i].1 == *cs {
            return Some(mapping[i].0);
        }
    }
    None
}

/// The names and targets of bookmarks as `listkeys` hands them out: each
/// name with the hexadecimal text of its changeset.
pub open spec fn bookmark_keys(bookmarks: Seq<(Bookmark, HgChangesetId)>) -> Seq<(Seq<u8>, Seq<u8>)> {
    Seq::new(bookmarks.len(), |i: int| (bookmarks[i].0@, to_hex(bookmarks[i].1@)))
}

/// The byte strings of each pair.
pub open spec fn pair_views(pairs: Seq<(Vec<u8>, Vec<u8>)>) -> Seq<(Seq<u8>, Seq<u8>)> {
    Seq::new(pairs.len(), |i: int| (pairs[i].0@, pairs[i].1@))
}

impl RepoClient {
    /// The changesets whose phases `known` has to ask for: the second half
    /// of each pair of the mapping.
    pub fn known_bonsai_ids(&self, hg_bcs_mapping: &Vec<(HgChangesetId, ChangesetId)>) -> (ids: Vec<
        ChangesetId,
    >)
        ensures
            ids@ == Seq::new(hg_bcs_mapping@.len(), |i: int| hg_bcs_mapping@[i].1),
    {
        let mut ids: Vec<ChangesetId> = Vec::new();
        let mut i: usize = 0;
        while i < hg_bcs_mapping.len()
            invariant
                i <= hg_bcs_mapping.len(),
                ids@.len() == i,
                forall|j: int| 0 <= j < i ==> ids@[j] == hg_bcs_mapping@[j].1,
            decreases hg_bcs_mapping.len() - i,
        {
            ids.push(hg_bcs_mapping[i].1);
            i += 1;
        }
        assert(ids@ =~= Seq::new(hg_bcs_mapping@.len(), |i: int| hg_bcs_mapping@[i].1));
        ids
    }

    /// The answer to `known`: for each node in turn, whether it is a
    /// changeset that is public. `hg_bcs_mapping` pairs each changeset
    /// that exists with its name in the commit graph; `phases` gives the
    /// phase of each of those.
    pub fn known(
        &self,
        nodes: &Vec<HgChangesetId>,
        hg_bcs_mapping: &Vec<(HgChangesetId, ChangesetId)>,
        phases: &Vec<(ChangesetId, Phase)>,
    ) -> (res: Vec<bool>)
        ensures
            res@.len() == nodes@.len(),
            forall|i: int|
                0 <= i < nodes@.len() ==> #[trigger] res@[i] == is_known(
                    nodes@[i],
                    hg_bcs_mapping@,
                    phases@,
                ),
    {
        let mut res: Vec<bool> = Vec::new();
        let mut i: usize = 0;
        while i < nodes.len()
            invariant
                i <= nodes.len(),
                res@.len() == i,
                forall|k: int|
                    0 <= k < i ==> #[trigger] res@[k] == is_known(
                        nodes@[k],
                        hg_bcs_mapping@,
                        phases@,
                    ),
            decreases nodes.len() - i,
        {
            let mut found = false;
            let mut j: usize = 0;
            while j < phases.len() && !found
                invariant
                    j <= phases.len(),
                    i < nodes.len(),
                    found ==> is_known(nodes@[i as int], hg_bcs_mapping@, phases@),
                    !found ==> forall|k: int|
                        0 <= k < j ==> !((#[trigger] phases@[k]).1 == Phase::Public && mapped_back(
                            hg_bcs_mapping@,
                            phases@[k].0,
                        ) is Some && mapped_back(hg_bcs_mapping@, phases@[k].0)->0@
                            == nodes@[i as int]@),
                decreases phases.len() - j + (if found { 0int } else { 1int }),
            {
                match phases[j].1 {
                    Phase::Public => {
                        match map_back(hg_bcs_mapping, &phases[j].0) {
                            Some(hg) => {
                                if hg == nodes[i] {
                                    found = true;
                                }
                            },
                            None => {},
                        }
                    },
                    Phase::Draft => {},
                }
                if !found {
                    j += 1;
                }
            }
            res.push(found);
            i += 1;
        }
        res
    }

    /// The answer to `knownnodes`: for each node in turn, whether it is a
    /// changeset that exists.
    pub fn knownnodes(
        &self,
        nodes: &Vec<HgChangesetId>,
        hg_bcs_mapping: &Vec<(HgChangesetId, ChangesetId)>,
    ) -> (res: Vec<bool>)
        ensures
            res@.len() == nodes@.len(),
            forall|i: int|
                0 <= i < nodes@.len() ==> #[trigger] res@[i] == is_mapped(
                    nodes@[i],
                    hg_bcs_mapping@,
                ),
    {
        let mut res: Vec<bool> = Vec::new();
        let mut i: usize = 0;
        while i < nodes.len()
            invariant
                i <= nodes.len(),
                res@.len() == i,
                forall|k: int|
                    0 <= k < i ==> #[trigger] res@[k] == is_mapped(nodes@[k], hg_bcs_mapping@),
            decreases nodes.len() - i,
        {
            let mut found = false;
            let mut j: usize = 0;
            while j < hg_bcs_mapping.len() && !found
                invariant
                    j <= hg_bcs_mapping.len(),
                    i < nodes.len(),
                    found ==> is_mapped(nodes@[i as int], hg_bcs_mapping@),
                    !found ==> forall|k: int|
                        0 <= k < j ==> (#[trigger] hg_bcs_mapping@[k]).0@ != nodes@[i as int]@,
                decreases hg_bcs_mapping.len() - j + (if found { 0int } else { 1int }),
            {
                if hg_bcs_mapping[j].0 == nodes[i] {
                    found = true;
                } else {
                    j += 1;
                }
            }
            res.push(found);
            i += 1;
        }
        res
    }

    /// The answer to `heads`: the heads found, each once, in the order in
    /// which they were first found.
    pub fn heads(&self, found: &Vec<HgNodeHash>) -> (res: NodeSet)
        ensures
            res.wf(),
            res@ == found@.to_set(),
    {
        let mut res = NodeSet::new();
        let mut i: usize = 0;
        assert(found@.take(0).to_set() =~= Set::<HgNodeHash>::empty());
        while i < found.len()
            invariant
                i <= found.len(),
                res.wf(),
                res@ == found@.take(i as int).to_set(),
            decreases found.len() - i,
        {
            res.insert(found[i]);
            proof {
                let a = found@.take(i as int);
                let b = found@.take(i + 1);
                assert(b =~= a.push(found@[i as int]));
                assert(b.to_set() =~= a.to_set().insert(found@[i as int])) by {
                    assert forall|x: HgNodeHash|
                        b.to_set().contains(x) <==> a.to_set().insert(found@[i as int]).contains(
                            x,
                        ) by {
                        if b.contains(x) {
                            let k = choose|k: int| 0 <= k < b.len() && b[k] == x;
                            if k < a.len() {
                                assert(a[k] == x);
                            }
                        }
                        if a.contains(x) {
                            let k = choose|k: int| 0 <= k < a.len() && a[k] == x;
                            assert(b[k] == x);
                        }
                        if x == found@[i as int] {
                            assert(b[i as int] == x);
                        }
                    }
                }
            }
            i += 1;
        }
        assert(found@.take(found.len() as int) =~= found@);
        res
    }

    /// The answer to `listkeys`: for the namespace `bookmarks`, each
    /// bookmark's name with the hexadecimal text of its changeset; nothing
    /// for any other namespace.
    pub fn listkeys(&self, namespace: &str, bookmarks: &Vec<(Bookmark, HgChangesetId)>) -> (res: Vec<
        (Vec<u8>, Vec<u8>),
    >)
        ensures
            pair_views(res@) == (if encode_utf8(namespace@) == encode_utf8("bookmarks"@) {
                bookmark_keys(bookmarks@)
            } else {
                Seq::empty()
            }),
    {
        let mut res: Vec<(Vec<u8>, Vec<u8>)> = Vec::new();
        if !bytes_eq(namespace.as_bytes(), "bookmarks".as_bytes()) {
            assert(pair_views(res@) =~= Seq::<(Seq<u8>, Seq<u8>)>::empty());
            return res;
        }
        let mut i: usize = 0;
        while i < bookmarks.len()
            invariant
                i <= bookmarks.len(),
                res@.len() == i,
                forall|j: int|
                    0 <= j < i ==> ((#[trigger] res@[j]).0@, res@[j].1@) == bookmark_keys(
                        bookmarks@,
                    )[j],
            decreases bookmarks.len() - i,
        {
            let name = bookmarks[i].0.to_bytes();
            let hash = bookmarks[i].1.into_nodehash().to_hex_bytes();
            res.push((name, hash));
            i += 1;
        }
        assert(pair_views(res@) =~= bookmark_keys(bookmarks@));
        res
    }

    /// The check before `unbundle` hands a push on: a repository whose
    /// lock status could not be fetched counts as read-only, and a
    /// read-only repository takes no push.
    pub fn unbundle(&self, lock_status: Option<RepoReadOnly>) -> (r: Result<(), ServerError>)
        ensures
            r is Ok <==> lock_status == Some(RepoReadOnly::ReadWrite),
            match lock_status {
                Some(RepoReadOnly::ReadOnly(reason)) => r == Err::<(), ServerError>(
                    ServerError::ReadOnly(reason),
                ),
                Some(RepoReadOnly::ReadWrite) => true,
                None => r matches Err(ServerError::ReadOnly(reason)) && reason@
                    == "Failed to fetch repo lock status"@,
            },
    {
        match lock_status {
            Some(RepoReadOnly::ReadWrite) => Ok(()),
            Some(RepoReadOnly::ReadOnly(reason)) => Err(ServerError::ReadOnly(reason)),
            None => Err(
                ServerError::ReadOnly(String::from_str("Failed to fetch repo lock status")),
            ),
        }
    }
}

/// `rand::random::<usize>()`: some number, uniformly drawn.
#[verifier::external_body]
pub(crate) fn random_usize() -> usize {
    rand::random::<usize>()
}

/// `rand::Rng::gen_ratio` on the thread's generator: true with the given
/// chance; always for a chance of one, never for a chance of zero.
#[verifier::external_body]
fn random_ratio(numerator: u32, denominator: u32) -> (r: bool)
    requires
        denominator > 0,
        numerator <= denominator,
    ensures
        numerator == denominator ==> r,
        numerator == 0 ==> !r,
{
    rand::Rng::gen_ratio(&mut rand::thread_rng(), numerator, denominator)
}

impl RepoClient {
    /// Whether a request with this draw checks what it returns against
    /// its hashes: the draw's last two digits are below the percentage.
    pub fn validates_hash(&self, roll: usize) -> (r: bool)
        ensures
            r == (roll % 100 < self.hash_validation_percentage),
    {
        roll % 100 < self.hash_validation_percentage
    }

    /// Draws whether a request checks what it returns against its hashes.
    pub fn sample_validate_hash(&self) -> (r: bool)
        ensures
            self.hash_validation_percentage >= 100 ==> r,
            self.hash_validation_percentage == 0 ==> !r,
    {
        let roll = random_usize();
        self.validates_hash(roll)
    }

    /// Draws whether `getpackv1` checks what it returns against its
    /// hashes: with a chance of the percentage in a hundred.
    pub fn sample_validate_hash_ratio(&self) -> (r: bool)
        requires
            self.hash_validation_percentage <= 100,
        ensures
            self.hash_validation_percentage == 100 ==> r,
            self.hash_validation_percentage == 0 ==> !r,
    {
        random_ratio(self.hash_validation_percentage as u32, 100)
    }

    /// The answer to `clienttelemetry`: the name of this host, where it
    /// has one.
    pub fn clienttelemetry(&self, hostname: Option<String>) -> (r: String)
        ensures
            r@ == (match hostname {
                Some(name) => name@,
                None => "<no hostname found>"@,
            }),
    {
        match hostname {
            Some(name) => name,
            None => String::from_str("<no hostname found>"),
        }
    }
}

} // verus!
