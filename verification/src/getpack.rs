//! `getfiles` and `getpackv1`: file contents and file histories for
//! clients that keep no full history.

use vstd::prelude::*;
use crate::client::{getfiles_timeout_duration, random_usize, RepoClient};
use crate::manifest::HgParents;
use crate::nodehash::{null_hash_bytes, HgChangesetId, HgFileNodeId, HgNodeHash};
use crate::path::MPath;
use crate::text::copy_bytes;

verus! {

/// How many lookups of `getfiles` and of `getpackv1` are in flight at
/// once.
pub const BUFFER_SIZE: usize = 100;

/// When a file goes out as a pointer to large-file storage.
#[derive(Clone, Copy, Debug, PartialEq, Eq, Structural)]
pub struct LfsParams {
    /// Files larger than this many bytes go out as pointers; without a
    /// threshold none does.
    pub threshold: Option<u64>,
}

impl LfsParams {
    /// Whether a file of this size goes out as a pointer to large-file
    /// storage instead of its content.
    pub fn is_lfs(&self, size: u64) -> (r: bool)
        ensures
            r == (self.threshold matches Some(t) && size > t),
    {
        match self.threshold {
            Some(t) => size > t,
            None => false,
        }
    }
}

/// What `getfiles` does for a request.
#[derive(Debug)]
pub struct GetfilesPlan {
    /// The file versions to fetch, in the order asked.
    pub requests: Vec<(HgFileNodeId, MPath)>,
    /// Whether what goes out is checked against its hash.
    pub validate_hash: bool,
    /// How many lookups are in flight at once.
    pub buffer_size: usize,
    /// How long the whole answer may take, in seconds.
    pub timeout_secs: u64,
}

/// One step of a file's history.
#[derive(Debug)]
pub struct HgFileHistoryEntry {
    pub filenode: HgFileNodeId,
    pub parents: HgParents,
    pub linknode: HgChangesetId,
    /// The path and version that the file was copied from, if it was.
    pub copyfrom: Option<(MPath, HgFileNodeId)>,
}

/// One part of a wirepack.
#[derive(Debug)]
pub enum Part {
    HistoryMeta { path: MPath, entry_count: u32 },
    History(HistoryEntry),
    DataMeta { path: MPath, entry_count: u32 },
    Data(DataEntry),
    End,
}

#[derive(Debug)]
pub struct HistoryEntry {
    pub node: HgNodeHash,
    pub p1: HgNodeHash,
    pub p2: HgNodeHash,
    pub linknode: HgNodeHash,
    pub copy_from: Option<MPath>,
}

#[derive(Debug)]
pub struct DataEntry {
    pub node: HgNodeHash,
    pub delta_base: HgNodeHash,
    /// The full text: the base is always the null hash.
    pub delta: Vec<u8>,
}

/// A part of a wirepack, as plain values.
pub enum PartView {
    HistoryMeta { path: Seq<Seq<u8>>, entry_count: u32 },
    History { node: Seq<u8>, p1: Seq<u8>, p2: Seq<u8>, linknode: Seq<u8>, copy_from: Option<Seq<Seq<u8>>> },
    DataMeta { path: Seq<Seq<u8>>, entry_count: u32 },
    Data { node: Seq<u8>, delta_base: Seq<u8>, delta: Seq<u8> },
    End,
}

impl View for Part {
    type V = PartView;

    open spec fn view(&self) -> PartView {
        match *self {
            Part::HistoryMeta { path, entry_count } => PartView::HistoryMeta {
                path: path@,
                entry_count,
            },
            Part::History(e) => PartView::History {
                node: e.node@,
                p1: e.p1@,
                p2: e.p2@,
                linknode: e.linknode@,
                copy_from: match e.copy_from {
                    Some(p) => Some(p@),
                    None => None,
                },
            },
            Part::DataMeta { path, entry_count } => PartView::DataMeta { path: path@, entry_count },
            Part::Data(e) => PartView::Data {
                node: e.node@,
                delta_base: e.delta_base@,
                delta: e.delta@,
            },
            Part::End => PartView::End,
        }
    }
}

/// The view of each part.
pub open spec fn part_views(parts: Seq<Part>) -> Seq<PartView> {
    Seq::new(parts.len(), |i: int| parts[i]@)
}

/// The first and second parent as bytes, the null hash for one that is not
/// there.
pub open spec fn parent_bytes(parents: HgParents) -> (Seq<u8>, Seq<u8>) {
    match parents {
        HgParents::Neither => (null_hash_bytes(), null_hash_bytes()),
        HgParents::One(a) => (a@, null_hash_bytes()),
        HgParents::Two(a, b) => (a@, b@),
    }
}

/// The parents of a file version as such clients write them: a version
/// that was copied has the version it was copied from as its first
/// parent, its own first parent as its second, and the path it was
/// copied from beside them.
pub open spec fn remotefilelog_parents(
    parents: HgParents,
    copyfrom: Option<(MPath, HgFileNodeId)>,
) -> (Seq<u8>, Seq<u8>, Option<Seq<Seq<u8>>>) {
    match copyfrom {
        Some((path, node)) => (node@, parent_bytes(parents).0, Some(path@)),
        None => (parent_bytes(parents).0, parent_bytes(parents).1, None),
    }
}

/// The parents of a file version as such clients write them.
pub fn convert_parents_to_remotefilelog_format(
    parents: &HgParents,
    copyfrom: &Option<(MPath, HgFileNodeId)>,
) -> (r: (HgNodeHash, HgNodeHash, Option<MPath>))
    ensures
        (r.0@, r.1@, match r.2 {
            Some(p) => Some(p@),
            None => None,
        }) == remotefilelog_parents(*parents, *copyfrom),
{
    let null = HgNodeHash::null();
    let (p1, p2) = match parents {
        HgParents::Neither => (null, null),
        HgParents::One(a) => (*a, null),
        HgParents::Two(a, b) => (*a, *b),
    };
    match copyfrom {
        Some((path, node)) => (node.into_nodehash(), p1, Some(path.duplicate())),
        None => (p1, p2, None),
    }
}

/// The part that stands for one step of a file's history.
pub open spec fn history_part(h: HgFileHistoryEntry) -> PartView {
    PartView::History {
        node: h.filenode@,
        p1: remotefilelog_parents(h.parents, h.copyfrom).0,
        p2: remotefilelog_parents(h.parents, h.copyfrom).1,
        linknode: h.linknode@,
        copy_from: remotefilelog_parents(h.parents, h.copyfrom).2,
    }
}

/// The part that holds one version of a file in full.
pub open spec fn data_part(c: (HgFileNodeId, Vec<u8>)) -> PartView {
    PartView::Data { node: c.0@, delta_base: null_hash_bytes(), delta: c.1@ }
}

/// What a client asked of one file, and what the repository holds of it.
#[derive(Debug)]
pub struct PackedFile {
    pub path: MPath,
    /// Each version asked for, with its content.
    pub contents: Vec<(HgFileNodeId, Vec<u8>)>,
    pub history: Vec<HgFileHistoryEntry>,
}

/// The parts for one file: the count of its history, the history, the
/// count of its versions, the versions.
pub open spec fn file_parts(f: PackedFile) -> Seq<PartView> {
    seq![PartView::HistoryMeta { path: f.path@, entry_count: f.history@.len() as u32 }]
        + Seq::new(f.history@.len(), |i: int| history_part(f.history@[i])) + seq![
        PartView::DataMeta { path: f.path@, entry_count: f.contents@.len() as u32 },
    ] + Seq::new(f.contents@.len(), |i: int| data_part(f.contents@[i]))
}

/// The parts for all files, in the order asked.
pub open spec fn pack_parts(files: Seq<PackedFile>) -> Seq<PartView>
    decreases files.len(),
{
    if files.len() == 0 {
        Seq::empty()
    } else {
        pack_parts(files.drop_last()) + file_parts(files.last())
    }
}

fn push_file_parts(out: &mut Vec<Part>, f: &PackedFile)
    requires
        f.history@.len() <= u32::MAX,
        f.contents@.len() <= u32::MAX,
    ensures
        part_views(final(out)@) == part_views(old(out)@) + file_parts(*f),
{
    let ghost start = part_views(out@);
    let meta = Part::HistoryMeta { path: f.path.duplicate(), entry_count: f.history.len() as u32 };
    proof {
        assert(part_views(out@.push(meta)) =~= start.push(meta@));
    }
    out.push(meta);
    let mut i: usize = 0;
    while i < f.history.len()
        invariant
            i <= f.history.len(),
            part_views(out@) == start + seq![
                PartView::HistoryMeta { path: f.path@, entry_count: f.history@.len() as u32 },
            ] + Seq::new(i as nat, |k: int| history_part(f.history@[k])),
        decreases f.history.len() - i,
    {
        let h = &f.history[i];
        let (p1, p2, copy_from) = convert_parents_to_remotefilelog_format(&h.parents, &h.copyfrom);
        let part = Part::History(
            HistoryEntry {
                node: h.filenode.into_nodehash(),
                p1,
                p2,
                linknode: h.linknode.into_nodehash(),
                copy_from,
            },
        );
        proof {
            assert(part@ == history_part(f.history@[i as int]));
            assert(part_views(out@.push(part)) =~= part_views(out@).push(part@));
            assert(Seq::new((i + 1) as nat, |k: int| history_part(f.history@[k])) =~= Seq::new(
                i as nat,
                |k: int| history_part(f.history@[k]),
            ).push(part@));
        }
        out.push(part);
        i += 1;
    }
    let ghost mid = part_views(out@);
    let dmeta = Part::DataMeta { path: f.path.duplicate(), entry_count: f.contents.len() as u32 };
    proof {
        assert(part_views(out@.push(dmeta)) =~= mid.push(dmeta@));
    }
    out.push(dmeta);
    let mut j: usize = 0;
    while j < f.contents.len()
        invariant
            j <= f.contents.len(),
            part_views(out@) == mid + seq![
                PartView::DataMeta { path: f.path@, entry_count: f.contents@.len() as u32 },
            ] + Seq::new(j as nat, |k: int| data_part(f.contents@[k])),
        decreases f.contents.len() - j,
    {
        let c = &f.contents[j];
        let part = Part::Data(
            DataEntry {
                node: c.0.into_nodehash(),
                delta_base: HgNodeHash::null(),
                delta: copy_bytes(c.1.as_slice()),
            },
        );
        proof {
            assert(part@ == data_part(f.contents@[j as int]));
            assert(part_views(out@.push(part)) =~= part_views(out@).push(part@));
            assert(Seq::new((j + 1) as nat, |k: int| data_part(f.contents@[k])) =~= Seq::new(
                j as nat,
                |k: int| data_part(f.contents@[k]),
            ).push(part@));
        }
        out.push(part);
        j += 1;
    }
    assert(part_views(out@) =~= start + file_parts(*f));
}

impl RepoClient {
    /// What `getfiles` does for a request, given the draw that decides
    /// on hash validation: each node is fetched as the version of a file
    /// at its path, a hundred at a time, within the time that long
    /// requests get.
    pub fn getfiles_untimed(&self, params: &Vec<(HgNodeHash, MPath)>, roll: usize) -> (plan:
        GetfilesPlan)
        ensures
            plan.requests@.len() == params@.len(),
            forall|i: int|
                0 <= i < params@.len() ==> (#[trigger] plan.requests@[i]).0.0 == params@[i].0
                    && plan.requests@[i].1@ == params@[i].1@,
            plan.validate_hash == (roll % 100 < self.hash_validation_percentage),
            plan.buffer_size == BUFFER_SIZE,
            plan.timeout_secs == 90 * 60,
    {
        GetfilesPlan {
            requests: self.file_requests(params),
            validate_hash: self.validates_hash(roll),
            buffer_size: BUFFER_SIZE,
            timeout_secs: getfiles_timeout_duration(),
        }
    }

    /// What `getfiles` does for a request; whether it validates hashes
    /// is drawn.
    pub fn getfiles(&self, params: &Vec<(HgNodeHash, MPath)>) -> (plan: GetfilesPlan)
        ensures
            plan.requests@.len() == params@.len(),
            forall|i: int|
                0 <= i < params@.len() ==> (#[trigger] plan.requests@[i]).0.0 == params@[i].0
                    && plan.requests@[i].1@ == params@[i].1@,
            self.hash_validation_percentage >= 100 ==> plan.validate_hash,
            self.hash_validation_percentage == 0 ==> !plan.validate_hash,
            plan.buffer_size == BUFFER_SIZE,
            plan.timeout_secs == 90 * 60,
    {
        let roll = random_usize();
        self.getfiles_untimed(params, roll)
    }

    fn file_requests(&self, params: &Vec<(HgNodeHash, MPath)>) -> (requests: Vec<
        (HgFileNodeId, MPath),
    >)
        ensures
            requests@.len() == params@.len(),
            forall|i: int|
                0 <= i < params@.len() ==> (#[trigger] requests@[i]).0.0 == params@[i].0
                    && requests@[i].1@ == params@[i].1@,
    {
        let mut requests: Vec<(HgFileNodeId, MPath)> = Vec::new();
        let mut i: usize = 0;
        while i < params.len()
            invariant
                i <= params.len(),
                requests@.len() == i,
                forall|k: int|
                    0 <= k < i ==> (#[trigger] requests@[k]).0.0 == params@[k].0
                        && requests@[k].1@ == params@[k].1@,
            decreases params.len() - i,
        {
            requests.push((HgFileNodeId::new(params[i].0), params[i].1.duplicate()));
            i += 1;
        }
        requests
    }

    /// The answer to `getpackv1`, part by part, given what the
    /// repository holds of each file asked for: the parts of each file
    /// in the order asked, and the end mark.
    pub fn getpackv1(&self, files: &Vec<PackedFile>) -> (parts: Vec<Part>)
        requires
            forall|i: int|
                0 <= i < files@.len() ==> (#[trigger] files@[i]).history@.len() <= u32::MAX
                    && files@[i].contents@.len() <= u32::MAX,
        ensures
            part_views(parts@) == pack_parts(files@).push(PartView::End),
    {
        let mut parts: Vec<Part> = Vec::new();
        let mut i: usize = 0;
        assert(files@.take(0) =~= Seq::<PackedFile>::empty());
        assert(part_views(parts@) =~= pack_parts(files@.take(0)));
        while i < files.len()
            invariant
                i <= files.len(),
                forall|k: int|
                    0 <= k < files@.len() ==> (#[trigger] files@[k]).history@.len() <= u32::MAX
                        && files@[k].contents@.len() <= u32::MAX,
                part_views(parts@) == pack_parts(files@.take(i as int)),
            decreases files.len() - i,
        {
            proof {
                let t = files@.take(i + 1);
                assert(t.drop_last() =~= files@.take(i as int));
                assert(t.last() == files@[i as int]);
            }
            push_file_parts(&mut parts, &files[i]);
            i += 1;
        }
        assert(files@.take(files.len() as int) =~= files@);
        let end = Part::End;
        assert(part_views(parts@.push(end)) =~= part_views(parts@).push(PartView::End));
        parts.push(end);
        parts
    }
}

} // verus!
