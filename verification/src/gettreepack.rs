//! `gettreepack`: which manifests of a tree go to the client, and what
//! goes out for each of them.

use vstd::prelude::*;
use vstd::string::StringExecFns;
use crate::client::{random_usize, RepoClient};
use crate::errors::{InputFault, ServerError};
use crate::manifest::{
    calculate_hg_node_id, node_id, sha1_input_limit, ChangedEntry, Entry, EntryStatus, HgParents,
    Type,
};
use crate::nodehash::{null_hash_bytes, HgChangesetId, HgNodeHash};
use crate::nodeset::NodeSet;
use crate::path::{
    has_forbidden_byte, path_elements, repo_path_view, MPath, MPathElement, PathError, RepoPath,
};
use crate::text::string_from_utf8_lossy;

verus! {

/// How deep `gettreepack` goes into a tree when the client names no depth.
pub open spec fn default_tree_depth() -> usize {
    131072
}

/// What a client asks of `gettreepack`.
#[derive(Debug)]
pub struct GettreepackArgs {
    /// The directory that the manifests are the roots of; empty for the
    /// top of the repository.
    pub rootdir: Vec<u8>,
    /// The manifests wanted.
    pub mfnodes: Vec<HgNodeHash>,
    /// The manifests that the client has.
    pub basemfnodes: Vec<HgNodeHash>,
    /// Not supported: must be empty.
    pub directories: Vec<Vec<u8>>,
    pub depth: Option<usize>,
}

/// What `gettreepack` does for a request.
#[derive(Debug)]
pub struct GettreepackPlan {
    pub fetchdepth: usize,
    /// The one manifest that each wanted manifest is compared with.
    pub basemfnode: HgNodeHash,
    pub rootpath: Option<MPath>,
    /// Whether the walks of the wanted manifests share one record of what
    /// they have visited, so that a subtree of several goes out once.
    pub share_visited: bool,
    /// Whether what goes out is checked against its hash.
    pub validate_hash: bool,
}

impl RepoClient {
    /// What `gettreepack` does for a request, given the draw that decides
    /// on hash validation. A request that names directories is refused, and
    /// so is one whose root directory is no path.
    pub fn gettreepack_untimed(&self, params: &GettreepackArgs, roll: usize) -> (r: Result<
        GettreepackPlan,
        ServerError,
    >)
        ensures
            r is Ok <==> params.directories@.len() == 0 && (params.rootdir@.len() == 0 || (
            !has_forbidden_byte(params.rootdir@) && path_elements(params.rootdir@).len() > 0)),
            params.directories@.len() > 0 ==> (r matches Err(ServerError::InvalidInput(m, f)) && m@
                == "directories param is not supported"@ && f is None),
            params.directories@.len() == 0 && r is Err ==> (r matches Err(
                ServerError::InvalidInput(m, f),
            ) && m@ == crate::text::utf8_lossy(params.rootdir@) && f == Some(
                InputFault::BadPath(
                    if has_forbidden_byte(params.rootdir@) {
                        PathError::ForbiddenByte
                    } else {
                        PathError::Empty
                    },
                ),
            )),
            r matches Ok(plan) ==> {
                &&& plan.fetchdepth == (match params.depth {
                    Some(d) => d,
                    None => default_tree_depth(),
                })
                &&& plan.basemfnode@ == (if params.basemfnodes@.len() > 0 {
                    params.basemfnodes@[0]@
                } else {
                    null_hash_bytes()
                })
                &&& plan.rootpath is None <==> params.rootdir@.len() == 0
                &&& plan.rootpath matches Some(p) ==> p.wf() && p@ == path_elements(
                    params.rootdir@,
                )
                &&& plan.share_visited == (params.mfnodes@.len() > 1)
                &&& plan.validate_hash == (roll % 100 < self.hash_validation_percentage)
            },
    {
        let fetchdepth = match params.depth {
            Some(d) => d,
            None => 131072,
        };
        if params.directories.len() > 0 {
            return Err(
                ServerError::InvalidInput(
                    String::from_str("directories param is not supported"),
                    None,
                ),
            );
        }
        let basemfnode = if params.basemfnodes.len() > 0 {
            params.basemfnodes[0]
        } else {
            HgNodeHash::null()
        };
        let rootpath = if params.rootdir.len() == 0 {
            None
        } else {
            match MPath::new(params.rootdir.as_slice()) {
                Ok(p) => Some(p),
                Err(e) => {
                    return Err(
                        ServerError::InvalidInput(
                            string_from_utf8_lossy(params.rootdir.as_slice()),
                            Some(InputFault::BadPath(e)),
                        ),
                    );
                },
            }
        };
        Ok(
            GettreepackPlan {
                fetchdepth,
                basemfnode,
                rootpath,
                share_visited: params.mfnodes.len() > 1,
                validate_hash: self.validates_hash(roll),
            },
        )
    }

    /// What `gettreepack` does for a request; whether it validates hashes
    /// is drawn.
    pub fn gettreepack(&self, params: &GettreepackArgs) -> (r: Result<GettreepackPlan, ServerError>)
        ensures
            r is Ok <==> params.directories@.len() == 0 && (params.rootdir@.len() == 0 || (
            !has_forbidden_byte(params.rootdir@) && path_elements(params.rootdir@).len() > 0)),
            r matches Ok(plan) ==> {
                &&& plan.fetchdepth == (match params.depth {
                    Some(d) => d,
                    None => default_tree_depth(),
                })
                &&& plan.basemfnode@ == (if params.basemfnodes@.len() > 0 {
                    params.basemfnodes@[0]@
                } else {
                    null_hash_bytes()
                })
                &&& plan.rootpath is None <==> params.rootdir@.len() == 0
                &&& plan.rootpath matches Some(p) ==> p.wf() && p@ == path_elements(
                    params.rootdir@,
                )
                &&& plan.share_visited == (params.mfnodes@.len() > 1)
                &&& self.hash_validation_percentage >= 100 ==> plan.validate_hash
                &&& self.hash_validation_percentage == 0 ==> !plan.validate_hash
            },
    {
        let roll = random_usize();
        self.gettreepack_untimed(params, roll)
    }
}

/// What keeps a difference between two manifests out of a walk.
#[derive(Debug)]
pub struct TreePruner {
    /// Differences about files are dropped.
    pub drop_files: bool,
    /// Deletions are dropped.
    pub drop_deleted: bool,
    /// Where there is a record of manifests visited, an entry whose
    /// manifest is in it is dropped, and one that is kept is put into it.
    pub visited: Option<NodeSet>,
}

impl TreePruner {
    pub open spec fn wf(&self) -> bool {
        self.visited matches Some(v) ==> v.wf()
    }

    /// The manifests visited; none where no record is kept.
    pub open spec fn seen(&self) -> Set<HgNodeHash> {
        match self.visited {
            Some(v) => v@,
            None => Set::empty(),
        }
    }

    /// Whether the pruner lets a difference pass: every rule that is
    /// switched on must let it pass.
    pub open spec fn keeps(&self, entry: &ChangedEntry) -> bool {
        &&& self.drop_files ==> entry.status.tree()
        &&& self.drop_deleted ==> !(entry.status is Deleted)
        &&& self.visited is Some && entry.status.to_entry() is Some ==> !self.seen().contains(
            entry.status.to_entry()->0.hash,
        )
    }

    /// The pruner that drops files and deletions, as every tree walk of
    /// `gettreepack` does.
    pub fn trees_only(visited: Option<NodeSet>) -> (p: TreePruner)
        requires
            visited matches Some(v) ==> v.wf(),
        ensures
            p.wf(),
            p.drop_files,
            p.drop_deleted,
            p.visited == visited,
    {
        TreePruner { drop_files: true, drop_deleted: true, visited }
    }

    /// Decides on one difference. The rules are asked in turn, and the
    /// record of visited manifests only if the others let the difference
    /// pass: it then takes the manifest in.
    pub fn keep(&mut self, entry: &ChangedEntry) -> (k: bool)
        requires
            old(self).wf(),
        ensures
            final(self).wf(),
            k == old(self).keeps(entry),
            final(self).drop_files == old(self).drop_files,
            final(self).drop_deleted == old(self).drop_deleted,
            final(self).visited is Some <==> old(self).visited is Some,
            final(self).seen() == (if k && old(self).visited is Some && entry.status.to_entry()
                is Some {
                old(self).seen().insert(entry.status.to_entry()->0.hash)
            } else {
                old(self).seen()
            }),
    {
        if self.drop_files && !entry.status.is_tree() {
            return false;
        }
        if self.drop_deleted && entry.status.is_deleted() {
            return false;
        }
        let hash = match &entry.status {
            EntryStatus::Added(e) => e.hash,
            EntryStatus::Modified { to_entry, from_entry } => to_entry.hash,
            EntryStatus::Deleted(_) => {
                return true;
            },
        };
        match &mut self.visited {
            Some(v) => v.insert(hash),
            None => true,
        }
    }
}

/// The manifests that a walk hands on: the new side of each difference
/// with its directory, in order, and the root last. A walk of depth one
/// hands on the root alone.
pub open spec fn changed_manifests(
    root: (Entry, Option<MPath>),
    changed: Seq<ChangedEntry>,
    max_depth: usize,
) -> Seq<(Entry, Option<Seq<Seq<u8>>>)> {
    if max_depth == 1 {
        seq![(root.0, opt_path(root.1))]
    } else {
        Seq::new(
            changed.len(),
            |i: int| (changed[i].status.to_entry()->0, opt_path(changed[i].dirname)),
        ).push((root.0, opt_path(root.1)))
    }
}

pub open spec fn opt_path(p: Option<MPath>) -> Option<Seq<Seq<u8>>> {
    match p {
        Some(m) => Some(m@),
        None => None,
    }
}

/// Whether the entries are the same, their names compared as bytes.
pub open spec fn same_entry(a: Entry, b: Entry) -> bool {
    a.name_view() == b.name_view() && a.ttype == b.ttype && a.hash == b.hash
}

/// The manifests that a walk hands on. The differences come from a walk
/// that drops files and deletions, so each is a manifest added or
/// modified.
pub fn get_changed_manifests_stream(
    root_entry: Entry,
    rootpath: Option<MPath>,
    changed: Vec<ChangedEntry>,
    max_depth: usize,
) -> (out: Vec<(Entry, Option<MPath>)>)
    requires
        forall|i: int|
            0 <= i < changed@.len() ==> (#[trigger] changed@[i]).status.tree() && !(
            changed@[i].status is Deleted),
    ensures
        out@.len() == changed_manifests((root_entry, rootpath), changed@, max_depth).len(),
        forall|i: int|
            0 <= i < out@.len() ==> same_entry(
                (#[trigger] out@[i]).0,
                changed_manifests((root_entry, rootpath), changed@, max_depth)[i].0,
            ) && opt_path(out@[i].1) == changed_manifests(
                (root_entry, rootpath),
                changed@,
                max_depth,
            )[i].1,
{
    let mut out: Vec<(Entry, Option<MPath>)> = Vec::new();
    if max_depth == 1 {
        out.push((root_entry, rootpath));
        return out;
    }
    let mut i: usize = 0;
    while i < changed.len()
        invariant
            i <= changed.len(),
            max_depth != 1,
            out@.len() == i,
            forall|k: int|
                0 <= k < changed@.len() ==> (#[trigger] changed@[k]).status.tree() && !(
                changed@[k].status is Deleted),
            forall|k: int|
                0 <= k < i ==> same_entry(
                    (#[trigger] out@[k]).0,
                    changed@[k].status.to_entry()->0,
                ) && opt_path(out@[k].1) == opt_path(changed@[k].dirname),
        decreases changed.len() - i,
    {
        let c = &changed[i];
        let dir = match &c.dirname {
            Some(d) => Some(d.duplicate()),
            None => None,
        };
        match &c.status {
            EntryStatus::Added(e) => {
                out.push((e.duplicate(), dir));
            },
            EntryStatus::Modified { to_entry, from_entry } => {
                out.push((to_entry.duplicate(), dir));
            },
            EntryStatus::Deleted(e) => {
                assert(false);
            },
        }
        i += 1;
    }
    out.push((root_entry, rootpath));
    out
}

/// The entries that go out: of entries with the same hash, only the
/// first.
pub open spec fn first_of_each_hash(entries: Seq<HgNodeHash>) -> Seq<int>
    decreases entries.len(),
{
    if entries.len() == 0 {
        Seq::empty()
    } else if entries.drop_last().contains(entries.last()) {
        first_of_each_hash(entries.drop_last())
    } else {
        first_of_each_hash(entries.drop_last()).push(entries.len() - 1)
    }
}

/// The places, in order, of the entries that go out: of entries with the
/// same hash, only the first goes out.
pub fn filter_used_hashes(hashes: &Vec<HgNodeHash>) -> (kept: Vec<usize>)
    ensures
        kept@.len() == first_of_each_hash(hashes@).len(),
        forall|i: int| 0 <= i < kept@.len() ==> #[trigger] kept@[i] == first_of_each_hash(hashes@)[i],
{
    let mut used = NodeSet::new();
    let mut kept: Vec<usize> = Vec::new();
    let mut i: usize = 0;
    assert(hashes@.take(0) =~= Seq::<HgNodeHash>::empty());
    while i < hashes.len()
        invariant
            i <= hashes.len(),
            used.wf(),
            used@ == hashes@.take(i as int).to_set(),
            kept@.len() == first_of_each_hash(hashes@.take(i as int)).len(),
            forall|k: int|
                0 <= k < kept@.len() ==> #[trigger] kept@[k] == first_of_each_hash(
                    hashes@.take(i as int),
                )[k],
        decreases hashes.len() - i,
    {
        let ghost a = hashes@.take(i as int);
        let ghost b = hashes@.take(i + 1);
        proof {
            assert(b.drop_last() =~= a);
            assert(b.last() == hashes@[i as int]);
            assert(a.to_set().contains(hashes@[i as int]) <==> a.contains(hashes@[i as int]));
            assert(b.to_set() =~= a.to_set().insert(hashes@[i as int])) by {
                assert forall|x: HgNodeHash|
                    b.to_set().contains(x) <==> a.to_set().insert(hashes@[i as int]).contains(
                        x,
                    ) by {
                    if b.contains(x) {
                        let k = choose|k: int| 0 <= k < b.len() && b[k] == x;
                        if k < a.len() {
                            assert(a[k] == x);
                        }
                    }
                    if a.contains(x) {
                        let k = choose|k: int| 0 <= k < a.len() && a[k] == x;
                        assert(b[k] == x);
                    }
                    if x == hashes@[i as int] {
                        assert(b[i as int] == x);
                    }
                }
            }
        }
        if used.insert(hashes[i]) {
            kept.push(i);
        }
        i += 1;
    }
    assert(hashes@.take(hashes.len() as int) =~= hashes@);
    kept
}

/// What goes out for one manifest.
#[derive(Debug)]
pub struct TreepackPartInput {
    pub node: HgNodeHash,
    pub p1: Option<HgNodeHash>,
    pub p2: Option<HgNodeHash>,
    pub content: Vec<u8>,
    pub name: Option<MPathElement>,
    /// The changeset that introduced the manifest; the null hash where
    /// none is on record.
    pub linknode: HgNodeHash,
    pub basepath: Option<MPath>,
}

/// Where an entry is: its directory and its own name. An entry with
/// neither is the root.
pub open spec fn entry_path(basepath: Option<MPath>, entry: Entry) -> Seq<Seq<u8>> {
    let base = match basepath {
        Some(b) => b@,
        None => Seq::empty(),
    };
    match entry.name {
        Some(n) => base.push(n@),
        None => base,
    }
}

pub open spec fn entry_is_root(basepath: Option<MPath>, entry: Entry) -> bool {
    basepath is None && entry.name is None
}

/// The parents as they are hashed: a parent given twice counts once.
pub open spec fn merged_parents(parents: HgParents) -> HgParents {
    match parents {
        HgParents::Neither => HgParents::Neither,
        HgParents::One(a) => HgParents::One(a),
        HgParents::Two(a, b) => if a@ == b@ {
            HgParents::One(a)
        } else {
            HgParents::Two(a, b)
        },
    }
}

/// Whether an entry's content fails the check against its hash: the
/// check is on, the entry is not the root, and the hash is not the one
/// that content and parents give. The root is let through because its
/// hash may stem from another form of manifest.
pub open spec fn content_corrupt(
    entry: Entry,
    basepath: Option<MPath>,
    parents: HgParents,
    content: Seq<u8>,
    validate_content: bool,
) -> bool {
    validate_content && !entry_is_root(basepath, entry) && entry.hash@ != node_id(
        content,
        merged_parents(parents),
    )
}

/// What goes out for one manifest, given what the repository holds of it:
/// its parents, the changeset that introduced it, if on record, and its
/// content.
pub fn fetch_treepack_part_input(
    entry: Entry,
    basepath: Option<MPath>,
    parents: HgParents,
    linknode: Option<HgChangesetId>,
    content: Vec<u8>,
    validate_content: bool,
) -> (r: Result<TreepackPartInput, ServerError>)
    requires
        validate_content ==> content@.len() + 40 < sha1_input_limit(),
    ensures
        r is Err <==> content_corrupt(entry, basepath, parents, content@, validate_content),
        r matches Err(e) ==> (e matches ServerError::DataCorruption { path, expected, actual }
            && repo_path_view(path) == (entry.ttype == Type::Tree, entry_path(basepath, entry))
            && expected@ == node_id(content@, merged_parents(parents)) && actual == entry.hash),
        r matches Ok(input) ==> {
            &&& input.node == entry.hash
            &&& (input.p1, input.p2) == (match parents {
                HgParents::Neither => (None::<HgNodeHash>, None::<HgNodeHash>),
                HgParents::One(a) => (Some(a), None),
                HgParents::Two(a, b) => (Some(a), Some(b)),
            })
            &&& input.content@ == content@
            &&& input.name == entry.name
            &&& input.linknode@ == (match linknode {
                Some(l) => l@,
                None => null_hash_bytes(),
            })
            &&& input.basepath == basepath
        },
{
    let (p1, p2) = parents.get_nodes();
    if validate_content {
        let path = MPath::join_element_opt(basepath.as_ref(), entry.name.as_ref());
        match path {
            Some(p) => {
                let expected = calculate_hg_node_id(content.as_slice(), &HgParents::new(p1, p2));
                if !(entry.hash == expected) {
                    let repo_path = match entry.ttype {
                        Type::Tree => RepoPath::DirectoryPath(p),
                        Type::File(_) => RepoPath::FilePath(p),
                    };
                    return Err(
                        ServerError::DataCorruption {
                            path: repo_path,
                            expected,
                            actual: entry.hash,
                        },
                    );
                }
            },
            None => {},
        }
    }
    let linknode = match linknode {
        Some(l) => l.into_nodehash(),
        None => HgNodeHash::null(),
    };
    Ok(
        TreepackPartInput {
            node: entry.hash,
            p1,
            p2,
            content,
            name: entry.name,
            linknode,
            basepath,
        },
    )
}

} // verus!
