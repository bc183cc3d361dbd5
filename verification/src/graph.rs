//! The commit graph held in memory: each changeset with its parents and
//! its generation number.

use vstd::prelude::*;
use crate::nodehash::{lemma_hash_view_injective, ChangesetId, HgNodeHash};

verus! {

/// What the graph knows of one changeset.
pub struct NodeInfo {
    pub parents: Seq<HgNodeHash>,
    pub generation: u64,
}

/// The largest generation among the given changesets; zero for none.
pub open spec fn max_generation(m: Map<HgNodeHash, NodeInfo>, nodes: Seq<HgNodeHash>) -> int
    decreases nodes.len(),
{
    if nodes.len() == 0 {
        0
    } else {
        let rest = max_generation(m, nodes.drop_last());
        if m[nodes.last()].generation > rest {
            m[nodes.last()].generation as int
        } else {
            rest
        }
    }
}

/// A commit graph is in order when it is finite, the parents of each of
/// its changesets are in it, and each changeset's generation is one more
/// than the largest of its parents' generations: one where it has none.
pub open spec fn graph_ok(m: Map<HgNodeHash, NodeInfo>) -> bool {
    &&& m.dom().finite()
    &&& forall|x: HgNodeHash, k: int|
        m.dom().contains(x) && 0 <= k < m[x].parents.len() ==> m.dom().contains(
            #[trigger] m[x].parents[k],
        )
    &&& forall|x: HgNodeHash|
        m.dom().contains(x) ==> (#[trigger] m[x]).generation == 1 + max_generation(m, m[x].parents)
}

pub proof fn lemma_max_generation_bounds(m: Map<HgNodeHash, NodeInfo>, nodes: Seq<HgNodeHash>, k: int)
    requires
        0 <= k < nodes.len(),
    ensures
        m[nodes[k]].generation <= max_generation(m, nodes),
        0 <= max_generation(m, nodes),
    decreases nodes.len(),
{
    if k < nodes.len() - 1 {
        lemma_max_generation_bounds(m, nodes.drop_last(), k);
    } else if nodes.len() > 1 {
        lemma_max_generation_bounds(m, nodes.drop_last(), 0);
    }
}

proof fn lemma_max_generation_insert(
    m: Map<HgNodeHash, NodeInfo>,
    nodes: Seq<HgNodeHash>,
    id: HgNodeHash,
    info: NodeInfo,
)
    requires
        forall|k: int| 0 <= k < nodes.len() ==> nodes[k] != id,
    ensures
        max_generation(m.insert(id, info), nodes) == max_generation(m, nodes),
    decreases nodes.len(),
{
    if nodes.len() > 0 {
        lemma_max_generation_insert(m, nodes.drop_last(), id, info);
        assert(nodes.last() == nodes[nodes.len() - 1]);
    }
}

/// A parent's generation is below its child's.
pub proof fn lemma_parent_generation(m: Map<HgNodeHash, NodeInfo>, x: HgNodeHash, k: int)
    requires
        graph_ok(m),
        m.dom().contains(x),
        0 <= k < m[x].parents.len(),
    ensures
        m[m[x].parents[k]].generation < m[x].generation,
        m[x].generation >= 1,
{
    lemma_max_generation_bounds(m, m[x].parents, k);
}

struct ChangesetNode {
    id: HgNodeHash,
    parents: Vec<HgNodeHash>,
    generation: u64,
}

/// A commit graph in memory. Changesets are added parents first, so the
/// graph has no cycle.
pub struct ChangesetGraph {
    nodes: Vec<ChangesetNode>,
    model: Ghost<Map<HgNodeHash, NodeInfo>>,
}

/// Why a changeset could not be added to a graph.
#[derive(Clone, Copy, Debug, PartialEq, Eq)]
pub enum AddError {
    /// The changeset is in the graph already.
    Present,
    /// This parent is not in the graph.
    ParentMissing(ChangesetId),
}

impl View for ChangesetGraph {
    type V = Map<HgNodeHash, NodeInfo>;

    closed spec fn view(&self) -> Map<HgNodeHash, NodeInfo> {
        self.model@
    }
}

impl ChangesetGraph {
    /// The stored changesets and the graph they stand for agree.
    pub closed spec fn inv(&self) -> bool {
        &&& forall|i: int|
            0 <= i < self.nodes@.len() ==> self.model@.dom().contains(
                (#[trigger] self.nodes@[i]).id,
            ) && self.model@[self.nodes@[i].id].parents == self.nodes@[i].parents@
                && self.model@[self.nodes@[i].id].generation == self.nodes@[i].generation
                && self.nodes@[i].generation <= i + 1
        &&& forall|x: HgNodeHash|
            self.model@.dom().contains(x) ==> exists|i: int|
                0 <= i < self.nodes@.len() && (#[trigger] self.nodes@[i]).id == x
        &&& forall|i: int, j: int|
            0 <= i < self.nodes@.len() && 0 <= j < self.nodes@.len() && i != j ==> (
            #[trigger] self.nodes@[i]).id != (#[trigger] self.nodes@[j]).id
    }

    /// The graph is in order.
    pub open spec fn wf(&self) -> bool {
        self.inv() && graph_ok(self@)
    }

    /// The graph without a changeset.
    pub fn new() -> (g: ChangesetGraph)
        ensures
            g.wf(),
            g@ == Map::<HgNodeHash, NodeInfo>::empty(),
            g.size() == 0,
    {
        ChangesetGraph { nodes: Vec::new(), model: Ghost(Map::empty()) }
    }

    fn find(&self, id: &HgNodeHash) -> (r: Option<usize>)
        requires
            self.wf(),
        ensures
            r is Some <==> self@.dom().contains(*id),
            r matches Some(i) ==> i < self.nodes@.len() && self.nodes@[i as int].id == *id,
    {
        let mut i: usize = 0;
        while i < self.nodes.len()
            invariant
                i <= self.nodes.len(),
                self.wf(),
                forall|j: int| 0 <= j < i ==> (#[trigger] self.nodes@[j]).id != *id,
            decreases self.nodes.len() - i,
        {
            proof {
                lemma_hash_view_injective(self.nodes@[i as int].id, *id);
            }
            if self.nodes[i].id == *id {
                return Some(i);
            }
            i += 1;
        }
        None
    }

    /// Whether the changeset is in the graph.
    pub fn contains(&self, id: &ChangesetId) -> (r: bool)
        requires
            self.wf(),
        ensures
            r == self@.dom().contains(id.0),
    {
        self.find(&id.0).is_some()
    }

    /// The number of changesets in the graph.
    pub proof fn lemma_size(&self)
        requires
            self.wf(),
        ensures
            self@.dom().len() == self.size(),
    {
        let ids = Seq::new(self.nodes@.len(), |i: int| self.nodes@[i].id);
        assert(ids.to_set() =~= self@.dom()) by {
            assert forall|x: HgNodeHash| ids.to_set().contains(x) <==> self@.dom().contains(x) by {
                if ids.contains(x) {
                    let k = choose|k: int| 0 <= k < ids.len() && ids[k] == x;
                    assert(self.nodes@[k].id == x);
                }
                if self@.dom().contains(x) {
                    let k = choose|k: int|
                        0 <= k < self.nodes@.len() && (#[trigger] self.nodes@[k]).id == x;
                    assert(ids[k] == x);
                }
            }
        }
        assert(ids.no_duplicates()) by {
            assert forall|i: int, j: int|
                0 <= i < ids.len() && 0 <= j < ids.len() && i != j implies ids[i] != ids[j] by {
                assert(self.nodes@[i].id == ids[i]);
                assert(self.nodes@[j].id == ids[j]);
            }
        }
        ids.unique_seq_to_set();
    }

    /// How many changesets have been added.
    pub closed spec fn size(&self) -> nat {
        self.nodes@.len()
    }

    /// How many changesets the graph holds.
    pub fn len(&self) -> (n: usize)
        requires
            self.wf(),
        ensures
            n == self@.dom().len(),
            n == self.size(),
    {
        proof {
            self.lemma_size();
        }
        self.nodes.len()
    }

    /// The generation number of a changeset in the graph.
    pub fn get_generation_number(&self, id: &ChangesetId) -> (r: Option<u64>)
        requires
            self.wf(),
        ensures
            r is Some <==> self@.dom().contains(id.0),
            r matches Some(g) ==> g == self@[id.0].generation,
    {
        match self.find(&id.0) {
            Some(i) => Some(self.nodes[i].generation),
            None => None,
        }
    }

    /// The parents of a changeset in the graph.
    pub fn get_parents(&self, id: &ChangesetId) -> (r: Option<Vec<ChangesetId>>)
        requires
            self.wf(),
        ensures
            r is Some <==> self@.dom().contains(id.0),
            r matches Some(p) ==> p@.len() == self@[id.0].parents.len() && forall|k: int|
                0 <= k < p@.len() ==> (#[trigger] p@[k]).0 == self@[id.0].parents[k],
    {
        match self.find(&id.0) {
            Some(i) => {
                let stored = &self.nodes[i].parents;
                let mut out: Vec<ChangesetId> = Vec::new();
                let mut k: usize = 0;
                while k < stored.len()
                    invariant
                        k <= stored.len(),
                        out@.len() == k,
                        forall|j: int| 0 <= j < k ==> (#[trigger] out@[j]).0 == stored@[j],
                    decreases stored.len() - k,
                {
                    out.push(ChangesetId::new(stored[k]));
                    k += 1;
                }
                Some(out)
            },
            None => None,
        }
    }

    /// Adds a changeset whose parents are in the graph; its generation is
    /// one more than the largest of theirs. A changeset that is there
    /// already, or one with a parent that is not, is refused and the
    /// graph stays as it is.
    pub fn add_changeset(&mut self, id: ChangesetId, parents: &Vec<ChangesetId>) -> (r: Result<
        u64,
        AddError,
    >)
        requires
            old(self).wf(),
            old(self).size() < usize::MAX,
        ensures
            final(self).wf(),
            r is Ok <==> !old(self)@.dom().contains(id.0) && forall|k: int|
                0 <= k < parents@.len() ==> old(self)@.dom().contains((#[trigger] parents@[k]).0),
            r matches Ok(g) ==> final(self)@ == old(self)@.insert(
                id.0,
                NodeInfo { parents: Seq::new(parents@.len(), |k: int| parents@[k].0), generation: g },
            ) && final(self).size() == old(self).size() + 1,
            r matches Err(e) ==> final(self)@ == old(self)@ && final(self).size() == old(self).size()
                && (match e {
                AddError::Present => old(self)@.dom().contains(id.0),
                AddError::ParentMissing(p) => !old(self)@.dom().contains(id.0) && exists|k: int|
                    0 <= k < parents@.len() && (#[trigger] parents@[k]).0 == p.0 && !old(
                        self,
                    )@.dom().contains(p.0),
            }),
    {
        if self.find(&id.0).is_some() {
            return Err(AddError::Present);
        }
        let ghost m = self.model@;
        let ghost wanted = Seq::new(parents@.len(), |k: int| parents@[k].0);
        let n = self.nodes.len();
        let mut stored: Vec<HgNodeHash> = Vec::new();
        let mut top: u64 = 0;
        let mut k: usize = 0;
        assert(wanted.take(0) =~= Seq::<HgNodeHash>::empty());
        while k < parents.len()
            invariant
                k <= parents.len(),
                self.wf(),
                self.model@ == m,
                m == old(self)@,
                !m.dom().contains(id.0),
                self.nodes@ == old(self).nodes@,
                self.nodes@.len() == n,
                wanted == Seq::new(parents@.len(), |k: int| parents@[k].0),
                stored@ == wanted.take(k as int),
                top == max_generation(m, wanted.take(k as int)),
                top <= n,
                forall|j: int| 0 <= j < k ==> m.dom().contains(#[trigger] wanted[j]),
            decreases parents.len() - k,
        {
            let p = parents[k].0;
            match self.find(&p) {
                Some(i) => {
                    proof {
                        let t = wanted.take(k + 1);
                        assert(t.drop_last() =~= wanted.take(k as int));
                        assert(t.last() == p);
                        assert(wanted.take(k + 1) =~= stored@.push(p));
                        assert(self.nodes@[i as int].generation <= i + 1);
                    }
                    if self.nodes[i].generation > top {
                        top = self.nodes[i].generation;
                    }
                    stored.push(p);
                },
                None => {
                    assert(parents@[k as int].0 == p);
                    return Err(AddError::ParentMissing(parents[k]));
                },
            }
            k += 1;
        }
        assert(wanted.take(parents@.len() as int) =~= wanted);
        assert forall|j: int| 0 <= j < parents@.len() implies m.dom().contains(
            (#[trigger] parents@[j]).0,
        ) by {
            assert(m.dom().contains(wanted[j]));
        }
        let generation: u64 = top + 1;
        let ghost info = NodeInfo { parents: wanted, generation };
        let ghost m2 = m.insert(id.0, info);
        proof {
            assert forall|x: HgNodeHash| m2.dom().contains(x) implies (#[trigger] m2[x]).generation
                == 1 + max_generation(m2, m2[x].parents) by {
                if x == id.0 {
                    lemma_max_generation_insert(m, wanted, id.0, info);
                } else {
                    assert(m[x].generation == 1 + max_generation(m, m[x].parents));
                    assert forall|j: int| 0 <= j < m[x].parents.len() implies m[x].parents[j]
                        != id.0 by {
                        assert(m.dom().contains(m[x].parents[j]));
                    }
                    lemma_max_generation_insert(m, m[x].parents, id.0, info);
                }
            }
            assert forall|x: HgNodeHash, j: int|
                m2.dom().contains(x) && 0 <= j < m2[x].parents.len() implies m2.dom().contains(
                #[trigger] m2[x].parents[j],
            ) by {
                if x == id.0 {
                    assert(m.dom().contains(wanted[j]));
                } else {
                    assert(m.dom().contains(m[x].parents[j]));
                }
            }
        }
        let ghost before = self.nodes@;
        self.nodes.push(ChangesetNode { id: id.0, parents: stored, generation });
        self.model = Ghost(m2);
        proof {
            assert forall|x: HgNodeHash| m2.dom().contains(x) implies exists|i: int|
                0 <= i < self.nodes@.len() && (#[trigger] self.nodes@[i]).id == x by {
                if x == id.0 {
                    assert(self.nodes@[n as int].id == x);
                } else {
                    let i = choose|i: int| 0 <= i < before.len() && (#[trigger] before[i]).id == x;
                    assert(self.nodes@[i].id == x);
                }
            }
            assert forall|i: int, j: int|
                0 <= i < self.nodes@.len() && 0 <= j < self.nodes@.len() && i != j implies (
            #[trigger] self.nodes@[i]).id != (#[trigger] self.nodes@[j]).id by {
                if i < n && j < n {
                    assert(before[i].id != before[j].id);
                } else if i < n {
                    assert(m.dom().contains(before[i].id));
                } else {
                    assert(m.dom().contains(before[j].id));
                }
            }
            assert forall|i: int| 0 <= i < self.nodes@.len() implies m2.dom().contains(
                (#[trigger] self.nodes@[i]).id,
            ) && m2[self.nodes@[i].id].parents == self.nodes@[i].parents@
                && m2[self.nodes@[i].id].generation == self.nodes@[i].generation
                && self.nodes@[i].generation <= i + 1 by {
                if i < n {
                    assert(self.nodes@[i] == before[i]);
                    assert(m.dom().contains(before[i].id));
                }
            }
        }
        Ok(generation)
    }
}

} // verus!
