//! Reachability in the commit graph: a search from the descendant
//! towards its ancestors, layer by layer, that leaves out every changeset
//! whose generation is below the one looked for.

use vstd::prelude::*;
use vstd::set_lib::lemma_len_subset;
use crate::errors::ErrorKind;
use crate::graph::{graph_ok, lemma_parent_generation, ChangesetGraph, NodeInfo};
use crate::nodehash::{ChangesetId, HgChangesetId, HgNodeHash};
use crate::nodeset::NodeSet;

verus! {

/// `parent` is a parent of `child`.
pub open spec fn is_parent(m: Map<HgNodeHash, NodeInfo>, child: HgNodeHash, parent: HgNodeHash) -> bool {
    m.dom().contains(child) && m[child].parents.contains(parent)
}

/// A walk through the graph that goes from each changeset to one of its
/// parents.
pub open spec fn is_path(m: Map<HgNodeHash, NodeInfo>, path: Seq<HgNodeHash>) -> bool {
    &&& path.len() >= 1
    &&& m.dom().contains(path[0])
    &&& forall|k: int| 0 <= k < path.len() - 1 ==> is_parent(m, #[trigger] path[k], path[k + 1])
}

/// `ancestor` is `descendant` itself or can be reached from it by going
/// from child to parent.
pub open spec fn is_ancestor(
    m: Map<HgNodeHash, NodeInfo>,
    ancestor: HgNodeHash,
    descendant: HgNodeHash,
) -> bool {
    exists|path: Seq<HgNodeHash>|
        #![trigger is_path(m, path)]
        is_path(m, path) && path[0] == descendant && path.last() == ancestor
}

/// Every changeset of the graph is its own ancestor.
pub proof fn lemma_ancestor_of_itself(m: Map<HgNodeHash, NodeInfo>, x: HgNodeHash)
    requires
        m.dom().contains(x),
    ensures
        is_ancestor(m, x, x),
{
    let path = seq![x];
    assert(is_path(m, path));
    assert(path[0] == x && path.last() == x);
}

/// A parent of an ancestor is an ancestor.
pub proof fn lemma_ancestor_step(
    m: Map<HgNodeHash, NodeInfo>,
    x: HgNodeHash,
    p: HgNodeHash,
    descendant: HgNodeHash,
)
    requires
        is_ancestor(m, x, descendant),
        is_parent(m, x, p),
    ensures
        is_ancestor(m, p, descendant),
{
    let path = choose|path: Seq<HgNodeHash>|
        #![trigger is_path(m, path)]
        is_path(m, path) && path[0] == descendant && path.last() == x;
    let longer = path.push(p);
    assert forall|k: int| 0 <= k < longer.len() - 1 implies is_parent(
        m,
        #[trigger] longer[k],
        longer[k + 1],
    ) by {
        if k < path.len() - 1 {
            assert(is_parent(m, path[k], path[k + 1]));
        }
    }
    assert(is_path(m, longer));
    assert(longer[0] == descendant && longer.last() == p);
}

/// Along a walk, every changeset is in the graph and generations do not
/// grow.
pub proof fn lemma_path_generation(m: Map<HgNodeHash, NodeInfo>, path: Seq<HgNodeHash>, k: int)
    requires
        graph_ok(m),
        is_path(m, path),
        0 <= k < path.len(),
    ensures
        m.dom().contains(path[k]),
        m[path[k]].generation <= m[path[0]].generation,
        k > 0 ==> m[path[k]].generation < m[path[0]].generation,
    decreases k,
{
    if k > 0 {
        lemma_path_generation(m, path, k - 1);
        assert(is_parent(m, path[k - 1], path[k]));
        let x = path[k - 1];
        let j = choose|j: int| 0 <= j < m[x].parents.len() && m[x].parents[j] == path[k];
        lemma_parent_generation(m, x, j);
        assert(m.dom().contains(m[x].parents[j]));
    }
}

/// An ancestor is in the graph, and its generation is not above its
/// descendant's: this is what lets the search leave out changesets of a
/// lower generation than the one looked for.
pub proof fn lemma_ancestor_generation(
    m: Map<HgNodeHash, NodeInfo>,
    ancestor: HgNodeHash,
    descendant: HgNodeHash,
)
    requires
        graph_ok(m),
        is_ancestor(m, ancestor, descendant),
    ensures
        m.dom().contains(ancestor),
        m.dom().contains(descendant),
        m[ancestor].generation <= m[descendant].generation,
{
    let path = choose|path: Seq<HgNodeHash>|
        #![trigger is_path(m, path)]
        is_path(m, path) && path[0] == descendant && path.last() == ancestor;
    lemma_path_generation(m, path, path.len() - 1);
}

/// Of two different changesets, at most one is an ancestor of the other:
/// a search from an ancestor for one of its descendants finds nothing.
pub proof fn lemma_no_mutual_ancestors(m: Map<HgNodeHash, NodeInfo>, root: HgNodeHash, src: HgNodeHash)
    requires
        graph_ok(m),
        is_ancestor(m, root, src),
        src != root,
    ensures
        !is_ancestor(m, src, root),
{
    let down = choose|path: Seq<HgNodeHash>|
        #![trigger is_path(m, path)]
        is_path(m, path) && path[0] == src && path.last() == root;
    lemma_path_generation(m, down, down.len() - 1);
    if is_ancestor(m, src, root) {
        lemma_ancestor_generation(m, src, root);
    }
}

/// A set of changesets that holds the start of a walk, and with each of
/// its members every parent from which the end of the walk can be
/// reached, holds the end of the walk.
proof fn lemma_closed_set_holds_target(
    m: Map<HgNodeHash, NodeInfo>,
    seen: Set<HgNodeHash>,
    dst: HgNodeHash,
    path: Seq<HgNodeHash>,
    k: int,
)
    requires
        graph_ok(m),
        is_path(m, path),
        path.last() == dst,
        seen.contains(path[0]),
        forall|x: HgNodeHash, p: HgNodeHash|
            seen.contains(x) && #[trigger] is_parent(m, x, p) && is_ancestor(m, dst, p)
                ==> seen.contains(p),
        0 <= k < path.len(),
    ensures
        seen.contains(path[k]),
    decreases k,
{
    if k > 0 {
        lemma_closed_set_holds_target(m, seen, dst, path, k - 1);
        assert(is_parent(m, path[k - 1], path[k]));
        let rest = path.skip(k);
        assert forall|j: int| 0 <= j < rest.len() - 1 implies is_parent(
            m,
            #[trigger] rest[j],
            rest[j + 1],
        ) by {
            assert(is_parent(m, path[k + j], path[k + j + 1]));
        }
        lemma_path_generation(m, path, k);
        assert(is_path(m, rest));
        assert(rest[0] == path[k] && rest.last() == dst);
        assert(is_ancestor(m, dst, path[k]));
    }
}


/// One of the pairs names the changeset, and its number is `bound` or
/// more.
pub open spec fn listed_from(
    parent_gens: Seq<(ChangesetId, u64)>,
    p: HgNodeHash,
    bound: u64,
) -> bool {
    exists|i: int|
        0 <= i < parent_gens.len() && (#[trigger] parent_gens[i]).0.0 == p && parent_gens[i].1
            >= bound
}

/// One layer of the search. `parent_gens` holds the parents of the
/// changesets of the current layer, each with its generation. The
/// current layer joins the changesets seen; the next layer is made of
/// the parents that have not been seen and whose generation is not below
/// `dst_gen`.
pub fn process_bfs_layer(
    curr_layer: &NodeSet,
    curr_seen: NodeSet,
    parent_gens: &Vec<(ChangesetId, u64)>,
    dst_gen: u64,
) -> (r: (NodeSet, NodeSet))
    requires
        curr_layer.wf(),
        curr_seen.wf(),
    ensures
        r.0.wf(),
        r.1.wf(),
        r.1@ == curr_seen@.union(curr_layer@),
        forall|p: HgNodeHash|
            r.0@.contains(p) <==> !r.1@.contains(p) && listed_from(parent_gens@, p, dst_gen),
{
    let mut seen = curr_seen;
    let n = curr_layer.len();
    let mut i: usize = 0;
    while i < n
        invariant
            i <= n,
            n == curr_layer.order().len(),
            curr_layer.order().to_set() == curr_layer@,
            curr_layer.wf(),
            seen.wf(),
            forall|x: HgNodeHash|
                seen@.contains(x) <==> curr_seen@.contains(x) || exists|j: int|
                    0 <= j < i && curr_layer.order()[j] == x,
        decreases n - i,
    {
        let x = curr_layer.get(i);
        seen.insert(x);
        i += 1;
    }
    proof {
        assert forall|x: HgNodeHash| seen@.contains(x) <==> curr_seen@.union(curr_layer@).contains(
            x,
        ) by {
            if curr_layer@.contains(x) {
                assert(curr_layer.order().contains(x));
            }
        }
        assert(seen@ =~= curr_seen@.union(curr_layer@));
    }
    let mut next = NodeSet::new();
    let mut k: usize = 0;
    while k < parent_gens.len()
        invariant
            k <= parent_gens.len(),
            seen.wf(),
            next.wf(),
            seen@ == curr_seen@.union(curr_layer@),
            forall|p: HgNodeHash|
                next@.contains(p) <==> !seen@.contains(p) && listed_from(
                    parent_gens@.take(k as int),
                    p,
                    dst_gen,
                ),
        decreases parent_gens.len() - k,
    {
        let p = parent_gens[k].0.0;
        let g = parent_gens[k].1;
        let ghost before = next@;
        let ghost a = parent_gens@.take(k as int);
        let ghost b = parent_gens@.take(k + 1);
        if !seen.contains(&p) && g >= dst_gen {
            next.insert(p);
        }
        proof {
            assert(b =~= a.push(parent_gens@[k as int]));
            assert forall|q: HgNodeHash|
                next@.contains(q) <==> !seen@.contains(q) && listed_from(b, q, dst_gen) by {
                if listed_from(a, q, dst_gen) {
                    let w = choose|w: int|
                        0 <= w < a.len() && (#[trigger] a[w]).0.0 == q && a[w].1 >= dst_gen;
                    assert(b[w] == a[w]);
                }
                if listed_from(b, q, dst_gen) {
                    let w = choose|w: int|
                        0 <= w < b.len() && (#[trigger] b[w]).0.0 == q && b[w].1 >= dst_gen;
                    if w < a.len() {
                        assert(a[w] == b[w]);
                    }
                }
                if q == p && g >= dst_gen {
                    assert(b[k as int].0.0 == q);
                }
            }
        }
        k += 1;
    }
    assert(parent_gens@.take(parent_gens.len() as int) =~= parent_gens@);
    (next, seen)
}

/// The parents of the changesets of a layer, each with its generation.
fn parents_with_generations(graph: &ChangesetGraph, layer: &NodeSet) -> (all: Vec<(ChangesetId, u64)>)
    requires
        graph.wf(),
        layer.wf(),
        forall|x: HgNodeHash| layer@.contains(x) ==> graph@.dom().contains(x),
    ensures
        forall|i: int|
            0 <= i < all@.len() ==> graph@.dom().contains((#[trigger] all@[i]).0.0) && all@[i].1
                == graph@[all@[i].0.0].generation && exists|x: HgNodeHash|
                layer@.contains(x) && is_parent(graph@, x, all@[i].0.0),
        forall|x: HgNodeHash, p: HgNodeHash|
            layer@.contains(x) && #[trigger] is_parent(graph@, x, p) ==> exists|i: int|
                0 <= i < all@.len() && (#[trigger] all@[i]).0.0 == p,
{
    let mut all: Vec<(ChangesetId, u64)> = Vec::new();
    let n = layer.len();
    let mut i: usize = 0;
    while i < n
        invariant
            i <= n,
            graph.wf(),
            layer.wf(),
            n == layer.order().len(),
            layer.order().to_set() == layer@,
            forall|x: HgNodeHash| layer@.contains(x) ==> graph@.dom().contains(x),
            forall|j: int|
                0 <= j < all@.len() ==> graph@.dom().contains((#[trigger] all@[j]).0.0)
                    && all@[j].1 == graph@[all@[j].0.0].generation && exists|x: HgNodeHash|
                    layer@.contains(x) && is_parent(graph@, x, all@[j].0.0),
            forall|w: int, p: HgNodeHash|
                0 <= w < i && #[trigger] is_parent(graph@, layer.order()[w], p) ==> exists|j: int|
                    0 <= j < all@.len() && (#[trigger] all@[j]).0.0 == p,
        decreases n - i,
    {
        let x = layer.get(i);
        let parents = match graph.get_parents(&ChangesetId::new(x)) {
            Some(p) => p,
            None => Vec::new(),
        };
        let ghost stored = graph@[x].parents;
        let ghost start = all@;
        let mut k: usize = 0;
        while k < parents.len()
            invariant
                k <= parents.len(),
                graph.wf(),
                layer@.contains(x),
                graph@.dom().contains(x),
                stored == graph@[x].parents,
                parents@.len() == stored.len(),
                forall|j: int| 0 <= j < parents@.len() ==> (#[trigger] parents@[j]).0 == stored[j],
                start.len() <= all@.len(),
                forall|j: int| 0 <= j < start.len() ==> all@[j] == start[j],
                forall|j: int|
                    0 <= j < all@.len() ==> graph@.dom().contains((#[trigger] all@[j]).0.0)
                        && all@[j].1 == graph@[all@[j].0.0].generation && exists|x: HgNodeHash|
                        layer@.contains(x) && is_parent(graph@, x, all@[j].0.0),
                forall|w: int|
                    0 <= w < k ==> exists|j: int|
                        0 <= j < all@.len() && (#[trigger] all@[j]).0.0 == #[trigger] stored[w],
            decreases parents.len() - k,
        {
            let p = parents[k];
            proof {
                assert(p.0 == stored[k as int]);
                assert(graph@.dom().contains(graph@[x].parents[k as int]));
                assert(is_parent(graph@, x, p.0));
            }
            let g = match graph.get_generation_number(&p) {
                Some(g) => g,
                None => 0,
            };
            let ghost prev = all@;
            all.push((p, g));
            proof {
                assert forall|w: int| 0 <= w < k + 1 implies exists|j: int|
                    0 <= j < all@.len() && (#[trigger] all@[j]).0.0 == #[trigger] stored[w] by {
                    if w < k {
                        let j = choose|j: int|
                            0 <= j < prev.len() && (#[trigger] prev[j]).0.0 == stored[w];
                        assert(all@[j] == prev[j]);
                    } else {
                        assert(all@[prev.len() as int].0.0 == stored[w]);
                    }
                }
                assert forall|j: int| 0 <= j < all@.len() implies graph@.dom().contains(
                    (#[trigger] all@[j]).0.0,
                ) && all@[j].1 == graph@[all@[j].0.0].generation && exists|x: HgNodeHash|
                    layer@.contains(x) && is_parent(graph@, x, all@[j].0.0) by {
                    if j < prev.len() {
                        assert(all@[j] == prev[j]);
                    }
                }
            }
            k += 1;
        }
        proof {
            assert forall|w: int, p: HgNodeHash|
                0 <= w < i + 1 && #[trigger] is_parent(graph@, layer.order()[w], p) implies exists|
                j: int,
            |
                0 <= j < all@.len() && (#[trigger] all@[j]).0.0 == p by {
                if w < i {
                    let j = choose|j: int| 0 <= j < start.len() && (#[trigger] start[j]).0.0 == p;
                    assert(all@[j] == start[j]);
                } else {
                    let c = choose|c: int| 0 <= c < stored.len() && stored[c] == p;
                    let j = choose|j: int|
                        0 <= j < all@.len() && (#[trigger] all@[j]).0.0 == #[trigger] stored[c];
                    assert(all@[j].0.0 == p);
                }
            }
        }
        i += 1;
    }
    proof {
        assert forall|x: HgNodeHash, p: HgNodeHash|
            layer@.contains(x) && #[trigger] is_parent(graph@, x, p) implies exists|i: int|
            0 <= i < all@.len() && (#[trigger] all@[i]).0.0 == p by {
            assert(layer.order().contains(x));
            let w = choose|w: int| 0 <= w < layer.order().len() && layer.order()[w] == x;
            assert(is_parent(graph@, layer.order()[w], p));
        }
    }
    all
}

/// The reachability index that searches by generation numbers.
#[derive(Clone, Copy, Debug)]
pub struct GenerationNumberBFS {}

impl GenerationNumberBFS {
    pub fn new() -> Self {
        GenerationNumberBFS {  }
    }

    /// Whether `dst` is an ancestor of `src`. A changeset that is not in
    /// the graph is reported as missing: `src` first.
    pub fn query_reachability(&self, graph: &ChangesetGraph, src: ChangesetId, dst: ChangesetId) -> (r:
        Result<bool, ErrorKind>)
        requires
            graph.wf(),
        ensures
            !graph@.dom().contains(src.0) ==> (r matches Err(ErrorKind::ChangesetMissing(c)) && c.0
                == src.0),
            graph@.dom().contains(src.0) && !graph@.dom().contains(dst.0) ==> (r matches Err(
                ErrorKind::ChangesetMissing(c),
            ) && c.0 == dst.0),
            graph@.dom().contains(src.0) && graph@.dom().contains(dst.0) ==> r == Ok::<
                bool,
                ErrorKind,
            >(is_ancestor(graph@, dst.0, src.0)),
    {
        if !graph.contains(&src) {
            return Err(ErrorKind::ChangesetMissing(HgChangesetId::new(src.0)));
        }
        let dst_gen = match graph.get_generation_number(&dst) {
            Some(g) => g,
            None => {
                return Err(ErrorKind::ChangesetMissing(HgChangesetId::new(dst.0)));
            },
        };
        let ghost m = graph@;
        let size = graph.len();
        let mut layer = NodeSet::new();
        layer.insert(src.0);
        let mut seen = NodeSet::new();
        proof {
            lemma_ancestor_of_itself(m, src.0);
        }
        loop
            invariant
                graph.wf(),
                m == graph@,
                size == m.dom().len(),
                m.dom().contains(src.0),
                m.dom().contains(dst.0),
                dst_gen == m[dst.0].generation,
                layer.wf(),
                seen.wf(),
                forall|x: HgNodeHash|
                    layer@.contains(x) ==> m.dom().contains(x) && is_ancestor(m, x, src.0),
                forall|x: HgNodeHash| seen@.contains(x) ==> m.dom().contains(x),
                forall|x: HgNodeHash| layer@.contains(x) ==> !seen@.contains(x),
                seen@.contains(src.0) || layer@.contains(src.0),
                !seen@.contains(dst.0),
                forall|x: HgNodeHash, p: HgNodeHash|
                    seen@.contains(x) && #[trigger] is_parent(m, x, p) && is_ancestor(m, dst.0, p)
                        ==> seen@.contains(p) || layer@.contains(p),
            decreases size - seen@.len(),
        {
            if layer.contains(&dst.0) {
                return Ok(true);
            }
            if layer.is_empty() {
                proof {
                    if is_ancestor(m, dst.0, src.0) {
                        let path = choose|path: Seq<HgNodeHash>|
                            #![trigger is_path(m, path)]
                            is_path(m, path) && path[0] == src.0 && path.last() == dst.0;
                        lemma_closed_set_holds_target(m, seen@, dst.0, path, path.len() - 1);
                    }
                }
                return Ok(false);
            }
            let all = parents_with_generations(graph, &layer);
            let ghost old_seen = seen@;
            let ghost old_layer = layer@;
            proof {
                seen.lemma_finite();
            }
            let (next_layer, next_seen) = process_bfs_layer(&layer, seen, &all, dst_gen);
            proof {
                // The search goes on over changesets of the graph only,
                // so it cannot go on for ever.
                let fresh = choose|x: HgNodeHash| old_layer.contains(x);
                assert(old_layer.contains(fresh)) by {
                    assert(old_layer !== Set::<HgNodeHash>::empty());
                    if forall|x: HgNodeHash| !old_layer.contains(x) {
                        assert(old_layer =~= Set::<HgNodeHash>::empty());
                    }
                }
                assert(old_seen.insert(fresh).subset_of(next_seen@));
                assert(next_seen@.subset_of(m.dom()));
                graph.lemma_size();
                assert(m.dom().finite());
                lemma_len_subset(next_seen@, m.dom());
                assert(next_seen@.finite());
                lemma_len_subset(old_seen.insert(fresh), next_seen@);

                assert forall|x: HgNodeHash| next_layer@.contains(x) implies m.dom().contains(x)
                    && is_ancestor(m, x, src.0) by {
                    let i = choose|i: int|
                        0 <= i < all@.len() && (#[trigger] all@[i]).0.0 == x && all@[i].1
                            >= dst_gen;
                    let c = choose|c: HgNodeHash|
                        old_layer.contains(c) && is_parent(m, c, all@[i].0.0);
                    lemma_ancestor_step(m, c, x, src.0);
                }
                assert forall|x: HgNodeHash, p: HgNodeHash|
                    next_seen@.contains(x) && #[trigger] is_parent(m, x, p) && is_ancestor(
                        m,
                        dst.0,
                        p,
                    ) implies next_seen@.contains(p) || next_layer@.contains(p) by {
                    if old_seen.contains(x) {
                    } else {
                        assert(old_layer.contains(x));
                        lemma_ancestor_generation(m, dst.0, p);
                        let i = choose|i: int| 0 <= i < all@.len() && (#[trigger] all@[i]).0.0 == p;
                        assert(all@[i].1 == m[p].generation);
                        assert(listed_from(all@, p, dst_gen));
                    }
                }
            }
            layer = next_layer;
            seen = next_seen;
        }
    }
}

} // verus!
