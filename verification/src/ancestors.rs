//! Sets of ancestors: what a bundle for a pull has to hold.

use vstd::prelude::*;
use crate::errors::ErrorKind;
use crate::genbfs::{is_ancestor, is_parent, is_path, process_bfs_layer};
use crate::graph::{graph_ok, ChangesetGraph, NodeInfo};
use crate::nodehash::{ChangesetId, HgChangesetId, HgNodeHash};
use crate::nodeset::NodeSet;

verus! {

/// One of the changesets has `x` as an ancestor.
pub open spec fn reached_from(
    m: Map<HgNodeHash, NodeInfo>,
    from: Seq<ChangesetId>,
    x: HgNodeHash,
) -> bool {
    exists|i: int| 0 <= i < from.len() && is_ancestor(m, x, (#[trigger] from[i]).0)
}

/// A walk from one of the changesets to `x` that touches nothing in
/// `stop`.
pub open spec fn avoiding_walk(
    m: Map<HgNodeHash, NodeInfo>,
    from: Seq<ChangesetId>,
    stop: Set<HgNodeHash>,
    path: Seq<HgNodeHash>,
    x: HgNodeHash,
) -> bool {
    &&& is_path(m, path)
    &&& exists|i: int| 0 <= i < from.len() && (#[trigger] from[i]).0 == path[0]
    &&& path.last() == x
    &&& forall|k: int| 0 <= k < path.len() ==> !stop.contains(#[trigger] path[k])
}

/// `x` can be reached from one of the changesets without touching
/// anything in `stop`.
pub open spec fn reached_avoiding(
    m: Map<HgNodeHash, NodeInfo>,
    from: Seq<ChangesetId>,
    stop: Set<HgNodeHash>,
    x: HgNodeHash,
) -> bool {
    exists|path: Seq<HgNodeHash>| #[trigger] avoiding_walk(m, from, stop, path, x)
}

proof fn lemma_walk_step(
    m: Map<HgNodeHash, NodeInfo>,
    from: Seq<ChangesetId>,
    stop: Set<HgNodeHash>,
    x: HgNodeHash,
    p: HgNodeHash,
)
    requires
        reached_avoiding(m, from, stop, x),
        is_parent(m, x, p),
        !stop.contains(p),
    ensures
        reached_avoiding(m, from, stop, p),
{
    let path = choose|path: Seq<HgNodeHash>| #[trigger] avoiding_walk(m, from, stop, path, x);
    let longer = path.push(p);
    assert forall|k: int| 0 <= k < longer.len() - 1 implies is_parent(
        m,
        #[trigger] longer[k],
        longer[k + 1],
    ) by {
        if k < path.len() - 1 {
            assert(is_parent(m, path[k], path[k + 1]));
        }
    }
    assert forall|k: int| 0 <= k < longer.len() implies !stop.contains(#[trigger] longer[k]) by {
        if k < path.len() {
            assert(!stop.contains(path[k]));
        }
    }
    let i = choose|i: int| 0 <= i < from.len() && (#[trigger] from[i]).0 == path[0];
    assert(from[i].0 == longer[0]);
    assert(avoiding_walk(m, from, stop, longer, p));
}

proof fn lemma_closed_holds_walk(
    m: Map<HgNodeHash, NodeInfo>,
    stop: Set<HgNodeHash>,
    seen: Set<HgNodeHash>,
    path: Seq<HgNodeHash>,
    k: int,
)
    requires
        is_path(m, path),
        seen.contains(path[0]),
        forall|j: int| 0 <= j < path.len() ==> !stop.contains(#[trigger] path[j]),
        forall|x: HgNodeHash, p: HgNodeHash|
            seen.contains(x) && #[trigger] is_parent(m, x, p) && !stop.contains(p)
                ==> seen.contains(p),
        0 <= k < path.len(),
    ensures
        seen.contains(path[k]),
    decreases k,
{
    if k > 0 {
        lemma_closed_holds_walk(m, stop, seen, path, k - 1);
        assert(is_parent(m, path[k - 1], path[k]));
        assert(!stop.contains(path[k]));
    }
}

/// The changesets that can be reached from `from` without touching
/// anything in `stop`. A changeset of `from` that is not in the graph is
/// reported as missing.
pub fn ancestors_avoiding(graph: &ChangesetGraph, from: &Vec<ChangesetId>, stop: &NodeSet) -> (r:
    Result<NodeSet, ErrorKind>)
    requires
        graph.wf(),
        stop.wf(),
    ensures
        r is Ok <==> forall|i: int|
            0 <= i < from@.len() ==> graph@.dom().contains((#[trigger] from@[i]).0),
        r matches Ok(found) ==> found.wf() && forall|x: HgNodeHash|
            found@.contains(x) <==> reached_avoiding(graph@, from@, stop@, x),
        r matches Err(e) ==> (e matches ErrorKind::ChangesetMissing(c) && exists|i: int|
            0 <= i < from@.len() && (#[trigger] from@[i]).0 == c.0 && !graph@.dom().contains(c.0)),
{
    let ghost m = graph@;
    let size = graph.len();
    let mut layer = NodeSet::new();
    let mut i: usize = 0;
    while i < from.len()
        invariant
            i <= from.len(),
            graph.wf(),
            m == graph@,
            stop.wf(),
            layer.wf(),
            forall|j: int| 0 <= j < i ==> m.dom().contains((#[trigger] from@[j]).0),
            forall|x: HgNodeHash|
                layer@.contains(x) <==> !stop@.contains(x) && exists|j: int|
                    0 <= j < i && (#[trigger] from@[j]).0 == x,
        decreases from.len() - i,
    {
        if !graph.contains(&from[i]) {
            return Err(ErrorKind::ChangesetMissing(HgChangesetId::new(from[i].0)));
        }
        if !stop.contains(&from[i].0) {
            layer.insert(from[i].0);
        }
        i += 1;
    }
    let mut seen = NodeSet::new();
    proof {
        assert forall|x: HgNodeHash| layer@.contains(x) implies m.dom().contains(x)
            && reached_avoiding(m, from@, stop@, x) by {
            let j = choose|j: int| 0 <= j < from@.len() && (#[trigger] from@[j]).0 == x;
            let path = seq![x];
            assert(is_path(m, path));
            assert(from@[j].0 == path[0]);
            assert(avoiding_walk(m, from@, stop@, path, x));
        }
    }
    loop
        invariant
            graph.wf(),
            m == graph@,
            size == m.dom().len(),
            stop.wf(),
            layer.wf(),
            seen.wf(),
            forall|j: int| 0 <= j < from@.len() ==> m.dom().contains((#[trigger] from@[j]).0),
            forall|x: HgNodeHash|
                layer@.contains(x) ==> m.dom().contains(x) && !stop@.contains(x)
                    && reached_avoiding(m, from@, stop@, x),
            forall|x: HgNodeHash|
                seen@.contains(x) ==> m.dom().contains(x) && reached_avoiding(m, from@, stop@, x),
            forall|x: HgNodeHash| layer@.contains(x) ==> !seen@.contains(x),
            forall|j: int|
                0 <= j < from@.len() && !stop@.contains((#[trigger] from@[j]).0) ==> seen@.contains(
                    from@[j].0,
                ) || layer@.contains(from@[j].0),
            forall|x: HgNodeHash, p: HgNodeHash|
                seen@.contains(x) && #[trigger] is_parent(m, x, p) && !stop@.contains(p)
                    ==> seen@.contains(p) || layer@.contains(p),
        decreases size - seen@.len(),
    {
        if layer.is_empty() {
            proof {
                assert forall|x: HgNodeHash| reached_avoiding(m, from@, stop@, x)
                    implies seen@.contains(x) by {
                    let path = choose|path: Seq<HgNodeHash>| #[trigger]
                        avoiding_walk(m, from@, stop@, path, x);
                    let j = choose|j: int| 0 <= j < from@.len() && (#[trigger] from@[j]).0 == path[0];
                    assert(!stop@.contains(path[0]));
                    assert(seen@.contains(from@[j].0));
                    lemma_closed_holds_walk(m, stop@, seen@, path, path.len() - 1);
                }
            }
            return Ok(seen);
        }
        let all = parents_of_layer(graph, &layer);
        let ghost old_seen = seen@;
        let ghost old_layer = layer@;
        proof {
            seen.lemma_finite();
        }
        let (candidates, next_seen) = process_bfs_layer(&layer, seen, &all, 0);
        let mut next_layer = NodeSet::new();
        let n = candidates.len();
        let mut k: usize = 0;
        while k < n
            invariant
                k <= n,
                stop.wf(),
                candidates.wf(),
                next_layer.wf(),
                n == candidates.order().len(),
                candidates.order().to_set() == candidates@,
                forall|x: HgNodeHash|
                    next_layer@.contains(x) <==> !stop@.contains(x) && exists|j: int|
                        0 <= j < k && candidates.order()[j] == x,
            decreases n - k,
        {
            let c = candidates.get(k);
            if !stop.contains(&c) {
                next_layer.insert(c);
            }
            k += 1;
        }
        proof {
            assert forall|x: HgNodeHash|
                next_layer@.contains(x) <==> !stop@.contains(x) && candidates@.contains(x) by {
                if candidates@.contains(x) {
                    assert(candidates.order().contains(x));
                }
            }
            let fresh = choose|x: HgNodeHash| old_layer.contains(x);
            assert(old_layer.contains(fresh)) by {
                assert(old_layer !== Set::<HgNodeHash>::empty());
                if forall|x: HgNodeHash| !old_layer.contains(x) {
                    assert(old_layer =~= Set::<HgNodeHash>::empty());
                }
            }
            assert(old_seen.insert(fresh).subset_of(next_seen@));
            assert(next_seen@.subset_of(m.dom()));
            graph.lemma_size();
            vstd::set_lib::lemma_len_subset(next_seen@, m.dom());
            vstd::set_lib::lemma_len_subset(old_seen.insert(fresh), next_seen@);

            assert forall|x: HgNodeHash| next_layer@.contains(x) implies m.dom().contains(x)
                && !stop@.contains(x) && reached_avoiding(m, from@, stop@, x) by {
                let w = choose|w: int|
                    0 <= w < all@.len() && (#[trigger] all@[w]).0.0 == x && all@[w].1 >= 0;
                let c = choose|c: HgNodeHash| old_layer.contains(c) && is_parent(m, c, all@[w].0.0);
                lemma_walk_step(m, from@, stop@, c, x);
            }
            assert forall|x: HgNodeHash, p: HgNodeHash|
                next_seen@.contains(x) && #[trigger] is_parent(m, x, p) && !stop@.contains(
                    p,
                ) implies next_seen@.contains(p) || next_layer@.contains(p) by {
                if !old_seen.contains(x) {
                    assert(old_layer.contains(x));
                    let w = choose|w: int| 0 <= w < all@.len() && (#[trigger] all@[w]).0.0 == p;
                    assert(crate::genbfs::listed_from(all@, p, 0));
                }
            }
        }
        layer = next_layer;
        seen = next_seen;
    }
}

/// The parents of the changesets of a layer, each with a number that is
/// not looked at.
fn parents_of_layer(graph: &ChangesetGraph, layer: &NodeSet) -> (all: Vec<(ChangesetId, u64)>)
    requires
        graph.wf(),
        layer.wf(),
        forall|x: HgNodeHash| layer@.contains(x) ==> graph@.dom().contains(x),
    ensures
        forall|i: int|
            0 <= i < all@.len() ==> graph@.dom().contains((#[trigger] all@[i]).0.0) && exists|
                x: HgNodeHash,
            | layer@.contains(x) && is_parent(graph@, x, all@[i].0.0),
        forall|x: HgNodeHash, p: HgNodeHash|
            layer@.contains(x) && #[trigger] is_parent(graph@, x, p) ==> exists|i: int|
                0 <= i < all@.len() && (#[trigger] all@[i]).0.0 == p,
{
    let mut all: Vec<(ChangesetId, u64)> = Vec::new();
    let n = layer.len();
    let mut i: usize = 0;
    while i < n
        invariant
            i <= n,
            graph.wf(),
            layer.wf(),
            n == layer.order().len(),
            layer.order().to_set() == layer@,
            forall|x: HgNodeHash| layer@.contains(x) ==> graph@.dom().contains(x),
            forall|j: int|
                0 <= j < all@.len() ==> graph@.dom().contains((#[trigger] all@[j]).0.0) && exists|
                    x: HgNodeHash,
                | layer@.contains(x) && is_parent(graph@, x, all@[j].0.0),
            forall|w: int, p: HgNodeHash|
                0 <= w < i && #[trigger] is_parent(graph@, layer.order()[w], p) ==> exists|j: int|
                    0 <= j < all@.len() && (#[trigger] all@[j]).0.0 == p,
        decreases n - i,
    {
        let x = layer.get(i);
        let parents = match graph.get_parents(&ChangesetId::new(x)) {
            Some(p) => p,
            None => Vec::new(),
        };
        let ghost stored = graph@[x].parents;
        let ghost start = all@;
        let mut k: usize = 0;
        while k < parents.len()
            invariant
                k <= parents.len(),
                graph.wf(),
                layer@.contains(x),
                graph@.dom().contains(x),
                stored == graph@[x].parents,
                parents@.len() == stored.len(),
                forall|j: int| 0 <= j < parents@.len() ==> (#[trigger] parents@[j]).0 == stored[j],
                start.len() <= all@.len(),
                forall|j: int| 0 <= j < start.len() ==> all@[j] == start[j],
                forall|j: int|
                    0 <= j < all@.len() ==> graph@.dom().contains((#[trigger] all@[j]).0.0)
                        && exists|x: HgNodeHash|
                        layer@.contains(x) && is_parent(graph@, x, all@[j].0.0),
                forall|w: int|
                    0 <= w < k ==> exists|j: int|
                        0 <= j < all@.len() && (#[trigger] all@[j]).0.0 == #[trigger] stored[w],
            decreases parents.len() - k,
        {
            let p = parents[k];
            proof {
                assert(p.0 == stored[k as int]);
                assert(graph@.dom().contains(graph@[x].parents[k as int]));
                assert(is_parent(graph@, x, p.0));
            }
            let ghost prev = all@;
            all.push((p, 0));
            proof {
                assert forall|w: int| 0 <= w < k + 1 implies exists|j: int|
                    0 <= j < all@.len() && (#[trigger] all@[j]).0.0 == #[trigger] stored[w] by {
                    if w < k {
                        let j = choose|j: int|
                            0 <= j < prev.len() && (#[trigger] prev[j]).0.0 == stored[w];
                        assert(all@[j] == prev[j]);
                    } else {
                        assert(all@[prev.len() as int].0.0 == stored[w]);
                    }
                }
                assert forall|j: int| 0 <= j < all@.len() implies graph@.dom().contains(
                    (#[trigger] all@[j]).0.0,
                ) && exists|x: HgNodeHash|
                    layer@.contains(x) && is_parent(graph@, x, all@[j].0.0) by {
                    if j < prev.len() {
                        assert(all@[j] == prev[j]);
                    }
                }
            }
            k += 1;
        }
        proof {
            assert forall|w: int, p: HgNodeHash|
                0 <= w < i + 1 && #[trigger] is_parent(graph@, layer.order()[w], p) implies exists|
                j: int,
            |
                0 <= j < all@.len() && (#[trigger] all@[j]).0.0 == p by {
                if w < i {
                    let j = choose|j: int| 0 <= j < start.len() && (#[trigger] start[j]).0.0 == p;
                    assert(all@[j] == start[j]);
                } else {
                    let c = choose|c: int| 0 <= c < stored.len() && stored[c] == p;
                    let j = choose|j: int|
                        0 <= j < all@.len() && (#[trigger] all@[j]).0.0 == #[trigger] stored[c];
                    assert(all@[j].0.0 == p);
                }
            }
        }
        i += 1;
    }
    proof {
        assert forall|x: HgNodeHash, p: HgNodeHash|
            layer@.contains(x) && #[trigger] is_parent(graph@, x, p) implies exists|i: int|
            0 <= i < all@.len() && (#[trigger] all@[i]).0.0 == p by {
            assert(layer.order().contains(x));
            let w = choose|w: int| 0 <= w < layer.order().len() && layer.order()[w] == x;
            assert(is_parent(graph@, layer.order()[w], p));
        }
    }
    all
}

/// Reaching a changeset without touching anything in the empty set is
/// reaching it.
pub proof fn lemma_avoiding_nothing(m: Map<HgNodeHash, NodeInfo>, from: Seq<ChangesetId>, x: HgNodeHash)
    ensures
        reached_avoiding(m, from, Set::empty(), x) <==> reached_from(m, from, x),
{
    let none = Set::<HgNodeHash>::empty();
    if reached_avoiding(m, from, none, x) {
        let path = choose|path: Seq<HgNodeHash>| #[trigger] avoiding_walk(m, from, none, path, x);
        let i = choose|i: int| 0 <= i < from.len() && (#[trigger] from[i]).0 == path[0];
        assert(is_ancestor(m, x, from[i].0));
    }
    if reached_from(m, from, x) {
        let i = choose|i: int| 0 <= i < from.len() && is_ancestor(m, x, (#[trigger] from[i]).0);
        let path = choose|path: Seq<HgNodeHash>|
            #![trigger is_path(m, path)]
            is_path(m, path) && path[0] == from[i].0 && path.last() == x;
        assert(from[i].0 == path[0]);
        assert(avoiding_walk(m, from, none, path, x));
    }
}

/// What lies behind `common` hides exactly what `common` reaches: a
/// changeset is reached from `heads` without touching anything that
/// `common` reaches when it is reached from `heads` and not from
/// `common`.
pub proof fn lemma_difference(
    m: Map<HgNodeHash, NodeInfo>,
    heads: Seq<ChangesetId>,
    common: Seq<ChangesetId>,
    behind: Set<HgNodeHash>,
    x: HgNodeHash,
)
    requires
        graph_ok(m),
        forall|y: HgNodeHash| behind.contains(y) <==> reached_from(m, common, y),
    ensures
        reached_avoiding(m, heads, behind, x) <==> reached_from(m, heads, x) && !reached_from(
            m,
            common,
            x,
        ),
{
    if reached_avoiding(m, heads, behind, x) {
        let path = choose|path: Seq<HgNodeHash>| #[trigger] avoiding_walk(m, heads, behind, path, x);
        let i = choose|i: int| 0 <= i < heads.len() && (#[trigger] heads[i]).0 == path[0];
        assert(is_ancestor(m, x, heads[i].0));
        assert(!behind.contains(path[path.len() - 1]));
    }
    if reached_from(m, heads, x) && !reached_from(m, common, x) {
        let i = choose|i: int| 0 <= i < heads.len() && is_ancestor(m, x, (#[trigger] heads[i]).0);
        let path = choose|path: Seq<HgNodeHash>|
            #![trigger is_path(m, path)]
            is_path(m, path) && path[0] == heads[i].0 && path.last() == x;
        assert forall|k: int| 0 <= k < path.len() implies !behind.contains(#[trigger] path[k]) by {
            if behind.contains(path[k]) {
                // What reaches a changeset on the walk reaches its end.
                let c = choose|c: int|
                    0 <= c < common.len() && is_ancestor(m, path[k], (#[trigger] common[c]).0);
                let down = choose|down: Seq<HgNodeHash>|
                    #![trigger is_path(m, down)]
                    is_path(m, down) && down[0] == common[c].0 && down.last() == path[k];
                let rest = path.skip(k + 1);
                let whole = down + rest;
                assert forall|j: int| 0 <= j < whole.len() - 1 implies is_parent(
                    m,
                    #[trigger] whole[j],
                    whole[j + 1],
                ) by {
                    if j < down.len() - 1 {
                        assert(is_parent(m, down[j], down[j + 1]));
                    } else if j == down.len() - 1 {
                        assert(whole[j] == path[k]);
                        assert(whole[j + 1] == path[k + 1]);
                        assert(is_parent(m, path[k], path[k + 1]));
                    } else {
                        let at = k + 1 + (j - down.len());
                        assert(whole[j] == path[at]);
                        assert(whole[j + 1] == path[at + 1]);
                        assert(is_parent(m, path[at], path[at + 1]));
                    }
                }
                assert(is_path(m, whole));
                assert(whole[0] == common[c].0);
                assert(whole.last() == x) by {
                    if k == path.len() - 1 {
                        assert(rest.len() == 0);
                        assert(whole =~= down);
                    } else {
                        assert(whole.last() == rest.last());
                    }
                }
                assert(is_ancestor(m, x, common[c].0));
                assert(reached_from(m, common, x));
            }
        }
        assert(heads[i].0 == path[0]);
        assert(avoiding_walk(m, heads, behind, path, x));
    }
}

/// The changesets that a bundle has to hold: those that `heads` reach and
/// `common` do not. A changeset of either list that is not in the graph is
/// reported as missing: of `common` first.
pub fn changesets_to_send(graph: &ChangesetGraph, heads: &Vec<ChangesetId>, common: &Vec<ChangesetId>) -> (r:
    Result<NodeSet, ErrorKind>)
    requires
        graph.wf(),
    ensures
        r is Ok <==> (forall|i: int|
            0 <= i < heads@.len() ==> graph@.dom().contains((#[trigger] heads@[i]).0)) && (forall|
            i: int,
        | 0 <= i < common@.len() ==> graph@.dom().contains((#[trigger] common@[i]).0)),
        r matches Ok(send) ==> send.wf() && forall|x: HgNodeHash|
            send@.contains(x) <==> reached_from(graph@, heads@, x) && !reached_from(
                graph@,
                common@,
                x,
            ),
        r is Err ==> r matches Err(ErrorKind::ChangesetMissing(c)),
{
    let none = NodeSet::new();
    let behind = match ancestors_avoiding(graph, common, &none) {
        Ok(b) => b,
        Err(e) => {
            return Err(e);
        },
    };
    proof {
        assert forall|y: HgNodeHash| behind@.contains(y) <==> reached_from(graph@, common@, y) by {
            lemma_avoiding_nothing(graph@, common@, y);
        }
    }
    match ancestors_avoiding(graph, heads, &behind) {
        Ok(send) => {
            proof {
                assert forall|x: HgNodeHash|
                    send@.contains(x) <==> reached_from(graph@, heads@, x) && !reached_from(
                        graph@,
                        common@,
                        x,
                    ) by {
                    lemma_difference(graph@, heads@, common@, behind@, x);
                }
            }
            Ok(send)
        },
        Err(e) => Err(e),
    }
}

} // verus!
