//! Phases: a changeset is public when a public head descends from it,
//! and a draft otherwise.

use vstd::prelude::*;
use crate::ancestors::{ancestors_avoiding, lemma_avoiding_nothing, reached_from};
use crate::client::Phase;
use crate::errors::ErrorKind;
use crate::genbfs::{is_ancestor, is_parent, lemma_ancestor_step};
use crate::graph::{ChangesetGraph, NodeInfo};
use crate::nodehash::{ChangesetId, HgNodeHash};
use crate::nodeset::NodeSet;

verus! {

/// The phase of a changeset, given the heads that are public.
pub open spec fn phase_of(
    m: Map<HgNodeHash, NodeInfo>,
    public_heads: Seq<ChangesetId>,
    x: HgNodeHash,
) -> Phase {
    if reached_from(m, public_heads, x) {
        Phase::Public
    } else {
        Phase::Draft
    }
}

/// The parents of a public changeset are public: no draft has a public
/// child.
pub proof fn lemma_parents_of_public_are_public(
    m: Map<HgNodeHash, NodeInfo>,
    public_heads: Seq<ChangesetId>,
    child: HgNodeHash,
    parent: HgNodeHash,
)
    requires
        is_parent(m, child, parent),
        phase_of(m, public_heads, child) == Phase::Public,
    ensures
        phase_of(m, public_heads, parent) == Phase::Public,
{
    let i = choose|i: int|
        0 <= i < public_heads.len() && is_ancestor(m, child, (#[trigger] public_heads[i]).0);
    lemma_ancestor_step(m, child, parent, public_heads[i].0);
}

/// The phases of the given changesets, in order: public for the
/// ancestors of the public heads, draft for the rest. A public head that
/// is not in the graph is reported as missing.
pub fn get_all_phases(graph: &ChangesetGraph, public_heads: &Vec<ChangesetId>, ids: &Vec<ChangesetId>) -> (r:
    Result<Vec<(ChangesetId, Phase)>, ErrorKind>)
    requires
        graph.wf(),
    ensures
        r is Ok <==> forall|i: int|
            0 <= i < public_heads@.len() ==> graph@.dom().contains((#[trigger] public_heads@[i]).0),
        r matches Ok(phases) ==> phases@.len() == ids@.len() && forall|i: int|
            0 <= i < ids@.len() ==> (#[trigger] phases@[i]).0 == ids@[i] && phases@[i].1
                == phase_of(graph@, public_heads@, ids@[i].0),
        r is Err ==> r matches Err(ErrorKind::ChangesetMissing(c)),
{
    let none = NodeSet::new();
    let public = match ancestors_avoiding(graph, public_heads, &none) {
        Ok(p) => p,
        Err(e) => {
            return Err(e);
        },
    };
    proof {
        assert forall|x: HgNodeHash| public@.contains(x) <==> reached_from(
            graph@,
            public_heads@,
            x,
        ) by {
            lemma_avoiding_nothing(graph@, public_heads@, x);
        }
    }
    let mut phases: Vec<(ChangesetId, Phase)> = Vec::new();
    let mut i: usize = 0;
    while i < ids.len()
        invariant
            i <= ids.len(),
            public.wf(),
            forall|x: HgNodeHash|
                public@.contains(x) <==> reached_from(graph@, public_heads@, x),
            phases@.len() == i,
            forall|j: int|
                0 <= j < i ==> (#[trigger] phases@[j]).0 == ids@[j] && phases@[j].1 == phase_of(
                    graph@,
                    public_heads@,
                    ids@[j].0,
                ),
        decreases ids.len() - i,
    {
        let phase = if public.contains(&ids[i].0) {
            Phase::Public
        } else {
            Phase::Draft
        };
        phases.push((ids[i], phase));
        i += 1;
    }
    Ok(phases)
}

} // verus!
