//! A guard on a stream of changesets: generations must not grow along
//! it, and no changeset may come twice.

use vstd::prelude::*;
use crate::nodehash::{ChangesetId, HgNodeHash};
use crate::nodeset::NodeSet;

verus! {

/// The generation number of a changeset: one more than the largest among
/// its parents, one where it has none.
#[derive(Clone, Copy, Debug, PartialEq, Eq, Structural, Hash)]
pub struct Generation(pub u64);

/// What a stream has to offer when it is asked.
#[derive(Debug)]
pub enum Async<T> {
    NotReady,
    Ready(T),
}

/// How a changeset offends against the order of a stream.
#[derive(Clone, Copy, Debug, PartialEq, Eq, Structural)]
pub enum Violation {
    /// The changeset has come before.
    SeenTwice,
    /// The generation is above that of the changeset before.
    GenerationIncreased,
}

/// The guard on a stream. It remembers every changeset that has passed.
pub struct ValidateNodeStream {
    last_generation: Option<Generation>,
    seen_hashes: NodeSet,
    passed: Ghost<Seq<(HgNodeHash, u64)>>,
}

/// Generations do not grow along the sequence.
pub open spec fn generations_fall(s: Seq<(HgNodeHash, u64)>) -> bool {
    forall|i: int, j: int| 0 <= i <= j < s.len() ==> (#[trigger] s[j]).1 <= (#[trigger] s[i]).1
}

/// No changeset stands twice in the sequence.
pub open spec fn all_different(s: Seq<(HgNodeHash, u64)>) -> bool {
    forall|i: int, j: int| 0 <= i < j < s.len() ==> (#[trigger] s[i]).0 != (#[trigger] s[j]).0
}

impl ValidateNodeStream {
    /// The changesets that have passed, with their generations, in
    /// order.
    pub closed spec fn emitted(&self) -> Seq<(HgNodeHash, u64)> {
        self.passed@
    }

    pub closed spec fn inv(&self) -> bool {
        &&& self.seen_hashes.wf()
        &&& forall|h: HgNodeHash|
            self.seen_hashes@.contains(h) <==> exists|i: int|
                0 <= i < self.passed@.len() && (#[trigger] self.passed@[i]).0 == h
        &&& self.last_generation == (if self.passed@.len() == 0 {
            None::<Generation>
        } else {
            Some(Generation(self.passed@.last().1))
        })
    }

    /// What has passed so far is in order: generations never grew, and no
    /// changeset came twice.
    pub open spec fn wf(&self) -> bool {
        &&& self.inv()
        &&& generations_fall(self.emitted())
        &&& all_different(self.emitted())
    }

    /// How the next changeset would offend against the order, if it
    /// would.
    pub open spec fn violation(&self, hash: HgNodeHash, generation: u64) -> Option<Violation> {
        if exists|i: int| 0 <= i < self.emitted().len() && (#[trigger] self.emitted()[i]).0 == hash {
            Some(Violation::SeenTwice)
        } else if self.emitted().len() > 0 && self.emitted().last().1 < generation {
            Some(Violation::GenerationIncreased)
        } else {
            None
        }
    }

    /// The guard before anything has passed.
    pub fn new() -> (s: ValidateNodeStream)
        ensures
            s.wf(),
            s.emitted() == Seq::<(HgNodeHash, u64)>::empty(),
    {
        ValidateNodeStream {
            last_generation: None,
            seen_hashes: NodeSet::new(),
            passed: Ghost(Seq::empty()),
        }
    }

    /// How the next changeset would offend against the order, if it
    /// would.
    pub fn check(&self, hash: &ChangesetId, generation: Generation) -> (v: Option<Violation>)
        requires
            self.wf(),
        ensures
            v == self.violation(hash.0, generation.0),
    {
        if self.seen_hashes.contains(&hash.0) {
            return Some(Violation::SeenTwice);
        }
        match self.last_generation {
            Some(last) => if last.0 < generation.0 {
                Some(Violation::GenerationIncreased)
            } else {
                None
            },
            None => None,
        }
    }

    /// Hands on what the guarded stream offers. A changeset passes and is
    /// remembered; a stream that is not ready, or at its end, is handed
    /// on as it is. A changeset that offends against the order must not
    /// be offered: `check` tells.
    pub fn poll(&mut self, next: Async<Option<(ChangesetId, Generation)>>) -> (r: Async<
        Option<ChangesetId>,
    >)
        requires
            old(self).wf(),
            next matches Async::Ready(Some(item)) ==> old(self).violation(item.0.0, item.1.0)
                is None,
        ensures
            final(self).wf(),
            match next {
                Async::NotReady => r is NotReady && final(self).emitted() == old(self).emitted(),
                Async::Ready(None) => r == Async::Ready(None::<ChangesetId>) && final(self).emitted() == old(self).emitted(),
                Async::Ready(Some(item)) => r == Async::Ready(Some(item.0)) && final(self).emitted() == old(self).emitted().push((item.0.0, item.1.0)),
            },
    {
        let (hash, generation) = match next {
            Async::NotReady => {
                return Async::NotReady;
            },
            Async::Ready(None) => {
                return Async::Ready(None);
            },
            Async::Ready(Some((hash, generation))) => (hash, generation),
        };
        let ghost before = self.passed@;
        let ghost now = before.push((hash.0, generation.0));
        self.seen_hashes.insert(hash.0);
        self.last_generation = Some(generation);
        self.passed = Ghost(now);
        proof {
            assert forall|h: HgNodeHash|
                self.seen_hashes@.contains(h) <==> exists|i: int|
                    0 <= i < now.len() && (#[trigger] now[i]).0 == h by {
                if exists|i: int| 0 <= i < before.len() && (#[trigger] before[i]).0 == h {
                    let i = choose|i: int| 0 <= i < before.len() && (#[trigger] before[i]).0 == h;
                    assert(now[i].0 == h);
                }
                if h == hash.0 {
                    assert(now[before.len() as int].0 == h);
                }
                if exists|i: int| 0 <= i < now.len() && (#[trigger] now[i]).0 == h {
                    let i = choose|i: int| 0 <= i < now.len() && (#[trigger] now[i]).0 == h;
                    if i < before.len() {
                        assert(before[i].0 == h);
                    }
                }
            }
            assert forall|i: int, j: int| 0 <= i <= j < now.len() implies (#[trigger] now[j]).1 <= (
            #[trigger] now[i]).1 by {
                if j < before.len() {
                    assert(before[j].1 <= before[i].1);
                } else if i < before.len() {
                    assert(before[before.len() - 1].1 <= before[i].1);
                }
            }
            assert forall|i: int, j: int| 0 <= i < j < now.len() implies (#[trigger] now[i]).0 != (
            #[trigger] now[j]).0 by {
                if j < before.len() {
                    assert(before[i].0 != before[j].0);
                } else {
                    assert(before[i].0 != hash.0);
                }
            }
        }
        assert(self.inv()) by {
            assert(self.passed@ == now);
            assert(now.last() == (hash.0, generation.0));
            assert(self.seen_hashes@ == old(self).seen_hashes@.insert(hash.0));
        }
        Async::Ready(Some(hash))
    }
}

} // verus!
