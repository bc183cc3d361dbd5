//! `between`: samples of the first-parent chain between two changesets, at
//! distances that double.

use vstd::prelude::*;
use crate::client::RepoClient;
use crate::nodehash::{null_hash_bytes, HgChangesetId, HgNodeHash};

verus! {

/// A power of two: 1, 2, 4, 8, ...
pub open spec fn is_pow2(n: int) -> bool
    decreases n,
{
    n == 1 || (n > 1 && n % 2 == 0 && is_pow2(n / 2))
}

/// The entries of a chain that `between` hands out: the first, the second,
/// the fourth, the eighth and so on, counting from one at the top.
pub open spec fn between_entries(chain: Seq<HgNodeHash>) -> Seq<HgNodeHash>
    decreases chain.len(),
{
    if chain.len() == 0 {
        Seq::empty()
    } else if is_pow2(chain.len() as int) {
        between_entries(chain.drop_last()).push(chain.last())
    } else {
        between_entries(chain.drop_last())
    }
}

/// Of two powers of two, the larger is at least twice the smaller.
pub proof fn lemma_pow2_gap(a: int, b: int)
    requires
        is_pow2(a),
        is_pow2(b),
        a < b,
    ensures
        2 * a <= b,
    decreases b,
{
    if a == 1 {
    } else {
        lemma_pow2_gap(a / 2, b / 2);
    }
}

pub proof fn lemma_pow2_double(a: int)
    requires
        is_pow2(a),
    ensures
        is_pow2(2 * a),
{
    assert((2 * a) / 2 == a);
}

/// A walk down the first-parent chain from `top`, which stops at `bottom`
/// or where the chain ends.
pub struct BetweenWalk {
    n: HgNodeHash,
    bottom: HgNodeHash,
    /// How many changesets have been walked over.
    index: usize,
    /// The position, counted from one, of the next changeset to hand out.
    next: usize,
    out: Vec<HgNodeHash>,
    walked: Ghost<Seq<HgNodeHash>>,
}

impl BetweenWalk {
    pub closed spec fn wf(&self) -> bool {
        &&& self.index == self.walked@.len()
        &&& self.out@ == between_entries(self.walked@)
        &&& is_pow2(self.next as int)
        &&& self.index < self.next
        &&& self.next <= 2 * self.index || self.next == 1
    }

    /// The changesets walked over so far, from the top down.
    pub closed spec fn walked(&self) -> Seq<HgNodeHash> {
        self.walked@
    }

    /// The changeset the walk stands on.
    pub closed spec fn current(&self) -> HgNodeHash {
        self.n
    }

    /// The changeset before which the walk stops.
    pub closed spec fn bottom(&self) -> HgNodeHash {
        self.bottom
    }

    /// The entries handed out so far.
    pub closed spec fn entries(&self) -> Seq<HgNodeHash> {
        self.out@
    }

    /// The walk is over when it stands on the bottom or on no changeset.
    pub open spec fn done(&self) -> bool {
        self.current()@ == self.bottom()@ || self.current()@ == null_hash_bytes()
    }

    pub fn new(top: HgNodeHash, bottom: HgNodeHash) -> (w: BetweenWalk)
        ensures
            w.wf(),
            w.current() == top,
            w.bottom() == bottom,
            w.walked() == Seq::<HgNodeHash>::empty(),
            w.entries() == Seq::<HgNodeHash>::empty(),
    {
        BetweenWalk {
            n: top,
            bottom,
            index: 0,
            next: 1,
            out: Vec::new(),
            walked: Ghost(Seq::empty()),
        }
    }

    /// The changeset whose first parent the walk needs next; nothing once
    /// the walk is over.
    pub fn pending(&self) -> (r: Option<HgChangesetId>)
        ensures
            r is None <==> self.done(),
            r matches Some(cs) ==> cs.0 == self.current(),
    {
        if self.n == self.bottom || self.n.is_null() {
            None
        } else {
            Some(HgChangesetId::new(self.n))
        }
    }

    /// Walks one changeset down: the one the walk stood on is walked
    /// over, and handed out if its position calls for it; the walk then
    /// stands on its first parent, or on no changeset if it has none.
    pub fn advance(&mut self, p1: Option<HgNodeHash>)
        requires
            old(self).wf(),
            !old(self).done(),
            old(self).walked().len() < usize::MAX / 2,
        ensures
            final(self).wf(),
            final(self).bottom() == old(self).bottom(),
            final(self).walked() == old(self).walked().push(old(self).current()),
            final(self).entries() == between_entries(final(self).walked()),
            final(self).current()@ == (match p1 {
                Some(p) => p@,
                None => null_hash_bytes(),
            }),
            p1 matches Some(p) ==> final(self).current() == p,
    {
        let ghost before = self.walked@;
        let ghost now = before.push(self.n);
        proof {
            assert(now.drop_last() =~= before);
            assert(now.last() == self.n);
            if self.index + 1 != self.next && is_pow2(self.index + 1) {
                lemma_pow2_gap(self.index + 1, self.next as int);
            }
        }
        self.index = self.index + 1;
        if self.index == self.next {
            self.out.push(self.n);
            proof {
                lemma_pow2_double(self.next as int);
            }
            self.next = self.next * 2;
        }
        self.walked = Ghost(now);
        self.n = match p1 {
            Some(p) => p,
            None => HgNodeHash::null(),
        };
    }

    /// The entries handed out.
    pub fn finish(self) -> (entries: Vec<HgNodeHash>)
        requires
            self.wf(),
        ensures
            entries@ == between_entries(self.walked()),
    {
        self.out
    }
}

impl RepoClient {
    /// The walks that answer `between`: one for each pair of a top and a
    /// bottom, in the order of the pairs.
    pub fn between(&self, pairs: &Vec<(HgNodeHash, HgNodeHash)>) -> (walks: Vec<BetweenWalk>)
        ensures
            walks@.len() == pairs@.len(),
            forall|i: int|
                0 <= i < pairs@.len() ==> {
                    &&& (#[trigger] walks@[i]).wf()
                    &&& walks@[i].current() == pairs@[i].0
                    &&& walks@[i].bottom() == pairs@[i].1
                    &&& walks@[i].walked() == Seq::<HgNodeHash>::empty()
                },
    {
        let mut walks: Vec<BetweenWalk> = Vec::new();
        let mut i: usize = 0;
        while i < pairs.len()
            invariant
                i <= pairs.len(),
                walks@.len() == i,
                forall|k: int|
                    0 <= k < i ==> {
                        &&& (#[trigger] walks@[k]).wf()
                        &&& walks@[k].current() == pairs@[k].0
                        &&& walks@[k].bottom() == pairs@[k].1
                        &&& walks@[k].walked() == Seq::<HgNodeHash>::empty()
                    },
            decreases pairs.len() - i,
        {
            walks.push(BetweenWalk::new(pairs[i].0, pairs[i].1));
            i += 1;
        }
        walks
    }
}

} // verus!
