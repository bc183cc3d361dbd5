//! A finite set of hashes, kept in the order of insertion.

use vstd::prelude::*;
use crate::nodehash::{lemma_hash_view_injective, HgNodeHash};

verus! {

/// A set of hashes. Nothing occurs twice in it; what came first stays
/// first.
#[derive(Debug)]
pub struct NodeSet {
    items: Vec<HgNodeHash>,
}

impl View for NodeSet {
    type V = Set<HgNodeHash>;

    closed spec fn view(&self) -> Set<HgNodeHash> {
        self.items@.to_set()
    }
}

impl NodeSet {
    /// Nothing occurs twice.
    pub closed spec fn wf(&self) -> bool {
        self.items@.no_duplicates()
    }

    /// The members in the order in which they were inserted.
    pub closed spec fn order(&self) -> Seq<HgNodeHash> {
        self.items@
    }

    /// A set of hashes is finite.
    pub proof fn lemma_finite(&self)
        ensures
            self@.finite(),
    {
        vstd::seq_lib::seq_to_set_is_finite(self.items@);
    }

    pub fn new() -> (s: NodeSet)
        ensures
            s.wf(),
            s@ == Set::<HgNodeHash>::empty(),
            s.order() == Seq::<HgNodeHash>::empty(),
    {
        let s = NodeSet { items: Vec::new() };
        assert(s.items@.to_set() =~= Set::<HgNodeHash>::empty());
        s
    }

    pub fn len(&self) -> (n: usize)
        requires
            self.wf(),
        ensures
            n == self@.len(),
            n == self.order().len(),
            self@.finite(),
            self.order().no_duplicates(),
            self.order().to_set() == self@,
    {
        proof {
            self.items@.unique_seq_to_set();
        }
        self.items.len()
    }

    pub fn is_empty(&self) -> (r: bool)
        requires
            self.wf(),
        ensures
            r == (self@ == Set::<HgNodeHash>::empty()),
            r == (self.order().len() == 0),
    {
        proof {
            self.items@.unique_seq_to_set();
            if self.items@.len() > 0 {
                assert(self.items@.to_set().contains(self.items@[0]));
            } else {
                assert(self.items@.to_set() =~= Set::<HgNodeHash>::empty());
            }
        }
        self.items.len() == 0
    }

    /// The member at a place in the order of insertion.
    pub fn get(&self, i: usize) -> (h: HgNodeHash)
        requires
            i < self.order().len(),
        ensures
            h == self.order()[i as int],
            self@.contains(h),
    {
        assert(self.items@.to_set().contains(self.items@[i as int]));
        self.items[i]
    }

    pub fn contains(&self, h: &HgNodeHash) -> (r: bool)
        ensures
            r == self@.contains(*h),
    {
        let mut i: usize = 0;
        while i < self.items.len()
            invariant
                i <= self.items.len(),
                forall|j: int| 0 <= j < i ==> self.items@[j] != *h,
            decreases self.items.len() - i,
        {
            if self.items[i] == *h {
                proof {
                    lemma_hash_view_injective(self.items@[i as int], *h);
                    assert(self.items@[i as int] == *h);
                    assert(self.items@.to_set().contains(self.items@[i as int]));
                }
                return true;
            }
            proof {
                lemma_hash_view_injective(self.items@[i as int], *h);
            }
            i += 1;
        }
        assert(!self.items@.contains(*h));
        false
    }

    /// Puts `h` into the set; says whether it was new.
    pub fn insert(&mut self, h: HgNodeHash) -> (fresh: bool)
        requires
            old(self).wf(),
        ensures
            final(self).wf(),
            fresh == !old(self)@.contains(h),
            final(self)@ == old(self)@.insert(h),
            fresh ==> final(self).order() == old(self).order().push(h),
            !fresh ==> final(self).order() == old(self).order(),
    {
        if self.contains(&h) {
            assert(self.items@.to_set().insert(h) =~= self.items@.to_set());
            false
        } else {
            let ghost before = self.items@;
            self.items.push(h);
            proof {
                assert(!before.contains(h));
                assert(self.items@.to_set() =~= before.to_set().insert(h)) by {
                    assert forall|x: HgNodeHash|
                        self.items@.to_set().contains(x) <==> before.to_set().insert(h).contains(
                            x,
                        ) by {
                        if self.items@.contains(x) {
                            let k = choose|k: int| 0 <= k < self.items@.len() && self.items@[k] == x;
                            if k < before.len() {
                                assert(before[k] == x);
                            }
                        }
                        if before.contains(x) {
                            let k = choose|k: int| 0 <= k < before.len() && before[k] == x;
                            assert(self.items@[k] == x);
                        }
                        if x == h {
                            assert(self.items@[before.len() as int] == h);
                        }
                    }
                }
            }
            true
        }
    }

    /// The members, in the order of insertion.
    pub fn to_vec(&self) -> (v: Vec<HgNodeHash>)
        ensures
            v@ == self.order(),
    {
        let mut v: Vec<HgNodeHash> = Vec::new();
        let mut i: usize = 0;
        while i < self.items.len()
            invariant
                i <= self.items.len(),
                v@ == self.items@.take(i as int),
            decreases self.items.len() - i,
        {
            v.push(self.items[i]);
            assert(self.items@.take(i + 1) =~= self.items@.take(i as int).push(self.items@[i as int]));
            i += 1;
        }
        assert(self.items@.take(self.items.len() as int) =~= self.items@);
        v
    }
}

} // verus!
