//! Bookmarks: names for changesets.

use vstd::prelude::*;
use vstd::utf8::encode_utf8;
use crate::nodehash::HgChangesetId;
use crate::text::{bytes_eq, copy_bytes, is_ascii_bytes};

verus! {

/// The name of a bookmark: ASCII text.
#[derive(Debug, PartialEq, Eq, Hash)]
pub struct Bookmark {
    name: Vec<u8>,
}

impl View for Bookmark {
    type V = Seq<u8>;

    closed spec fn view(&self) -> Seq<u8> {
        self.name@
    }
}

impl Bookmark {
    #[verifier::type_invariant]
    spec fn ascii(&self) -> bool {
        is_ascii_bytes(self.name@)
    }

    /// The bookmark of that name; nothing where the name is not ASCII.
    pub fn new(name: &str) -> (r: Option<Bookmark>)
        ensures
            r is Some <==> is_ascii_bytes(encode_utf8(name@)),
            r matches Some(b) ==> b@ == encode_utf8(name@),
    {
        Bookmark::from_bytes(name.as_bytes())
    }

    /// The bookmark of that name; nothing where the name is not ASCII.
    pub fn from_bytes(name: &[u8]) -> (r: Option<Bookmark>)
        ensures
            r is Some <==> is_ascii_bytes(name@),
            r matches Some(b) ==> b@ == name@,
    {
        let mut i: usize = 0;
        while i < name.len()
            invariant
                i <= name.len(),
                forall|j: int| 0 <= j < i ==> #[trigger] name@[j] < 128,
            decreases name.len() - i,
        {
            if name[i] >= 128 {
                return None;
            }
            i += 1;
        }
        Some(Bookmark { name: copy_bytes(name) })
    }

    /// The name, as bytes.
    pub fn to_bytes(&self) -> (r: Vec<u8>)
        ensures
            r@ == self@,
            is_ascii_bytes(r@),
    {
        proof {
            use_type_invariant(self);
        }
        copy_bytes(self.name.as_slice())
    }

    pub fn duplicate(&self) -> (r: Bookmark)
        ensures
            r@ == self@,
    {
        proof {
            use_type_invariant(self);
        }
        Bookmark { name: copy_bytes(self.name.as_slice()) }
    }
}


/// The bookmarks of a repository, held in memory.
#[derive(Debug)]
pub struct Bookmarks {
    /// Every change ever made, oldest first: the latest under a name
    /// counts, and a change to nothing deletes the bookmark.
    log: Vec<(Bookmark, Option<HgChangesetId>)>,
}

/// Where a name points after the changes of a log: where the last
/// change under the name left it.
pub open spec fn target_in(log: Seq<(Bookmark, Option<HgChangesetId>)>, name: Seq<u8>) -> Option<
    HgChangesetId,
>
    decreases log.len(),
{
    if log.len() == 0 {
        None
    } else if log.last().0@ == name {
        log.last().1
    } else {
        target_in(log.drop_last(), name)
    }
}

/// Whether two targets are the same changeset, or both none.
pub open spec fn same_target(a: Option<HgChangesetId>, b: Option<HgChangesetId>) -> bool {
    match (a, b) {
        (Some(x), Some(y)) => x@ == y@,
        (None, None) => true,
        _ => false,
    }
}

impl Bookmarks {
    /// Where the bookmark of a name points, if there is one.
    pub closed spec fn target(&self, name: Seq<u8>) -> Option<HgChangesetId> {
        target_in(self.log@, name)
    }

    pub fn new() -> (b: Bookmarks)
        ensures
            forall|name: Seq<u8>| b.target(name) is None,
    {
        Bookmarks { log: Vec::new() }
    }

    /// Where the bookmark points, if there is one.
    pub fn get_bookmark(&self, name: &Bookmark) -> (r: Option<HgChangesetId>)
        ensures
            r == self.target(name@),
    {
        let mut i: usize = self.log.len();
        assert(self.log@.take(i as int) =~= self.log@);
        while i > 0
            invariant
                i <= self.log.len(),
                target_in(self.log@, name@) == target_in(self.log@.take(i as int), name@),
            decreases i,
        {
            i -= 1;
            proof {
                let t = self.log@.take(i + 1);
                assert(t.last() == self.log@[i as int]);
                assert(t.drop_last() =~= self.log@.take(i as int));
            }
            let found = self.log[i].0.to_bytes();
            let wanted = name.to_bytes();
            if bytes_eq(found.as_slice(), wanted.as_slice()) {
                return self.log[i].1;
            }
        }
        None
    }

    /// Moves a bookmark from `expected` to `target`, where nothing stands
    /// for no bookmark. The bookmark is moved only if it points where
    /// `expected` says; the answer tells whether it was moved. Other
    /// bookmarks stay.
    pub fn set_bookmark(
        &mut self,
        name: &Bookmark,
        expected: Option<HgChangesetId>,
        target: Option<HgChangesetId>,
    ) -> (moved: bool)
        ensures
            moved == same_target(old(self).target(name@), expected),
            final(self).target(name@) == (if moved {
                target
            } else {
                old(self).target(name@)
            }),
            forall|other: Seq<u8>|
                other != name@ ==> final(self).target(other) == old(self).target(other),
    {
        let current = self.get_bookmark(name);
        let same = match (current, expected) {
            (Some(x), Some(y)) => x == y,
            (None, None) => true,
            _ => false,
        };
        if same {
            let ghost before = self.log@;
            let entry = (name.duplicate(), target);
            self.log.push(entry);
            proof {
                assert(self.log@.drop_last() =~= before);
                assert(self.log@.last() == entry);
            }
        }
        same
    }

    /// The names that have a bookmark, each once, with where they point.
    pub fn list_bookmarks(&self) -> (r: Vec<(Bookmark, HgChangesetId)>)
        ensures
            forall|i: int|
                0 <= i < r@.len() ==> self.target((#[trigger] r@[i]).0@) == Some(r@[i].1),
            forall|i: int, j: int|
                0 <= i < j < r@.len() ==> (#[trigger] r@[i]).0@ != (#[trigger] r@[j]).0@,
            forall|k: int|
                0 <= k < self.changes().len() && self.target((#[trigger] self.changes()[k])) is Some
                    ==> exists|i: int| 0 <= i < r@.len() && (#[trigger] r@[i]).0@ == self.changes()[k],
    {
        let mut out: Vec<(Bookmark, HgChangesetId)> = Vec::new();
        let mut k: usize = 0;
        while k < self.log.len()
            invariant
                k <= self.log.len(),
                forall|i: int|
                    0 <= i < out@.len() ==> self.target((#[trigger] out@[i]).0@) == Some(out@[i].1),
                forall|i: int, j: int|
                    0 <= i < j < out@.len() ==> (#[trigger] out@[i]).0@ != (#[trigger] out@[j]).0@,
                forall|w: int|
                    0 <= w < k && self.target((#[trigger] self.changes()[w])) is Some
                        ==> exists|i: int|
                        0 <= i < out@.len() && (#[trigger] out@[i]).0@ == self.changes()[w],
            decreases self.log.len() - k,
        {
            let name = &self.log[k].0;
            let ghost prev = out@;
            assert(self.changes()[k as int] == name@);
            let mut listed = false;
            let mut i: usize = 0;
            while i < out.len() && !listed
                invariant
                    i <= out.len(),
                    listed ==> exists|j: int| 0 <= j < out@.len() && (#[trigger] out@[j]).0@ == name@,
                    !listed ==> forall|j: int| 0 <= j < i ==> (#[trigger] out@[j]).0@ != name@,
                decreases out.len() - i + (if listed { 0int } else { 1int }),
            {
                let a = out[i].0.to_bytes();
                let b = name.to_bytes();
                if bytes_eq(a.as_slice(), b.as_slice()) {
                    listed = true;
                } else {
                    i += 1;
                }
            }
            if !listed {
                match self.get_bookmark(name) {
                    Some(target) => {
                        out.push((name.duplicate(), target));
                    },
                    None => {},
                }
            }
            proof {
                assert forall|w: int|
                    0 <= w < k + 1 && self.target((#[trigger] self.changes()[w])) is Some
                        implies exists|i: int|
                    0 <= i < out@.len() && (#[trigger] out@[i]).0@ == self.changes()[w] by {
                    if w < k {
                        let i = choose|i: int|
                            0 <= i < prev.len() && (#[trigger] prev[i]).0@ == self.changes()[w];
                        assert(out@[i] == prev[i]);
                    } else if listed {
                        let j = choose|j: int| 0 <= j < out@.len() && (#[trigger] out@[j]).0@ == name@;
                        assert(out@[j].0@ == self.changes()[w]);
                    } else {
                        assert(out@[prev.len() as int].0@ == name@);
                    }
                }
            }
            k += 1;
        }
        out
    }

    /// The names under which a change was ever made, oldest change first.
    pub closed spec fn changes(&self) -> Seq<Seq<u8>> {
        Seq::new(self.log@.len(), |i: int| self.log@[i].0@)
    }
}

} // verus!
