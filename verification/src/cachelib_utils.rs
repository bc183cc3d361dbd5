//! A cache of derived values, and the rule that a missing value is
//! computed once however many ask for it.

use vstd::prelude::*;

verus! {

/// The key under which a value lies in the cache.
#[derive(Clone, Debug, PartialEq, Eq, Hash)]
pub struct CachelibKey(pub String);

/// A cache without bounds that counts how often it was asked.
#[derive(Debug)]
pub struct MockCachelib<T> {
    /// Every value ever set, oldest first: the latest under a key counts.
    cache: Vec<(String, T)>,
    get_count: usize,
}

/// A cache of derived values.
#[derive(Debug)]
pub enum CachelibHandler<T> {
    Mock(MockCachelib<T>),
}

/// The value that counts under a key: the one set last.
pub open spec fn latest<T>(entries: Seq<(String, T)>, key: Seq<char>) -> Option<T>
    decreases entries.len(),
{
    if entries.len() == 0 {
        None
    } else if entries.last().0@ == key {
        Some(entries.last().1)
    } else {
        latest(entries.drop_last(), key)
    }
}

impl<T> MockCachelib<T> {
    fn new() -> (c: MockCachelib<T>)
        ensures
            c.cache@.len() == 0,
            c.get_count == 0,
    {
        MockCachelib { cache: Vec::new(), get_count: 0 }
    }
}

impl<T: Clone> CachelibHandler<T> {
    /// The value cached under a key, if any.
    pub closed spec fn cached(&self, key: Seq<char>) -> Option<T> {
        match *self {
            CachelibHandler::Mock(m) => latest(m.cache@, key),
        }
    }

    /// How often the cache has been asked for a value.
    pub closed spec fn gets(&self) -> nat {
        match *self {
            CachelibHandler::Mock(m) => m.get_count as nat,
        }
    }

    /// A cache without bounds, for tests; empty, and never asked.
    pub fn create_mock() -> (c: Self)
        ensures
            forall|key: Seq<char>| c.cached(key) is None,
            c.gets() == 0,
    {
        CachelibHandler::Mock(MockCachelib::new())
    }

    /// How often the cache has been asked for a value.
    pub fn gets_count(&self) -> (n: usize)
        ensures
            n == self.gets(),
    {
        match self {
            CachelibHandler::Mock(m) => m.get_count,
        }
    }

    fn peek(&self, key: &String) -> (r: Option<T>)
        ensures
            r is Some <==> self.cached(key@) is Some,
            r matches Some(v) ==> cloned(self.cached(key@)->0, v),
    {
        match self {
            CachelibHandler::Mock(m) => {
                let mut i: usize = m.cache.len();
                assert(m.cache@.take(i as int) =~= m.cache@);
                while i > 0
                    invariant
                        i <= m.cache.len(),
                        self.cached(key@) == latest(m.cache@, key@),
                        latest(m.cache@, key@) == latest(m.cache@.take(i as int), key@),
                    decreases i,
                {
                    i -= 1;
                    proof {
                        let t = m.cache@.take(i + 1);
                        assert(t.last() == m.cache@[i as int]);
                        assert(t.drop_last() =~= m.cache@.take(i as int));
                    }
                    if m.cache[i].0 == *key {
                        return Some(m.cache[i].1.clone());
                    }
                }
                None
            },
        }
    }

    /// A copy of the value cached under a key, if any. The asking is
    /// counted.
    pub fn get_cached(&mut self, key: &String) -> (r: Option<T>)
        requires
            old(self).gets() < usize::MAX,
        ensures
            final(self).gets() == old(self).gets() + 1,
            forall|k: Seq<char>| final(self).cached(k) == old(self).cached(k),
            r is Some <==> old(self).cached(key@) is Some,
            r matches Some(v) ==> cloned(old(self).cached(key@)->0, v),
    {
        let r = self.peek(key);
        match self {
            CachelibHandler::Mock(m) => {
                m.get_count = m.get_count + 1;
            },
        }
        r
    }

    /// Caches a copy of the value under the key, in place of what was
    /// there. Says whether the value was taken: this cache takes all.
    pub fn set_cached(&mut self, key: &String, value: &T) -> (taken: bool)
        ensures
            taken,
            final(self).gets() == old(self).gets(),
            final(self).cached(key@) is Some,
            cloned(*value, final(self).cached(key@)->0),
            forall|k: Seq<char>| k != key@ ==> final(self).cached(k) == old(self).cached(k),
    {
        match self {
            CachelibHandler::Mock(m) => {
                let ghost before = m.cache@;
                let entry = (key.clone(), value.clone());
                m.cache.push(entry);
                proof {
                    assert(m.cache@.drop_last() =~= before);
                    assert(m.cache@.last() == entry);
                }
                true
            },
        }
    }
}


/// The elements in the opposite order.
fn reversed<A>(v: Vec<A>) -> (r: Vec<A>)
    ensures
        r@.len() == v@.len(),
        forall|j: int| 0 <= j < r@.len() ==> r@[j] == v@[v@.len() - 1 - j],
{
    let mut rest = v;
    let mut out: Vec<A> = Vec::new();
    while rest.len() > 0
        invariant
            out@.len() + rest@.len() == v@.len(),
            forall|j: int| 0 <= j < rest@.len() ==> rest@[j] == v@[j],
            forall|j: int| 0 <= j < out@.len() ==> out@[j] == v@[v@.len() - 1 - j],
        decreases rest@.len(),
    {
        let item = rest.pop().unwrap();
        out.push(item);
    }
    out
}

impl<T: Clone> CachelibHandler<T> {
    /// Asks the cache for each of the keys. Hands back, in the order
    /// asked, the keys that had a value with a copy of it, and the keys
    /// that are left to fetch.
    pub fn get_multiple_from_cachelib<Key>(&mut self, keys: Vec<(Key, CachelibKey)>) -> (r: (
        Vec<(Key, T)>,
        Vec<(Key, CachelibKey)>,
    ))
        requires
            old(self).gets() + keys@.len() <= usize::MAX,
        ensures
            final(self).gets() == old(self).gets() + keys@.len(),
            forall|k: Seq<char>| final(self).cached(k) == old(self).cached(k),
            r.1@ == keys@.filter(|e: (Key, CachelibKey)| old(self).cached(e.1.0@) is None),
            r.0@.len() == keys@.filter(
                |e: (Key, CachelibKey)| old(self).cached(e.1.0@) is Some,
            ).len(),
            forall|j: int|
                0 <= j < r.0@.len() ==> (#[trigger] r.0@[j]).0 == keys@.filter(
                    |e: (Key, CachelibKey)| old(self).cached(e.1.0@) is Some,
                )[j].0 && cloned(
                    old(self).cached(
                        keys@.filter(|e: (Key, CachelibKey)| old(self).cached(e.1.0@) is Some)[j].1.0@,
                    )->0,
                    r.0@[j].1,
                ),
    {
        let ghost all = keys@;
        let ghost start = *self;
        let ghost hit = |e: (Key, CachelibKey)| start.cached(e.1.0@) is Some;
        let ghost miss = |e: (Key, CachelibKey)| start.cached(e.1.0@) is None;
        let mut stack = reversed(keys);
        let mut fetched: Vec<(Key, T)> = Vec::new();
        let mut left_to_fetch: Vec<(Key, CachelibKey)> = Vec::new();
        let ghost mut i: int = 0;
        proof {
            assert(all.take(0) =~= Seq::<(Key, CachelibKey)>::empty());
            reveal(Seq::filter);
        }
        while stack.len() > 0
            invariant
                0 <= i <= all.len(),
                stack@.len() == all.len() - i,
                forall|j: int| 0 <= j < stack@.len() ==> stack@[j] == all[all.len() - 1 - j],
                hit == (|e: (Key, CachelibKey)| start.cached(e.1.0@) is Some),
                miss == (|e: (Key, CachelibKey)| start.cached(e.1.0@) is None),
                self.gets() == start.gets() + i,
                start.gets() + all.len() <= usize::MAX,
                forall|k: Seq<char>| self.cached(k) == start.cached(k),
                left_to_fetch@ == all.take(i).filter(miss),
                fetched@.len() == all.take(i).filter(hit).len(),
                forall|j: int|
                    0 <= j < fetched@.len() ==> (#[trigger] fetched@[j]).0 == all.take(i).filter(
                        hit,
                    )[j].0 && cloned(
                        start.cached(all.take(i).filter(hit)[j].1.0@)->0,
                        fetched@[j].1,
                    ),
            decreases stack@.len(),
        {
            let (key, cache_key) = stack.pop().unwrap();
            proof {
                assert((key, cache_key) == all[i]);
                assert(all.take(i + 1) =~= all.take(i).push(all[i]));
                all.take(i).lemma_filter_push(all[i], hit);
                all.take(i).lemma_filter_push(all[i], miss);
            }
            match self.get_cached(&cache_key.0) {
                Some(value) => {
                    fetched.push((key, value));
                },
                None => {
                    left_to_fetch.push((key, cache_key));
                },
            }
            proof {
                i = i + 1;
            }
        }
        proof {
            assert(all.take(all.len() as int) =~= all);
        }
        (fetched, left_to_fetch)
    }

    /// Caches each value under its key and hands back the values with the
    /// keys they were asked under, in order.
    pub fn fill_multiple_cachelib<Key>(&mut self, keys: Vec<(Key, (T, CachelibKey))>) -> (r: Vec<
        (Key, T),
    >)
        ensures
            final(self).gets() == old(self).gets(),
            r@.len() == keys@.len(),
            forall|j: int|
                0 <= j < r@.len() ==> (#[trigger] r@[j]).0 == keys@[j].0 && r@[j].1 == keys@[j].1.0,
            forall|k: Seq<char>|
                (forall|j: int| 0 <= j < keys@.len() ==> (#[trigger] keys@[j]).1.1.0@ != k)
                    ==> final(self).cached(k) == old(self).cached(k),
            forall|j: int|
                0 <= j < keys@.len() && (forall|l: int|
                    j < l < keys@.len() ==> (#[trigger] keys@[l]).1.1.0@ != keys@[j].1.1.0@)
                    ==> final(self).cached((#[trigger] keys@[j]).1.1.0@) is Some && cloned(
                    keys@[j].1.0,
                    final(self).cached(keys@[j].1.1.0@)->0,
                ),
    {
        let ghost all = keys@;
        let ghost start = *self;
        let mut stack = reversed(keys);
        let mut out: Vec<(Key, T)> = Vec::new();
        let ghost mut i: int = 0;
        while stack.len() > 0
            invariant
                0 <= i <= all.len(),
                stack@.len() == all.len() - i,
                forall|j: int| 0 <= j < stack@.len() ==> stack@[j] == all[all.len() - 1 - j],
                self.gets() == start.gets(),
                out@.len() == i,
                forall|j: int|
                    0 <= j < i ==> (#[trigger] out@[j]).0 == all[j].0 && out@[j].1 == all[j].1.0,
                forall|k: Seq<char>|
                    (forall|j: int| 0 <= j < i ==> (#[trigger] all[j]).1.1.0@ != k)
                        ==> self.cached(k) == start.cached(k),
                forall|j: int|
                    0 <= j < i && (forall|l: int|
                        j < l < i ==> (#[trigger] all[l]).1.1.0@ != all[j].1.1.0@)
                        ==> self.cached((#[trigger] all[j]).1.1.0@) is Some && cloned(
                        all[j].1.0,
                        self.cached(all[j].1.1.0@)->0,
                    ),
            decreases stack@.len(),
        {
            let (key, (value, cache_key)) = stack.pop().unwrap();
            let ghost before = *self;
            proof {
                assert((key, (value, cache_key)) == all[i]);
            }
            let _ = self.set_cached(&cache_key.0, &value);
            out.push((key, value));
            proof {
                assert forall|k: Seq<char>|
                    (forall|j: int| 0 <= j < i + 1 ==> (#[trigger] all[j]).1.1.0@ != k)
                        implies self.cached(k) == start.cached(k) by {
                    assert(all[i].1.1.0@ != k);
                    assert(self.cached(k) == before.cached(k));
                }
                assert forall|j: int|
                    0 <= j < i + 1 && (forall|l: int|
                        j < l < i + 1 ==> (#[trigger] all[l]).1.1.0@ != all[j].1.1.0@)
                        implies self.cached((#[trigger] all[j]).1.1.0@) is Some && cloned(
                    all[j].1.0,
                    self.cached(all[j].1.1.0@)->0,
                ) by {
                    if j < i {
                        assert(all[i].1.1.0@ != all[j].1.1.0@);
                        assert(self.cached(all[j].1.1.0@) == before.cached(all[j].1.1.0@));
                    }
                }
                i = i + 1;
            }
        }
        out
    }
}

/// The keys whose values are being computed.
#[derive(Debug)]
pub struct FillsInFlight {
    keys: Vec<String>,
}

/// What someone who asks for a value has to do.
#[derive(Debug)]
pub enum FillStep<T> {
    /// Nothing: here is the value.
    Hit(T),
    /// Compute the value, and say when it is done.
    Compute,
    /// Wait for the one who computes the value.
    Wait,
}

/// Whether one of the strings is the given text.
pub open spec fn holds_text(s: Seq<String>, key: Seq<char>) -> bool {
    exists|i: int| 0 <= i < s.len() && (#[trigger] s[i])@ == key
}

proof fn lemma_holds_text_push(s: Seq<String>, x: String, key: Seq<char>)
    ensures
        holds_text(s.push(x), key) == (holds_text(s, key) || x@ == key),
{
    let t = s.push(x);
    if holds_text(s, key) {
        let i = choose|i: int| 0 <= i < s.len() && (#[trigger] s[i])@ == key;
        assert(t[i]@ == key);
    }
    if x@ == key {
        assert(t[s.len() as int]@ == key);
    }
    if holds_text(t, key) {
        let i = choose|i: int| 0 <= i < t.len() && (#[trigger] t[i])@ == key;
        if i < s.len() {
            assert(s[i]@ == key);
        }
    }
}

impl FillsInFlight {
    /// Whether the value under a key is being computed.
    pub closed spec fn has(&self, key: Seq<char>) -> bool {
        holds_text(self.keys@, key)
    }

    pub fn new() -> (f: FillsInFlight)
        ensures
            forall|k: Seq<char>| !f.has(k),
    {
        FillsInFlight { keys: Vec::new() }
    }

    /// Whether the value under a key is being computed.
    pub fn contains(&self, key: &String) -> (r: bool)
        ensures
            r == self.has(key@),
    {
        let mut i: usize = 0;
        while i < self.keys.len()
            invariant
                i <= self.keys.len(),
                forall|j: int| 0 <= j < i ==> (#[trigger] self.keys@[j])@ != key@,
            decreases self.keys.len() - i,
        {
            if self.keys[i] == *key {
                return true;
            }
            i += 1;
        }
        false
    }

    fn start(&mut self, key: &String)
        ensures
            forall|k: Seq<char>| final(self).has(k) == (old(self).has(k) || k == key@),
    {
        let ghost before = self.keys@;
        let copy = key.clone();
        self.keys.push(copy);
        proof {
            assert forall|k: Seq<char>| self.has(k) == (old(self).has(k) || k == key@) by {
                lemma_holds_text_push(before, copy, k);
            }
        }
    }

    fn finish(&mut self, key: &String)
        ensures
            forall|k: Seq<char>| final(self).has(k) == (old(self).has(k) && k != key@),
    {
        let ghost before = self.keys@;
        let mut kept: Vec<String> = Vec::new();
        let mut i: usize = 0;
        assert(before.take(0) =~= Seq::<String>::empty());
        while i < self.keys.len()
            invariant
                i <= self.keys.len(),
                self.keys@ == before,
                forall|k: Seq<char>|
                    #[trigger] holds_text(kept@, k) == (holds_text(before.take(i as int), k) && k
                        != key@),
            decreases self.keys.len() - i,
        {
            let ghost prev = kept@;
            proof {
                assert(before.take(i + 1) =~= before.take(i as int).push(before[i as int]));
            }
            if !(self.keys[i] == *key) {
                let copy = self.keys[i].clone();
                kept.push(copy);
                proof {
                    assert forall|k: Seq<char>|
                        #[trigger] holds_text(kept@, k) == (holds_text(before.take(i + 1), k) && k
                            != key@) by {
                        lemma_holds_text_push(prev, copy, k);
                        lemma_holds_text_push(before.take(i as int), before[i as int], k);
                        assert(holds_text(prev, k) == (holds_text(before.take(i as int), k) && k
                            != key@));
                    }
                }
            } else {
                proof {
                    assert forall|k: Seq<char>|
                        #[trigger] holds_text(kept@, k) == (holds_text(before.take(i + 1), k) && k
                            != key@) by {
                        lemma_holds_text_push(before.take(i as int), before[i as int], k);
                        assert(holds_text(prev, k) == (holds_text(before.take(i as int), k) && k
                            != key@));
                    }
                }
            }
            i += 1;
        }
        assert(before.take(before.len() as int) =~= before);
        self.keys = kept;
    }
}

impl<T: Clone> CachelibHandler<T> {
    /// What someone who asks for the value under a key has to do: take
    /// the value if it is cached; compute it if nobody does yet; wait if
    /// somebody does. However many ask before the value is there, one of
    /// them computes.
    pub fn get_or_fill(&mut self, fills: &mut FillsInFlight, key: &String) -> (step: FillStep<T>)
        requires
            old(self).gets() < usize::MAX,
        ensures
            final(self).gets() == old(self).gets() + 1,
            forall|k: Seq<char>| final(self).cached(k) == old(self).cached(k),
            match step {
                FillStep::Hit(v) => old(self).cached(key@) is Some && cloned(
                    old(self).cached(key@)->0,
                    v,
                ) && forall|k: Seq<char>| final(fills).has(k) == old(fills).has(k),
                FillStep::Compute => old(self).cached(key@) is None && !old(fills).has(key@)
                    && forall|k: Seq<char>|
                    final(fills).has(k) == (old(fills).has(k) || k == key@),
                FillStep::Wait => old(self).cached(key@) is None && old(fills).has(key@)
                    && forall|k: Seq<char>| final(fills).has(k) == old(fills).has(k),
            },
    {
        match self.get_cached(key) {
            Some(v) => FillStep::Hit(v),
            None => {
                if fills.contains(key) {
                    FillStep::Wait
                } else {
                    fills.start(key);
                    FillStep::Compute
                }
            },
        }
    }

    /// Records that the value under a key has been computed, or could not
    /// be. A value is cached; a failure is not. Either way nobody computes
    /// the value any more, and those who waited get what came out.
    pub fn fill_done(&mut self, fills: &mut FillsInFlight, key: &String, computed: Option<&T>)
        ensures
            final(self).gets() == old(self).gets(),
            forall|k: Seq<char>| final(fills).has(k) == (old(fills).has(k) && k != key@),
            forall|k: Seq<char>| k != key@ ==> final(self).cached(k) == old(self).cached(k),
            match computed {
                Some(v) => final(self).cached(key@) is Some && cloned(
                    *v,
                    final(self).cached(key@)->0,
                ),
                None => final(self).cached(key@) == old(self).cached(key@),
            },
    {
        fills.finish(key);
        match computed {
            Some(v) => {
                let _ = self.set_cached(key, v);
            },
            None => {},
        }
    }

    /// Asks `m` times for the value under a key before any computation
    /// is done, and says how many of those who asked have to compute: one
    /// if the value is neither cached nor being computed, else none.
    pub fn get_or_fill_many(&mut self, fills: &mut FillsInFlight, key: &String, m: usize) -> (computes:
        usize)
        requires
            old(self).gets() + m <= usize::MAX,
        ensures
            computes <= 1,
            computes == 1 <==> m >= 1 && old(self).cached(key@) is None && !old(fills).has(key@),
            final(self).gets() == old(self).gets() + m,
            forall|k: Seq<char>| final(self).cached(k) == old(self).cached(k),
            forall|k: Seq<char>|
                final(fills).has(k) == (old(fills).has(k) || (computes == 1 && k == key@)),
    {
        let mut computes: usize = 0;
        let mut i: usize = 0;
        while i < m
            invariant
                i <= m,
                computes <= 1,
                old(self).gets() + m <= usize::MAX,
                self.gets() == old(self).gets() + i,
                forall|k: Seq<char>| self.cached(k) == old(self).cached(k),
                computes == 1 <==> i >= 1 && old(self).cached(key@) is None && !old(fills).has(
                    key@,
                ),
                forall|k: Seq<char>|
                    fills.has(k) == (old(fills).has(k) || (computes == 1 && k == key@)),
            decreases m - i,
        {
            match self.get_or_fill(fills, key) {
                FillStep::Compute => {
                    computes = computes + 1;
                },
                _ => {},
            }
            i += 1;
        }
        computes
    }
}

} // verus!
