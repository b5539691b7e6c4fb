//! A small ticker-keyed map with verified lookup and insertion, used as the
//! building block of the aggregation caches. Entries are only ever added or
//! replaced, never removed — a reader always observes a valid snapshot.

use vstd::prelude::*;

use crate::text::str_eq;

verus! {

/// A map from tickers to values, with unique keys.
pub struct TickerTable<V> {
    keys: Vec<String>,
    vals: Vec<V>,
}

impl<V> TickerTable<V> {
    /// Keys are parallel to values and pairwise distinct.
    pub closed spec fn wf(self) -> bool {
        &&& self.keys@.len() == self.vals@.len()
        &&& forall|i: int, j: int|
            0 <= i < j < self.keys@.len() ==> self.keys@[i]@ != self.keys@[j]@
    }

    pub closed spec fn contains_key(self, t: Seq<char>) -> bool {
        exists|i: int| 0 <= i < self.keys@.len() && (#[trigger] self.keys@[i])@ == t
    }

    closed spec fn index_of(self, t: Seq<char>) -> int {
        choose|i: int| 0 <= i < self.keys@.len() && (#[trigger] self.keys@[i])@ == t
    }

    /// The value stored for a ticker, if any.
    pub closed spec fn spec_get(self, t: Seq<char>) -> Option<V> {
        if self.contains_key(t) {
            Some(self.vals@[self.index_of(t)])
        } else {
            None
        }
    }

    proof fn lemma_index_unique(self, t: Seq<char>, i: int)
        requires
            self.wf(),
            0 <= i < self.keys@.len(),
            self.keys@[i]@ == t,
        ensures
            self.contains_key(t),
            self.index_of(t) == i,
            self.spec_get(t) == Some(self.vals@[i]),
    {
        assert(self.contains_key(t)) by {
            assert(self.keys@[i]@ == t);
        }
        let j = self.index_of(t);
        if j < i {
            assert(self.keys@[j]@ != self.keys@[i]@);
        } else if j > i {
            assert(self.keys@[i]@ != self.keys@[j]@);
        }
    }

    /// An empty table.
    pub fn new() -> (r: Self)
        ensures
            r.wf(),
            forall|t: Seq<char>| !(#[trigger] r.contains_key(t)),
            forall|t: Seq<char>| #[trigger] r.spec_get(t) is None,
    {
        TickerTable { keys: Vec::new(), vals: Vec::new() }
    }

    /// Looks a ticker up; a present entry is returned verbatim.
    pub fn get(&self, ticker: &str) -> (r: Option<&V>)
        requires
            self.wf(),
        ensures
            match r {
                Some(v) => self.spec_get(ticker@) == Some(*v),
                None => self.spec_get(ticker@) is None,
            },
    {
        let mut i: usize = 0;
        while i < self.keys.len()
            invariant
                0 <= i <= self.keys@.len(),
                self.wf(),
                self.keys@.len() == self.vals@.len(),
                forall|q: int| 0 <= q < i ==> (#[trigger] self.keys@[q])@ != ticker@,
            decreases self.keys@.len() - i,
        {
            if str_eq(self.keys[i].as_str(), ticker) {
                proof {
                    self.lemma_index_unique(ticker@, i as int);
                }
                return Some(&self.vals[i]);
            }
            i += 1;
        }
        proof {
            if self.contains_key(ticker@) {
                let q = choose|q: int|
                    0 <= q < self.keys@.len() && (#[trigger] self.keys@[q])@ == ticker@;
                assert(false);
            }
        }
        None
    }

    /// Inserts or replaces the entry for a ticker, leaving every other
    /// entry untouched.
    #[verifier::loop_isolation(false)]
    pub fn insert(&mut self, ticker: String, v: V)
        requires
            old(self).wf(),
        ensures
            final(self).wf(),
            final(self).spec_get(ticker@) == Some(v),
            final(self).contains_key(ticker@),
            forall|t: Seq<char>|
                t != ticker@ ==> #[trigger] final(self).spec_get(t) == old(self).spec_get(t),
            forall|t: Seq<char>|
                t != ticker@ ==> #[trigger] final(self).contains_key(t) == old(self).contains_key(
                    t,
                ),
    {
        let ghost prev = *self;
        let mut i: usize = 0;
        let n = self.keys.len();
        while i < n
            invariant
                0 <= i <= n,
                *self == prev,
                n == self.keys@.len(),
                self.wf(),
                forall|q: int| 0 <= q < i ==> (#[trigger] self.keys@[q])@ != ticker@,
            decreases n - i,
        {
            if str_eq(self.keys[i].as_str(), ticker.as_str()) {
                self.vals.set(i, v);
                proof {
                    assert(self.keys@ == prev.keys@);
                    (*self).lemma_index_unique(ticker@, i as int);
                    assert forall|t: Seq<char>| t != ticker@ implies #[trigger] (*self).contains_key(
                        t,
                    ) == prev.contains_key(t) by {
                        if prev.contains_key(t) {
                            let q = choose|q: int|
                                0 <= q < prev.keys@.len() && (#[trigger] prev.keys@[q])@ == t;
                            assert(self.keys@[q]@ == t);
                            assert((*self).contains_key(t));
                        }
                        if (*self).contains_key(t) {
                            let q = choose|q: int|
                                0 <= q < self.keys@.len() && (#[trigger] self.keys@[q])@ == t;
                            assert(prev.keys@[q]@ == t);
                            assert(prev.contains_key(t));
                        }
                    }
                    assert forall|t: Seq<char>| t != ticker@ implies #[trigger] (*self).spec_get(
                        t,
                    ) == prev.spec_get(t) by {
                        assert((*self).contains_key(t) == prev.contains_key(t));
                        if prev.contains_key(t) {
                            let q = choose|q: int|
                                0 <= q < prev.keys@.len() && (#[trigger] prev.keys@[q])@ == t;
                            prev.lemma_index_unique(t, q);
                            (*self).lemma_index_unique(t, q);
                            assert(q != i);
                        }
                    }
                }
                return ;
            }
            i += 1;
        }
        proof {
            if prev.contains_key(ticker@) {
                let q = choose|q: int|
                    0 <= q < prev.keys@.len() && (#[trigger] prev.keys@[q])@ == ticker@;
                assert(false);
            }
        }
        let ghost tv = ticker@;
        self.keys.push(ticker);
        self.vals.push(v);
        proof {
            assert(self.keys@ == prev.keys@.push(self.keys@[prev.keys@.len() as int]));
            assert(self.keys@[prev.keys@.len() as int]@ == tv);
            assert((*self).wf()) by {
                assert forall|a: int, b: int|
                    0 <= a < b < self.keys@.len() implies self.keys@[a]@ != self.keys@[b]@ by {
                    if b < prev.keys@.len() {
                        assert(prev.keys@[a]@ != prev.keys@[b]@);
                    } else {
                        assert(self.keys@[b]@ == tv);
                        assert(prev.keys@[a]@ != tv);
                    }
                }
            }
            (*self).lemma_index_unique(tv, prev.keys@.len() as int);
            assert forall|t: Seq<char>| t != tv implies #[trigger] (*self).contains_key(t)
                == prev.contains_key(t) by {
                if !prev.contains_key(t) && (*self).contains_key(t) {
                    let q = choose|q: int|
                        0 <= q < self.keys@.len() && (#[trigger] self.keys@[q])@ == t;
                    assert(q == prev.keys@.len());
                    assert(false);
                }
                if prev.contains_key(t) {
                    let q = choose|q: int|
                        0 <= q < prev.keys@.len() && (#[trigger] prev.keys@[q])@ == t;
                    assert(self.keys@[q]@ == t);
                    assert((*self).contains_key(t));
                }
            }
            assert forall|t: Seq<char>| t != tv implies #[trigger] (*self).spec_get(t)
                == prev.spec_get(t) by {
                if prev.contains_key(t) {
                    let q = choose|q: int|
                        0 <= q < prev.keys@.len() && (#[trigger] prev.keys@[q])@ == t;
                    prev.lemma_index_unique(t, q);
                    (*self).lemma_index_unique(t, q);
                } else {
                    if (*self).contains_key(t) {
                        let q = choose|q: int|
                            0 <= q < self.keys@.len() && (#[trigger] self.keys@[q])@ == t;
                        assert(q == prev.keys@.len());
                        assert(false);
                    }
                }
            }
        }
    }
}

} // verus!
