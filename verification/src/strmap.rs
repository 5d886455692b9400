//! A small string-to-string map kept as a vector of entries, for route
//! parameters, query strings, form bodies and multipart part headers.
use vstd::prelude::*;
use crate::text::str_eq;

verus! {

/// The first index at or after `i` whose key is `k`.
pub open spec fn index_of(e: Seq<(String, String)>, k: Seq<char>, i: int) -> Option<int>
    decreases e.len() - i,
{
    if i < 0 || i >= e.len() {
        None
    } else if e[i].0@ == k {
        Some(i)
    } else {
        index_of(e, k, i + 1)
    }
}

proof fn lemma_index_of(e: Seq<(String, String)>, k: Seq<char>, i: int)
    requires
        0 <= i,
    ensures
        index_of(e, k, i) matches Some(j) ==> i <= j < e.len() && e[j].0@ == k && forall|
            l: int,
        |
            i <= l < j ==> e[l].0@ != k,
        index_of(e, k, i) is None ==> forall|l: int| i <= l < e.len() ==> e[l].0@ != k,
    decreases e.len() - i,
{
    if i < e.len() && e[i].0@ != k {
        lemma_index_of(e, k, i + 1);
    }
}

proof fn lemma_index_of_same_keys(e1: Seq<(String, String)>, e2: Seq<(String, String)>, k: Seq<char>, i: int)
    requires
        0 <= i,
        e1.len() == e2.len(),
        forall|l: int| 0 <= l < e1.len() ==> #[trigger] e1[l].0@ == e2[l].0@,
    ensures
        index_of(e1, k, i) == index_of(e2, k, i),
    decreases e1.len() - i,
{
    if i < e1.len() {
        lemma_index_of_same_keys(e1, e2, k, i + 1);
    }
}

proof fn lemma_index_of_push(e: Seq<(String, String)>, x: (String, String), k: Seq<char>, i: int)
    requires
        0 <= i,
        index_of(e, x.0@, 0) is None,
    ensures
        index_of(e.push(x), k, i) == if i <= e.len() && k == x.0@ {
            Some(e.len() as int)
        } else {
            index_of(e, k, i)
        },
    decreases e.len() + 1 - i,
{
    lemma_index_of(e, x.0@, 0);
    if i < e.len() {
        assert(e.push(x)[i] == e[i]);
        lemma_index_of_push(e, x, k, i + 1);
    }
}

/// No two entries share a key.
pub open spec fn keys_unique(e: Seq<(String, String)>) -> bool {
    forall|i: int, j: int| 0 <= i < j < e.len() ==> #[trigger] e[i].0@ != #[trigger] e[j].0@
}

/// With distinct keys, the entry found for `k` is the one holding `k`.
proof fn lemma_index_of_unique(e: Seq<(String, String)>, k: Seq<char>, j: int)
    requires
        keys_unique(e),
        0 <= j < e.len(),
        e[j].0@ == k,
    ensures
        index_of(e, k, 0) == Some(j),
{
    lemma_index_of(e, k, 0);
    if index_of(e, k, 0) is None {
        assert(e[j].0@ != k);
    } else {
        let j2 = index_of(e, k, 0)->0;
        if j2 != j {
            if j2 < j {
                assert(e[j2].0@ != e[j].0@);
            } else {
                assert(e[j].0@ != e[j2].0@);
            }
        }
    }
}

/// A map from strings to strings; inserting an existing key replaces its
/// value.
#[derive(Debug)]
pub struct StrMap {
    entries: Vec<(String, String)>,
}

impl View for StrMap {
    type V = Map<Seq<char>, Seq<char>>;

    open spec fn view(&self) -> Map<Seq<char>, Seq<char>> {
        Map::new(
            |k: Seq<char>| index_of(self.spec_entries(), k, 0) is Some,
            |k: Seq<char>| self.spec_entries()[index_of(self.spec_entries(), k, 0)->0].1@,
        )
    }
}

impl StrMap {
    /// The stored entries.
    pub closed spec fn spec_entries(&self) -> Seq<(String, String)> {
        self.entries@
    }

    #[verifier::type_invariant]
    spec fn inv(self) -> bool {
        keys_unique(self.entries@)
    }

    /// An empty map.
    pub fn new() -> (m: StrMap)
        ensures
            m@ == Map::<Seq<char>, Seq<char>>::empty(),
    {
        let m = StrMap { entries: Vec::new() };
        assert(m@ =~= Map::<Seq<char>, Seq<char>>::empty());
        m
    }

    fn position(&self, key: &str) -> (r: Option<usize>)
        ensures
            opt_index(r) == index_of(self.spec_entries(), key@, 0),
            r matches Some(i) ==> i < self.spec_entries().len(),
    {
        let mut i: usize = 0;
        while i < self.entries.len()
            invariant
                i <= self.entries@.len(),
                index_of(self.entries@, key@, 0) == index_of(self.entries@, key@, i as int),
            decreases self.entries.len() - i,
        {
            if str_eq(self.entries[i].0.as_str(), key) {
                return Some(i);
            }
            i = i + 1;
        }
        None
    }

    /// The value stored for `key`.
    pub fn get(&self, key: &str) -> (r: Option<&String>)
        ensures
            r is Some <==> self@.contains_key(key@),
            r matches Some(v) ==> v@ == self@[key@],
    {
        match self.position(key) {
            Some(i) => Some(&self.entries[i].1),
            None => None,
        }
    }

    /// Sets `key` to `value`, replacing any value it had.
    pub fn insert(&mut self, key: String, value: String)
        ensures
            final(self)@ == old(self)@.insert(key@, value@),
    {
        proof {
            use_type_invariant(&*self);
        }
        let ghost k = key@;
        let ghost v = value@;
        let pos = self.position(key.as_str());
        let mut e: Vec<(String, String)> = Vec::new();
        std::mem::swap(&mut e, &mut self.entries);
        let ghost before = e@;
        proof {
            lemma_index_of(before, k, 0);
        }
        match pos {
            Some(i) => {
                let (old_key, _) = e.remove(i);
                e.insert(i, (old_key, value));
                assert forall|l: int| 0 <= l < before.len() implies #[trigger] e@[l].0@
                    == before[l].0@ by {
                    if l < i {
                        assert(e@[l] == before.remove(i as int)[l]);
                    } else if l > i {
                        assert(e@[l] == before.remove(i as int)[l - 1]);
                    }
                }
                proof {
                    assert forall|k2: Seq<char>| true implies index_of(e@, k2, 0) == index_of(
                        before,
                        k2,
                        0,
                    ) by {
                        lemma_index_of_same_keys(e@, before, k2, 0);
                    }
                    assert forall|a: int, b: int| 0 <= a < b < e@.len() implies #[trigger] e@[a].0@
                        != #[trigger] e@[b].0@ by {
                        assert(before[a].0@ != before[b].0@);
                    }
                    assert forall|k2: Seq<char>| #[trigger] index_of(before, k2, 0) is Some
                        && k2 != k implies e@[index_of(before, k2, 0)->0] == before[index_of(
                        before,
                        k2,
                        0,
                    )->0] by {
                        lemma_index_of(before, k2, 0);
                        let j = index_of(before, k2, 0)->0;
                        if j < i {
                            assert(e@[j] == before.remove(i as int)[j]);
                        } else if j > i {
                            assert(e@[j] == before.remove(i as int)[j - 1]);
                        }
                    }
                }
                self.entries = e;
                assert(self@ =~= old(self)@.insert(k, v));
            },
            None => {
                e.push((key, value));
                proof {
                    assert forall|k2: Seq<char>| true implies index_of(e@, k2, 0) == (if k2 == k {
                        Some(before.len() as int)
                    } else {
                        index_of(before, k2, 0)
                    }) by {
                        lemma_index_of_push(before, e@.last(), k2, 0);
                        assert(before.push(e@.last()) == e@);
                    }
                    assert forall|k2: Seq<char>| #[trigger] index_of(before, k2, 0) is Some
                        implies e@[index_of(before, k2, 0)->0] == before[index_of(
                        before,
                        k2,
                        0,
                    )->0] by {
                        lemma_index_of(before, k2, 0);
                    }
                    assert forall|a: int, b: int| 0 <= a < b < e@.len() implies #[trigger] e@[a].0@
                        != #[trigger] e@[b].0@ by {
                        if b < before.len() {
                            assert(before[a].0@ != before[b].0@);
                        } else {
                            assert(before[a].0@ != k);
                        }
                    }
                }
                self.entries = e;
                assert(self@ =~= old(self)@.insert(k, v));
            },
        }
    }

    /// Removes `key`, returning the value it had.
    pub fn remove(&mut self, key: &str) -> (r: Option<String>)
        ensures
            final(self)@ == old(self)@.remove(key@),
            r is Some <==> old(self)@.contains_key(key@),
            r matches Some(v) ==> v@ == old(self)@[key@],
    {
        proof {
            use_type_invariant(&*self);
        }
        match self.position(key) {
            Some(i) => {
                let mut e: Vec<(String, String)> = Vec::new();
                std::mem::swap(&mut e, &mut self.entries);
                let ghost before = e@;
                proof {
                    lemma_index_of(before, key@, 0);
                }
                let (_, v) = e.remove(i);
                proof {
                    assert forall|a: int, b: int| 0 <= a < b < e@.len() implies #[trigger] e@[a].0@
                        != #[trigger] e@[b].0@ by {
                        let a2 = if a < i {
                            a
                        } else {
                            a + 1
                        };
                        let b2 = if b < i {
                            b
                        } else {
                            b + 1
                        };
                        assert(e@[a] == before[a2]);
                        assert(e@[b] == before[b2]);
                        assert(before[a2].0@ != before[b2].0@);
                    }
                    assert forall|k2: Seq<char>| true implies (index_of(e@, k2, 0) is Some <==> (
                    k2 != key@ && index_of(before, k2, 0) is Some)) by {
                        lemma_index_of(e@, k2, 0);
                        lemma_index_of(before, k2, 0);
                        if index_of(e@, k2, 0) is Some {
                            let j = index_of(e@, k2, 0)->0;
                            let j2 = if j < i {
                                j
                            } else {
                                j + 1
                            };
                            assert(e@[j] == before[j2]);
                            if k2 == key@ {
                                if j2 < i {
                                    assert(before[j2].0@ != before[i as int].0@);
                                } else {
                                    assert(before[i as int].0@ != before[j2].0@);
                                }
                            }
                            lemma_index_of_unique(before, k2, j2);
                        } else if k2 != key@ && index_of(before, k2, 0) is Some {
                            let j = index_of(before, k2, 0)->0;
                            let j2 = if j < i {
                                j
                            } else {
                                j - 1
                            };
                            assert(e@[j2] == before[j]);
                        }
                    }
                    assert forall|k2: Seq<char>| #[trigger] index_of(e@, k2, 0) is Some implies e@[index_of(
                        e@,
                        k2,
                        0,
                    )->0] == before[index_of(before, k2, 0)->0] by {
                        lemma_index_of(e@, k2, 0);
                        let j = index_of(e@, k2, 0)->0;
                        let j2 = if j < i {
                            j
                        } else {
                            j + 1
                        };
                        assert(e@[j] == before[j2]);
                        lemma_index_of_unique(before, k2, j2);
                    }
                }
                self.entries = e;
                assert(self@ =~= old(self)@.remove(key@));
                Some(v)
            },
            None => {
                assert(self@ =~= old(self)@.remove(key@));
                None
            },
        }
    }

    /// Whether the map is empty.
    pub fn is_empty(&self) -> (r: bool)
        ensures
            r == (self@ == Map::<Seq<char>, Seq<char>>::empty()),
    {
        if self.entries.len() == 0 {
            assert(self@ =~= Map::<Seq<char>, Seq<char>>::empty());
            true
        } else {
            assert(self@.contains_key(self.entries@[0].0@)) by {
                assert(index_of(self.entries@, self.entries@[0].0@, 0) == Some(0int));
            }
            assert(!self@.dom().contains(self.entries@[0].0@) || self@ != Map::<
                Seq<char>,
                Seq<char>,
            >::empty());
            false
        }
    }
}

/// An optional machine index read as a mathematical one.
pub open spec fn opt_index(o: Option<usize>) -> Option<int> {
    match o {
        Some(x) => Some(x as int),
        None => None,
    }
}

} // verus!
