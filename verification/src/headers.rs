//! Header storage backed by a small vector.
//!
//! Most HTTP requests carry fewer than sixteen headers; the first sixteen
//! (name, value) pairs are stored inline and only a larger set moves to the
//! heap. Names are stored in ASCII lower case and looked up without regard
//! to case.
use vstd::prelude::*;
use smallvec::SmallVec;
use crate::text::{ascii_lower, eq_ignore_case, lower, str_eq, str_eq_ignore_case, to_ascii_lowercase, to_string};

verus! {

/// Number of header pairs stored inline before the storage moves to the heap.
pub const INLINE_HEADER_CAPACITY: usize = 16;

/// The small vector of (name, value) pairs, held whole: Verus sees only the
/// pairs it holds, through `stored_pairs`.
#[verifier::external_body]
#[derive(Debug)]
pub struct InlinePairs {
    v: SmallVec<[(String, String); 16]>,
}

/// The (name, value) pairs a header vector holds, in order.
pub uninterp spec fn stored_pairs(v: InlinePairs) -> Seq<(Seq<char>, Seq<char>)>;

/// Whether a header vector keeps its pairs on the heap (`SmallVec::spilled`:
/// its capacity is above the inline sixteen).
pub uninterp spec fn pairs_on_heap(v: InlinePairs) -> bool;

/// `SmallVec::new`: an empty vector, inline.
#[verifier::external_body]
fn pairs_new() -> (r: InlinePairs)
    ensures
        stored_pairs(r) == Seq::<(Seq<char>, Seq<char>)>::empty(),
        !pairs_on_heap(r),
{
    InlinePairs { v: SmallVec::new() }
}

/// `SmallVec::push`: appends a pair at the end. A full inline vector moves
/// to the heap; a vector on the heap stays there (growing never shrinks).
#[verifier::external_body]
fn pairs_push(v: &mut InlinePairs, item: (String, String))
    ensures
        stored_pairs(*final(v)) == stored_pairs(*old(v)).push((item.0@, item.1@)),
        pairs_on_heap(*final(v)) == (pairs_on_heap(*old(v)) || stored_pairs(*final(v)).len() > 16),
{
    v.v.push(item);
}

/// `SmallVec::len`: the number of pairs.
#[verifier::external_body]
fn pairs_len(v: &InlinePairs) -> (r: usize)
    ensures
        r == stored_pairs(*v).len(),
{
    v.v.len()
}

/// `SmallVec::remove`: takes out the pair at `i`, shifting the later ones
/// down; the storage is not shrunk.
#[verifier::external_body]
fn pairs_remove(v: &mut InlinePairs, i: usize) -> (r: (String, String))
    requires
        i < stored_pairs(*old(v)).len(),
    ensures
        stored_pairs(*final(v)) == stored_pairs(*old(v)).remove(i as int),
        pairs_on_heap(*final(v)) == pairs_on_heap(*old(v)),
        (r.0@, r.1@) == stored_pairs(*old(v))[i as int],
{
    v.v.remove(i)
}

/// Indexing a `SmallVec`: the pair at `i`.
#[verifier::external_body]
fn pairs_at(v: &InlinePairs, i: usize) -> (r: &(String, String))
    requires
        i < stored_pairs(*v).len(),
    ensures
        (r.0@, r.1@) == stored_pairs(*v)[i as int],
{
    &v.v[i]
}

/// Mutable indexing of a `SmallVec`: sets the value of the pair at `i`.
#[verifier::external_body]
fn pairs_set_value(v: &mut InlinePairs, i: usize, value: String)
    requires
        i < stored_pairs(*old(v)).len(),
    ensures
        stored_pairs(*final(v)) == stored_pairs(*old(v)).update(
            i as int,
            (stored_pairs(*old(v))[i as int].0, value@),
        ),
        pairs_on_heap(*final(v)) == pairs_on_heap(*old(v)),
{
    v.v[i].1 = value;
}

/// `SmallVec::spilled`: whether the pairs live on the heap.
#[verifier::external_body]
fn pairs_spilled(v: &InlinePairs) -> (r: bool)
    ensures
        r == pairs_on_heap(*v),
{
    v.v.spilled()
}

/// `SmallVec::clone`: a vector built from the pairs as a slice, holding
/// copies of the same pairs, on the heap exactly when they do not fit inline.
#[verifier::external_body]
fn pairs_clone(v: &InlinePairs) -> (r: InlinePairs)
    ensures
        stored_pairs(r) == stored_pairs(*v),
        pairs_on_heap(r) == (stored_pairs(*v).len() > 16),
{
    InlinePairs { v: v.v.clone() }
}

/// Every name is in ASCII lower case.
pub open spec fn names_lowercase(p: Seq<(Seq<char>, Seq<char>)>) -> bool {
    forall|i: int| 0 <= i < p.len() ==> lower(#[trigger] p[i].0) == p[i].0
}

/// The first pair whose name equals `name` up to ASCII case, from `i` on.
pub open spec fn find_name(p: Seq<(Seq<char>, Seq<char>)>, name: Seq<char>, i: int) -> Option<int>
    decreases p.len() - i,
{
    if i < 0 || i >= p.len() {
        None
    } else if eq_ignore_case(p[i].0, name) {
        Some(i)
    } else {
        find_name(p, name, i + 1)
    }
}

/// The first pair whose name is exactly `name`, from `i` on.
pub open spec fn find_exact(p: Seq<(Seq<char>, Seq<char>)>, name: Seq<char>, i: int) -> Option<int>
    decreases p.len() - i,
{
    if i < 0 || i >= p.len() {
        None
    } else if p[i].0 == name {
        Some(i)
    } else {
        find_exact(p, name, i + 1)
    }
}

/// The value of the first pair named `name` up to case.
pub open spec fn lookup(p: Seq<(Seq<char>, Seq<char>)>, name: Seq<char>) -> Option<Seq<char>> {
    match find_name(p, name, 0) {
        Some(i) => Some(p[i].1),
        None => None,
    }
}

/// The pairs after setting `name` (lower-cased) to `value`: the first pair
/// with that exact name takes the value, or the pair is appended.
pub open spec fn set_pair(p: Seq<(Seq<char>, Seq<char>)>, name: Seq<char>, value: Seq<char>) -> Seq<(Seq<char>, Seq<char>)> {
    match find_exact(p, lower(name), 0) {
        Some(i) => p.update(i, (lower(name), value)),
        None => p.push((lower(name), value)),
    }
}

/// A small-vector-backed collection of HTTP headers. Names are stored in
/// ASCII lower case; lookup ignores case.
#[derive(Debug)]
pub struct Headers {
    pairs: InlinePairs,
}

impl View for Headers {
    type V = Seq<(Seq<char>, Seq<char>)>;

    closed spec fn view(&self) -> Seq<(Seq<char>, Seq<char>)> {
        stored_pairs(self.pairs)
    }
}

pub proof fn lemma_lower_idempotent(s: Seq<char>)
    ensures
        lower(lower(s)) == lower(s),
{
    assert(lower(lower(s)) =~= lower(s));
}

proof fn lemma_find_exact(p: Seq<(Seq<char>, Seq<char>)>, name: Seq<char>, i: int)
    requires
        0 <= i,
    ensures
        find_exact(p, name, i) matches Some(j) ==> i <= j < p.len() && p[j].0 == name && forall|
            l: int,
        |
            i <= l < j ==> p[l].0 != name,
        find_exact(p, name, i) is None ==> forall|l: int| i <= l < p.len() ==> p[l].0 != name,
    decreases p.len() - i,
{
    if i < p.len() && p[i].0 != name {
        lemma_find_exact(p, name, i + 1);
    }
}

proof fn lemma_find_name(p: Seq<(Seq<char>, Seq<char>)>, name: Seq<char>, i: int)
    requires
        0 <= i,
    ensures
        find_name(p, name, i) matches Some(j) ==> i <= j < p.len() && eq_ignore_case(p[j].0, name)
            && forall|l: int| i <= l < j ==> !eq_ignore_case(p[l].0, name),
        find_name(p, name, i) is None ==> forall|l: int|
            i <= l < p.len() ==> !eq_ignore_case(p[l].0, name),
    decreases p.len() - i,
{
    if i < p.len() && !eq_ignore_case(p[i].0, name) {
        lemma_find_name(p, name, i + 1);
    }
}

impl Headers {
    #[verifier::type_invariant]
    spec fn inv(self) -> bool {
        &&& names_lowercase(stored_pairs(self.pairs))
        &&& stored_pairs(self.pairs).len() > 16 ==> pairs_on_heap(self.pairs)
    }

    /// Whether the pairs have moved from inline storage to the heap.
    pub closed spec fn on_heap(&self) -> bool {
        pairs_on_heap(self.pairs)
    }

    /// No headers.
    pub fn new() -> (h: Headers)
        ensures
            h@ == Seq::<(Seq<char>, Seq<char>)>::empty(),
            !h.on_heap(),
    {
        Headers { pairs: pairs_new() }
    }

    /// Headers holding the given pairs, each set in turn as by `insert`.
    pub fn from_iter(v: Vec<(String, String)>) -> (h: Headers)
        ensures
            h@ == set_all(Seq::empty(), strings_pairs(v@)),
            h.on_heap() == (h@.len() > INLINE_HEADER_CAPACITY),
    {
        let mut h = Headers::new();
        let mut i: usize = 0;
        while i < v.len()
            invariant
                i <= v@.len(),
                h@ == set_all(Seq::empty(), strings_pairs(v@).subrange(0, i as int)),
                h.on_heap() == (h@.len() > INLINE_HEADER_CAPACITY),
            decreases v.len() - i,
        {
            let ghost before = h@;
            h.insert(v[i].0.as_str(), v[i].1.as_str());
            proof {
                lemma_find_exact(before, lower(v@[i as int].0@), 0);
                let s = strings_pairs(v@);
                assert(s.subrange(0, i + 1).drop_last() =~= s.subrange(0, i as int));
            }
            i = i + 1;
        }
        assert(strings_pairs(v@).subrange(0, v@.len() as int) =~= strings_pairs(v@));
        h
    }

    fn position_exact(&self, name: &str) -> (r: Option<usize>)
        ensures
            crate::strmap::opt_index(r) == find_exact(self@, name@, 0),
            r matches Some(i) ==> i < self@.len(),
    {
        let n = pairs_len(&self.pairs);
        let mut i: usize = 0;
        while i < n
            invariant
                i <= n,
                n == self@.len(),
                find_exact(self@, name@, 0) == find_exact(self@, name@, i as int),
            decreases n - i,
        {
            let p = pairs_at(&self.pairs, i);
            if str_eq(p.0.as_str(), name) {
                return Some(i);
            }
            i = i + 1;
        }
        None
    }

    fn position(&self, name: &str) -> (r: Option<usize>)
        ensures
            crate::strmap::opt_index(r) == find_name(self@, name@, 0),
            r matches Some(i) ==> i < self@.len(),
    {
        let n = pairs_len(&self.pairs);
        let mut i: usize = 0;
        while i < n
            invariant
                i <= n,
                n == self@.len(),
                find_name(self@, name@, 0) == find_name(self@, name@, i as int),
            decreases n - i,
        {
            let p = pairs_at(&self.pairs, i);
            if str_eq_ignore_case(p.0.as_str(), name) {
                return Some(i);
            }
            i = i + 1;
        }
        None
    }

    /// Sets a header: the name is lower-cased, and an existing pair with that
    /// name takes the new value; otherwise the pair is appended.
    pub fn insert(&mut self, key: &str, value: &str)
        ensures
            final(self)@ == set_pair(old(self)@, key@, value@),
            final(self).on_heap() == (old(self).on_heap() || final(self)@.len()
                > INLINE_HEADER_CAPACITY),
    {
        proof {
            use_type_invariant(&*self);
        }
        let k = to_ascii_lowercase(key);
        let v = to_string(value);
        proof {
            lemma_lower_idempotent(key@);
        }
        match self.position_exact(k.as_str()) {
            Some(i) => {
                let mut pairs = pairs_new();
                std::mem::swap(&mut pairs, &mut self.pairs);
                proof {
                    lemma_find_exact(stored_pairs(pairs), k@, 0);
                }
                pairs_set_value(&mut pairs, i, v);
                assert(names_lowercase(stored_pairs(pairs)));
                self.pairs = pairs;
            },
            None => {
                let mut pairs = pairs_new();
                std::mem::swap(&mut pairs, &mut self.pairs);
                pairs_push(&mut pairs, (k, v));
                assert(names_lowercase(stored_pairs(pairs)));
                self.pairs = pairs;
            },
        }
    }

    /// Adds a header pair without looking for an existing one (as for
    /// `Set-Cookie`); the name is lower-cased.
    pub fn append(&mut self, key: &str, value: &str)
        ensures
            final(self)@ == old(self)@.push((lower(key@), value@)),
            final(self).on_heap() == (old(self).on_heap() || final(self)@.len()
                > INLINE_HEADER_CAPACITY),
    {
        proof {
            use_type_invariant(&*self);
            lemma_lower_idempotent(key@);
        }
        let k = to_ascii_lowercase(key);
        let v = to_string(value);
        let mut pairs = pairs_new();
        std::mem::swap(&mut pairs, &mut self.pairs);
        pairs_push(&mut pairs, (k, v));
        assert(names_lowercase(stored_pairs(pairs)));
        self.pairs = pairs;
    }

    /// The value of the first header named `key`, ignoring case.
    pub fn get(&self, key: &str) -> (r: Option<&str>)
        ensures
            r is Some <==> lookup(self@, key@) is Some,
            r matches Some(v) ==> v@ == lookup(self@, key@)->0,
    {
        match self.position(key) {
            Some(i) => Some(pairs_at(&self.pairs, i).1.as_str()),
            None => None,
        }
    }

    /// Removes the first header named `key`, ignoring case, and returns its
    /// value.
    pub fn remove(&mut self, key: &str) -> (r: Option<String>)
        ensures
            match find_name(old(self)@, key@, 0) {
                Some(i) => final(self)@ == old(self)@.remove(i) && r is Some && r->0@ == old(
                    self,
                )@[i].1,
                None => final(self)@ == old(self)@ && r is None,
            },
            final(self).on_heap() == old(self).on_heap(),
    {
        proof {
            use_type_invariant(&*self);
        }
        match self.position(key) {
            Some(i) => {
                let mut pairs = pairs_new();
                std::mem::swap(&mut pairs, &mut self.pairs);
                let ghost before = stored_pairs(pairs);
                let (_, v) = pairs_remove(&mut pairs, i);
                assert forall|l: int| 0 <= l < stored_pairs(pairs).len() implies lower(
                    #[trigger] stored_pairs(pairs)[l].0,
                ) == stored_pairs(pairs)[l].0 by {
                    if l < i {
                        assert(stored_pairs(pairs)[l] == before[l]);
                    } else {
                        assert(stored_pairs(pairs)[l] == before[l + 1]);
                    }
                }
                self.pairs = pairs;
                Some(v)
            },
            None => None,
        }
    }

    /// All (name, value) pairs, in order.
    pub fn iter(&self) -> (r: Vec<(&str, &str)>)
        ensures
            r@.len() == self@.len(),
            forall|i: int| 0 <= i < r@.len() ==> (#[trigger] r@[i].0@, r@[i].1@) == self@[i],
    {
        let n = pairs_len(&self.pairs);
        let mut out: Vec<(&str, &str)> = Vec::new();
        let mut i: usize = 0;
        while i < n
            invariant
                i <= n,
                n == self@.len(),
                out@.len() == i,
                forall|j: int| 0 <= j < i ==> (#[trigger] out@[j].0@, out@[j].1@) == self@[j],
            decreases n - i,
        {
            let p = pairs_at(&self.pairs, i);
            out.push((p.0.as_str(), p.1.as_str()));
            i = i + 1;
        }
        out
    }

    /// The number of header pairs.
    pub fn len(&self) -> (r: usize)
        ensures
            r == self@.len(),
    {
        pairs_len(&self.pairs)
    }

    /// Whether there are no headers.
    pub fn is_empty(&self) -> (r: bool)
        ensures
            r == (self@.len() == 0),
    {
        pairs_len(&self.pairs) == 0
    }

    /// Whether the pairs have moved from inline storage to the heap: they
    /// move once there are more than the inline capacity, and stay there
    /// when pairs are removed.
    pub fn is_heap_allocated(&self) -> (r: bool)
        ensures
            r == self.on_heap(),
            self@.len() > INLINE_HEADER_CAPACITY ==> r,
    {
        proof {
            use_type_invariant(self);
        }
        pairs_spilled(&self.pairs)
    }
}

impl Clone for Headers {
    fn clone(&self) -> (r: Headers)
        ensures
            r@ == self@,
            r.on_heap() == (self@.len() > INLINE_HEADER_CAPACITY),
    {
        proof {
            use_type_invariant(self);
        }
        Headers { pairs: pairs_clone(&self.pairs) }
    }
}

impl Default for Headers {
    fn default() -> (r: Headers)
        ensures
            r@ == Seq::<(Seq<char>, Seq<char>)>::empty(),
    {
        Headers::new()
    }
}

/// The text of a list of string pairs.
pub open spec fn strings_pairs(v: Seq<(String, String)>) -> Seq<(Seq<char>, Seq<char>)> {
    v.map_values(|p: (String, String)| (p.0@, p.1@))
}

/// The pairs after setting each of `items` in turn.
pub open spec fn set_all(p: Seq<(Seq<char>, Seq<char>)>, items: Seq<(Seq<char>, Seq<char>)>) -> Seq<(Seq<char>, Seq<char>)>
    decreases items.len(),
{
    if items.len() == 0 {
        p
    } else {
        set_pair(set_all(p, items.drop_last()), items.last().0, items.last().1)
    }
}

/// After a header is set, looking it up under any spelling of its name
/// gives the value set.
pub proof fn law_insert_then_get(before: Seq<(Seq<char>, Seq<char>)>, name: Seq<char>, value: Seq<char>, query: Seq<char>)
    requires
        names_lowercase(before),
        eq_ignore_case(query, name),
    ensures
        lookup(set_pair(before, name, value), query) == Some(value),
{
    let after = set_pair(before, name, value);
    let ln = lower(name);
    lemma_lower_idempotent(name);
    lemma_find_exact(before, ln, 0);
    // A stored (lower-case) name matches the query exactly when it is `ln`.
    assert forall|l: int| 0 <= l < after.len() implies (eq_ignore_case(
        #[trigger] after[l].0,
        query,
    ) <==> after[l].0 == ln) by {
        if l < before.len() && after[l] == before[l] {
            assert(lower(before[l].0) == before[l].0);
        }
    }
    lemma_find_name(after, query, 0);
    match find_exact(before, ln, 0) {
        Some(i) => {
            assert(after[i].0 == ln);
            if find_name(after, query, 0) is Some {
                let j = find_name(after, query, 0)->0;
                if j < i {
                    assert(after[j] == before[j]);
                }
            }
        },
        None => {
            let i = before.len() as int;
            assert(after[i].0 == ln);
            if find_name(after, query, 0) is Some {
                let j = find_name(after, query, 0)->0;
                if j < i {
                    assert(after[j] == before[j]);
                }
            }
        },
    }
}

} // verus!
