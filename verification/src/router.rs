//! Path-parameterised trie router.
//!
//! Each segment of the path is a node. A node has up to three kinds of
//! children: static children (segment literal → child), one parameter child
//! (`:name`) and one wildcard child (`*rest`). Lookup walks the trie segment by
//! segment, preferring static children, then the parameter child, then the
//! wildcard child.
use vstd::prelude::*;
use crate::request::{Method, method_name};
use crate::strmap::StrMap;
use crate::text::{
    chars_of, find, lemma_find_from, push_char, push_str, str_eq, string_from_range, strings_view,
    to_string,
};

verus! {

// ─── Route metadata ──────────────────────────────────────────────────────────

#[verifier::external_type_specification]
#[verifier::external_body]
pub struct ExJsonValue(serde_json::Value);

/// `serde_json::Value::clone` (derived): a copy equal to the value, variant
/// for variant and field for field.
pub assume_specification[ <serde_json::Value as Clone>::clone ](v: &serde_json::Value) -> (r: serde_json::Value)
    ensures
        r == *v,
;

/// Per-route metadata, collected at registration time.
#[derive(Debug)]
pub struct RouteMeta {
    pub path: String,
    pub method: Method,
    /// Optional JSON Schema describing the request body.
    pub request_schema: Option<serde_json::Value>,
    /// Optional JSON Schema describing the response body.
    pub response_schema: Option<serde_json::Value>,
    /// Human-readable summary.
    pub summary: Option<String>,
    /// Tags for grouping.
    pub tags: Vec<String>,
}

/// What route metadata says.
pub struct MetaView {
    pub path: Seq<char>,
    pub method: Method,
    pub request_schema: Option<serde_json::Value>,
    pub response_schema: Option<serde_json::Value>,
    pub summary: Option<Seq<char>>,
    pub tags: Seq<Seq<char>>,
}

impl View for RouteMeta {
    type V = MetaView;

    open spec fn view(&self) -> MetaView {
        MetaView {
            path: self.path@,
            method: self.method,
            request_schema: self.request_schema,
            response_schema: self.response_schema,
            summary: match self.summary {
                Some(s) => Some(s@),
                None => None,
            },
            tags: strings_view(self.tags@),
        }
    }
}

fn clone_json(v: &Option<serde_json::Value>) -> (r: Option<serde_json::Value>)
    ensures
        r == *v,
{
    match v {
        Some(x) => Some(x.clone()),
        None => None,
    }
}

fn clone_strings(v: &Vec<String>) -> (r: Vec<String>)
    ensures
        strings_view(r@) == strings_view(v@),
{
    let mut r: Vec<String> = Vec::new();
    let mut i: usize = 0;
    while i < v.len()
        invariant
            i <= v@.len(),
            strings_view(r@) == strings_view(v@.subrange(0, i as int)),
        decreases v.len() - i,
    {
        r.push(v[i].clone());
        assert(strings_view(v@.subrange(0, i + 1)) =~= strings_view(v@.subrange(0, i as int)).push(
            v@[i as int]@,
        ));
        assert(strings_view(r@) =~= strings_view(r@.drop_last()).push(r@.last()@));
        i = i + 1;
    }
    assert(v@.subrange(0, v@.len() as int) =~= v@);
    r
}

impl Clone for RouteMeta {
    fn clone(&self) -> (r: RouteMeta)
        ensures
            r@ == self@,
            r.request_schema == self.request_schema,
            r.response_schema == self.response_schema,
    {
        RouteMeta {
            path: self.path.clone(),
            method: self.method,
            request_schema: clone_json(&self.request_schema),
            response_schema: clone_json(&self.response_schema),
            summary: match &self.summary {
                Some(s) => Some(s.clone()),
                None => None,
            },
            tags: clone_strings(&self.tags),
        }
    }
}

impl Default for RouteMeta {
    fn default() -> (r: RouteMeta)
        ensures
            r.path@ == Seq::<char>::empty(),
            r.method == Method::Get,
            r.request_schema is None,
            r.response_schema is None,
            r.summary is None,
            r.tags@.len() == 0,
    {
        RouteMeta {
            path: String::new(),
            method: Method::Get,
            request_schema: None,
            response_schema: None,
            summary: None,
            tags: Vec::new(),
        }
    }
}

/// Metadata for `method` at `path`, with nothing else set.
pub fn plain_meta(path: &str, method: Method) -> (r: RouteMeta)
    ensures
        r.path@ == path@,
        r.method == method,
        r.request_schema is None,
        r.response_schema is None,
        r.summary is None,
        r.tags@.len() == 0,
{
    RouteMeta {
        path: to_string(path),
        method,
        request_schema: None,
        response_schema: None,
        summary: None,
        tags: Vec::new(),
    }
}

// ─── Paths ───────────────────────────────────────────────────────────────────

/// `s` as a list of one segment, or no segment when it is empty.
pub open spec fn nonempty(s: Seq<char>) -> Seq<Seq<char>> {
    if s.len() == 0 {
        seq![]
    } else {
        seq![s]
    }
}

/// The non-empty `/`-separated segments of a path.
pub open spec fn segments(p: Seq<char>) -> Seq<Seq<char>>
    decreases p.len(),
{
    match find(p, seq!['/']) {
        Some(i) => {
            proof {
                lemma_find_from(p, seq!['/'], 0);
            }
            nonempty(p.subrange(0, i)) + segments(p.subrange(i + 1, p.len() as int))
        },
        None => nonempty(p),
    }
}

/// Segments joined by `/`.
pub open spec fn join(segs: Seq<Seq<char>>) -> Seq<char>
    decreases segs.len(),
{
    if segs.len() == 0 {
        seq![]
    } else if segs.len() == 1 {
        segs[0]
    } else {
        segs[0] + seq!['/'] + join(segs.drop_first())
    }
}

/// What a pattern segment matches.
pub enum SegKind {
    /// Exactly this literal.
    Lit(Seq<char>),
    /// Any one segment (`:name`).
    Param,
    /// All remaining segments (`*name`).
    Wild,
}

/// The kind of a pattern segment.
pub open spec fn seg_kind(s: Seq<char>) -> SegKind {
    if s.len() > 0 && s[0] == ':' {
        SegKind::Param
    } else if s.len() > 0 && s[0] == '*' {
        SegKind::Wild
    } else {
        SegKind::Lit(s)
    }
}

/// The shape of a route pattern: which trie slot each segment takes.
pub open spec fn pattern(segs: Seq<Seq<char>>) -> Seq<SegKind> {
    segs.map_values(|s: Seq<char>| seg_kind(s))
}

/// No segment of the pattern is a parameter or a wildcard.
pub open spec fn all_literal(segs: Seq<Seq<char>>) -> bool {
    forall|i: int| 0 <= i < segs.len() ==> seg_kind(#[trigger] segs[i]) == SegKind::Lit(segs[i])
}

/// The segments of `path` (`path.split('/')` without empty pieces).
pub fn split_path(path: &str) -> (r: Vec<String>)
    ensures
        strings_view(r@) == segments(path@),
{
    let cs = chars_of(path);
    let n = cs.len();
    let mut out: Vec<String> = Vec::new();
    let mut start: usize = 0;
    let mut i: usize = 0;
    let ghost all = cs@;
    assert(all.subrange(0, n as int) =~= all);
    while i < n
        invariant
            start <= i <= n,
            n == cs@.len(),
            cs@ == all,
            forall|k: int| start <= k < i ==> cs@[k] != '/',
            strings_view(out@) + segments(all.subrange(start as int, n as int)) == segments(all),
        decreases n - i,
    {
        if cs[i] == '/' {
            let ghost rest = all.subrange(start as int, n as int);
            proof {
                lemma_find_from(rest, seq!['/'], 0);
                assert(rest.subrange(0, (i - start) as int) =~= all.subrange(
                    start as int,
                    i as int,
                ));
                assert(rest.subrange((i - start) as int, (i - start) + 1) =~= seq!['/']);
                assert(matches_slash(rest, (i - start) as int));
                assert(rest.subrange((i - start) + 1, rest.len() as int) =~= all.subrange(
                    i + 1,
                    n as int,
                ));
                assert(find(rest, seq!['/']) == Some((i - start) as int)) by {
                    if find(rest, seq!['/']) is None {
                        assert(!crate::text::matches_at(rest, seq!['/'], (i - start) as int));
                    } else {
                        let j = find(rest, seq!['/'])->0;
                        if j < i - start {
                            assert(rest.subrange(j, j + 1)[0] == rest[j]);
                            assert(cs@[start + j] != '/');
                        }
                    }
                }
            }
            if i > start {
                out.push(string_from_range(&cs, start, i));
                assert(strings_view(out@) =~= strings_view(out@.drop_last()).push(
                    all.subrange(start as int, i as int),
                ));
            }
            assert(strings_view(out@) + segments(all.subrange(i + 1, n as int)) =~= segments(all))
                by {
                assert(nonempty(all.subrange(start as int, i as int)) + segments(
                    all.subrange(i + 1, n as int),
                ) == segments(rest));
            }
            start = i + 1;
        }
        i = i + 1;
    }
    let ghost rest = all.subrange(start as int, n as int);
    proof {
        lemma_find_from(rest, seq!['/'], 0);
        if find(rest, seq!['/']) is Some {
            let j = find(rest, seq!['/'])->0;
            assert(rest.subrange(j, j + 1)[0] == rest[j]);
            assert(cs@[start + j] != '/');
        }
    }
    if start < n {
        out.push(string_from_range(&cs, start, n));
        assert(strings_view(out@) =~= strings_view(out@.drop_last()).push(rest));
    }
    assert(strings_view(out@) =~= segments(all));
    out
}

spec fn matches_slash(s: Seq<char>, i: int) -> bool {
    crate::text::matches_at(s, seq!['/'], i)
}

/// The segments joined by `/` (`segments.join("/")`).
pub fn join_segments(segs: &Vec<String>, from: usize) -> (r: String)
    requires
        from <= segs@.len(),
    ensures
        r@ == join(strings_view(segs@).subrange(from as int, segs@.len() as int)),
    decreases segs@.len() - from,
{
    let ghost v = strings_view(segs@).subrange(from as int, segs@.len() as int);
    if from == segs.len() {
        return String::new();
    }
    let mut r = segs[from].clone();
    if from + 1 < segs.len() {
        let rest = join_segments(segs, from + 1);
        push_char(&mut r, '/');
        push_str(&mut r, rest.as_str());
        assert(v.drop_first() =~= strings_view(segs@).subrange(from + 1, segs@.len() as int));
    }
    r
}

// ─── The trie ────────────────────────────────────────────────────────────────

/// A trie node.
pub struct Node<H> {
    /// Static children, keyed by exact segment literal.
    pub statics: Vec<(String, Node<H>)>,
    /// Parameter child (`:name`); the first name registered is kept.
    pub param: Option<(String, Box<Node<H>>)>,
    /// Wildcard child (`*rest`); the first name registered is kept.
    pub wildcard: Option<(String, Box<Node<H>>)>,
    /// Handlers with their metadata, by method.
    pub routes: Vec<(Method, H, RouteMeta)>,
}

/// The first static child of `st` at or after `i` whose key is `s`.
pub open spec fn static_index<H>(st: Seq<(String, Node<H>)>, s: Seq<char>, i: int) -> Option<int>
    decreases st.len() - i,
{
    if i < 0 || i >= st.len() {
        None
    } else if st[i].0@ == s {
        Some(i)
    } else {
        static_index(st, s, i + 1)
    }
}

/// The first route of `rs` at or after `i` for method `m`.
pub open spec fn route_index<H>(rs: Seq<(Method, H, RouteMeta)>, m: Method, i: int) -> Option<int>
    decreases rs.len() - i,
{
    if i < 0 || i >= rs.len() {
        None
    } else if rs[i].0 == m {
        Some(i)
    } else {
        route_index(rs, m, i + 1)
    }
}

/// The node reached from `node` by following the pattern shape `pat`.
pub open spec fn node_at<H>(node: Node<H>, pat: Seq<SegKind>) -> Option<Node<H>>
    decreases pat.len(),
{
    if pat.len() == 0 {
        Some(node)
    } else {
        match pat[0] {
            SegKind::Lit(s) => match static_index(node.statics@, s, 0) {
                Some(j) => node_at(node.statics@[j].1, pat.drop_first()),
                None => None,
            },
            SegKind::Param => match node.param {
                Some((_, c)) => node_at(*c, pat.drop_first()),
                None => None,
            },
            SegKind::Wild => match node.wildcard {
                Some((_, c)) => node_at(*c, pat.drop_first()),
                None => None,
            },
        }
    }
}

/// The handler and metadata registered under pattern shape `pat` for `m`.
pub open spec fn route_at<H>(node: Node<H>, pat: Seq<SegKind>, m: Method) -> Option<(H, RouteMeta)> {
    match node_at(node, pat) {
        Some(n) => match route_index(n.routes@, m, 0) {
            Some(k) => Some((n.routes@[k].1, n.routes@[k].2)),
            None => None,
        },
        None => None,
    }
}

/// A node with no children and no routes.
pub open spec fn empty_node<H>(n: Node<H>) -> bool {
    &&& n.statics@.len() == 0
    &&& n.param is None
    &&& n.wildcard is None
    &&& n.routes@.len() == 0
}

proof fn lemma_empty_node_has_no_route<H>(n: Node<H>, pat: Seq<SegKind>, m: Method)
    requires
        empty_node(n),
    ensures
        route_at(n, pat, m) is None,
{
    if pat.len() > 0 {
        match pat[0] {
            SegKind::Lit(s) => {
                assert(static_index(n.statics@, s, 0) is None);
            },
            _ => {},
        }
    }
}

proof fn lemma_static_index<H>(st: Seq<(String, Node<H>)>, s: Seq<char>, i: int)
    requires
        0 <= i,
    ensures
        static_index(st, s, i) matches Some(j) ==> i <= j < st.len() && st[j].0@ == s && forall|
            l: int,
        |
            i <= l < j ==> st[l].0@ != s,
        static_index(st, s, i) is None ==> forall|l: int| i <= l < st.len() ==> st[l].0@ != s,
    decreases st.len() - i,
{
    if i < st.len() && st[i].0@ != s {
        lemma_static_index(st, s, i + 1);
    }
}

proof fn lemma_static_index_update<H>(
    st: Seq<(String, Node<H>)>,
    j: int,
    c: Node<H>,
    s: Seq<char>,
    i: int,
)
    requires
        0 <= i,
        0 <= j < st.len(),
    ensures
        static_index(st.update(j, (st[j].0, c)), s, i) == static_index(st, s, i),
    decreases st.len() - i,
{
    if i < st.len() {
        lemma_static_index_update(st, j, c, s, i + 1);
    }
}

proof fn lemma_static_index_push<H>(st: Seq<(String, Node<H>)>, e: (String, Node<H>), s: Seq<char>, i: int)
    requires
        0 <= i <= st.len(),
        static_index(st, e.0@, 0) is None,
    ensures
        static_index(st.push(e), s, i) == if s == e.0@ {
            Some(st.len() as int)
        } else {
            static_index(st, s, i)
        },
    decreases st.len() - i,
{
    lemma_static_index(st, e.0@, 0);
    if i < st.len() {
        lemma_static_index_push(st, e, s, i + 1);
    }
}

proof fn lemma_route_index<H>(rs: Seq<(Method, H, RouteMeta)>, m: Method, i: int)
    requires
        0 <= i,
    ensures
        route_index(rs, m, i) matches Some(j) ==> i <= j < rs.len() && rs[j].0 == m && forall|
            l: int,
        |
            i <= l < j ==> rs[l].0 != m,
        route_index(rs, m, i) is None ==> forall|l: int| i <= l < rs.len() ==> rs[l].0 != m,
    decreases rs.len() - i,
{
    if i < rs.len() && rs[i].0 != m {
        lemma_route_index(rs, m, i + 1);
    }
}

proof fn lemma_route_index_same_methods<H>(
    r1: Seq<(Method, H, RouteMeta)>,
    r2: Seq<(Method, H, RouteMeta)>,
    m: Method,
    i: int,
)
    requires
        0 <= i,
        r1.len() == r2.len(),
        forall|l: int| 0 <= l < r1.len() ==> #[trigger] r1[l].0 == r2[l].0,
    ensures
        route_index(r1, m, i) == route_index(r2, m, i),
    decreases r1.len() - i,
{
    if i < r1.len() {
        lemma_route_index_same_methods(r1, r2, m, i + 1);
    }
}

proof fn lemma_route_index_push<H>(rs: Seq<(Method, H, RouteMeta)>, e: (Method, H, RouteMeta), m: Method, i: int)
    requires
        0 <= i <= rs.len(),
        route_index(rs, e.0, 0) is None,
    ensures
        route_index(rs.push(e), m, i) == if m == e.0 {
            Some(rs.len() as int)
        } else {
            route_index(rs, m, i)
        },
    decreases rs.len() - i,
{
    lemma_route_index(rs, e.0, 0);
    if i < rs.len() {
        lemma_route_index_push(rs, e, m, i + 1);
    }
}

proof fn lemma_head_tail(a: Seq<SegKind>, b: Seq<SegKind>)
    requires
        a.len() > 0,
        b.len() > 0,
        a[0] == b[0],
        a.drop_first() == b.drop_first(),
    ensures
        a == b,
{
    assert(a.drop_first().len() == a.len() - 1);
    assert(b.drop_first().len() == b.len() - 1);
    assert forall|t: int| 0 <= t < a.len() implies a[t] == b[t] by {
        if t > 0 {
            assert(a[t] == a.drop_first()[t - 1]);
            assert(b[t] == b.drop_first()[t - 1]);
        }
    }
    assert(a =~= b);
}

/// A node with no children and no routes.
fn new_node<H>() -> (n: Node<H>)
    ensures
        empty_node(n),
{
    Node { statics: Vec::new(), param: None, wildcard: None, routes: Vec::new() }
}

/// The name a pattern segment gives a parameter or wildcard (its text
/// after the leading `:` or `*`).
fn seg_name(cs: &Vec<char>) -> (r: String)
    requires
        cs@.len() > 0,
    ensures
        r@ == cs@.drop_first(),
{
    let r = string_from_range(cs, 1, cs.len());
    assert(cs@.subrange(1, cs@.len() as int) =~= cs@.drop_first());
    r
}

/// The string segments of `v` from `i`, as text.
pub open spec fn segs_from(v: Seq<String>, i: int) -> Seq<Seq<char>> {
    strings_view(v).subrange(i, v.len() as int)
}

/// How a registration changes the routes held under a node.
pub open spec fn registered<H>(
    old_node: Node<H>,
    new_node: Node<H>,
    key: Seq<SegKind>,
    m: Method,
    h: H,
    meta: RouteMeta,
) -> bool {
    forall|pat: Seq<SegKind>, m2: Method|
        #![trigger route_at(new_node, pat, m2)]
        route_at(new_node, pat, m2) == if pat == key && m2 == m {
            Some((h, kept_meta(old_node, key, m, meta)))
        } else {
            route_at(old_node, pat, m2)
        }
}

/// The metadata a registration under `key` keeps: the old one if the route
/// existed, else the new one.
pub open spec fn kept_meta<H>(old_node: Node<H>, key: Seq<SegKind>, m: Method, meta: RouteMeta) -> RouteMeta {
    match route_at(old_node, key, m) {
        Some(old) => old.1,
        None => meta,
    }
}

proof fn lemma_register_in_child<H>(
    on: Node<H>,
    nn: Node<H>,
    oc: Node<H>,
    nc: Node<H>,
    key: Seq<SegKind>,
    m: Method,
    h: H,
    meta: RouteMeta,
)
    requires
        key.len() > 0,
        registered(oc, nc, key.drop_first(), m, h, meta),
        forall|pat: Seq<SegKind>, m2: Method|
            pat.len() > 0 && pat[0] == key[0] ==> #[trigger] route_at(nn, pat, m2) == route_at(
                nc,
                pat.drop_first(),
                m2,
            ),
        forall|pat: Seq<SegKind>, m2: Method|
            pat.len() > 0 && pat[0] == key[0] ==> #[trigger] route_at(on, pat, m2) == route_at(
                oc,
                pat.drop_first(),
                m2,
            ),
        forall|pat: Seq<SegKind>, m2: Method|
            !(pat.len() > 0 && pat[0] == key[0]) ==> #[trigger] route_at(nn, pat, m2) == route_at(
                on,
                pat,
                m2,
            ),
    ensures
        registered(on, nn, key, m, h, meta),
{
    assert(route_at(on, key, m) == route_at(oc, key.drop_first(), m));
    assert forall|pat: Seq<SegKind>, m2: Method|
        #![trigger route_at(nn, pat, m2)]
        route_at(nn, pat, m2) == if pat == key && m2 == m {
            Some((h, kept_meta(on, key, m, meta)))
        } else {
            route_at(on, pat, m2)
        } by {
        if pat.len() > 0 && pat[0] == key[0] {
            assert(route_at(nn, pat, m2) == route_at(nc, pat.drop_first(), m2));
            if pat.drop_first() == key.drop_first() {
                lemma_head_tail(pat, key);
            }
        }
    }
}

proof fn lemma_empty_child<H>(oc: Node<H>, on: Node<H>, pat: Seq<SegKind>, m2: Method)
    requires
        empty_node(oc),
        route_at(on, pat, m2) is None,
    ensures
        route_at(on, pat, m2) == route_at(oc, pat.drop_first(), m2),
{
    lemma_empty_node_has_no_route(oc, pat.drop_first(), m2);
}

/// Registers `h` for `m` at `node` itself.
fn insert_here<H>(node: &mut Node<H>, m: Method, h: H, meta: RouteMeta) -> (r: bool)
    ensures
        r == (route_at(*old(node), seq![], m) is None),
        registered(*old(node), *final(node), seq![], m, h, meta),
        route_count(*final(node)) == route_count(*old(node)) + (if r { 1nat } else { 0nat }),
{
    let ghost on = *node;
    let ghost key = Seq::<SegKind>::empty();
    let mut k: usize = 0;
    while k < node.routes.len()
        invariant
            k <= node.routes@.len(),
            *node == on,
            forall|l: int| 0 <= l < k ==> node.routes@[l].0 != m,
        ensures
            k <= node.routes@.len(),
            *node == on,
            forall|l: int| 0 <= l < k ==> node.routes@[l].0 != m,
            k < node.routes@.len() ==> node.routes@[k as int].0 == m,
        decreases node.routes.len() - k,
    {
        if node.routes[k].0 == m {
            break;
        }
        k = k + 1;
    }
    proof {
        lemma_route_index(on.routes@, m, 0);
    }
    if k < node.routes.len() {
        let (mm, _, old_meta) = node.routes.remove(k);
        node.routes.insert(k, (mm, h, old_meta));
        proof {
            assert(route_index(on.routes@, m, 0) == Some(k as int)) by {
                if route_index(on.routes@, m, 0) is Some {
                    let j = route_index(on.routes@, m, 0)->0;
                    if j < k {
                    }
                }
            }
            assert forall|l: int| 0 <= l < on.routes@.len() implies #[trigger] node.routes@[l].0
                == on.routes@[l].0 by {
                if l < k {
                    assert(node.routes@[l] == on.routes@.remove(k as int)[l]);
                } else if l > k {
                    assert(node.routes@[l] == on.routes@.remove(k as int)[l - 1]);
                }
            }
            assert forall|pat: Seq<SegKind>, m2: Method|
                #![trigger route_at(*node, pat, m2)]
                route_at(*node, pat, m2) == if pat == key && m2 == m {
                    Some((h, kept_meta(on, key, m, meta)))
                } else {
                    route_at(on, pat, m2)
                } by {
                lemma_route_index_same_methods(node.routes@, on.routes@, m2, 0);
                assert(node.statics == on.statics && node.param == on.param && node.wildcard
                    == on.wildcard);
                if pat.len() == 0 {
                    assert(pat =~= key);
                    lemma_route_index(on.routes@, m2, 0);
                    if m2 != m && route_index(on.routes@, m2, 0) is Some {
                        let j = route_index(on.routes@, m2, 0)->0;
                        if j < k {
                            assert(node.routes@[j] == on.routes@.remove(k as int)[j]);
                        } else {
                            assert(node.routes@[j] == on.routes@.remove(k as int)[j - 1]);
                        }
                    }
                }
            }
            assert(own_metas(node.routes@).len() == own_metas(on.routes@).len());
            lemma_statics_metas_same(*node, on, 0);
        }
        false
    } else {
        node.routes.push((m, h, meta));
        proof {
            assert(route_index(on.routes@, m, 0) is None);
            assert forall|pat: Seq<SegKind>, m2: Method|
                #![trigger route_at(*node, pat, m2)]
                route_at(*node, pat, m2) == if pat == key && m2 == m {
                    Some((h, kept_meta(on, key, m, meta)))
                } else {
                    route_at(on, pat, m2)
                } by {
                lemma_route_index_push(on.routes@, (m, h, meta), m2, 0);
                assert(node.statics == on.statics && node.param == on.param && node.wildcard
                    == on.wildcard);
                if pat.len() == 0 {
                    assert(pat =~= key);
                    lemma_route_index(on.routes@, m2, 0);
                }
            }
            assert(own_metas(node.routes@).len() == own_metas(on.routes@).len() + 1);
            lemma_statics_metas_same(*node, on, 0);
        }
        true
    }
}

/// Registers `h` for `m` under the pattern `segs[i..]` below `node`. An
/// existing registration keeps its metadata, takes the new handler, and is
/// reported as a duplicate.
fn insert_route<H>(node: &mut Node<H>, segs: &Vec<String>, i: usize, m: Method, h: H, meta: RouteMeta) -> (r: bool)
    requires
        i <= segs@.len(),
    ensures
        r == (route_at(*old(node), pattern(segs_from(segs@, i as int)), m) is None),
        registered(*old(node), *final(node), pattern(segs_from(segs@, i as int)), m, h, meta),
        route_count(*final(node)) == route_count(*old(node)) + (if r { 1nat } else { 0nat }),
    decreases segs@.len() - i, 1int,
{
    if i == segs.len() {
        assert(pattern(segs_from(segs@, i as int)) =~= Seq::<SegKind>::empty());
        return insert_here(node, m, h, meta);
    }
    let cs = chars_of(segs[i].as_str());
    if cs.len() > 0 && cs[0] == ':' {
        insert_param(node, segs, i, &cs, m, h, meta)
    } else if cs.len() > 0 && cs[0] == '*' {
        insert_wild(node, segs, i, &cs, m, h, meta)
    } else {
        insert_static(node, segs, i, m, h, meta)
    }
}

fn insert_param<H>(node: &mut Node<H>, segs: &Vec<String>, i: usize, cs: &Vec<char>, m: Method, h: H, meta: RouteMeta) -> (r: bool)
    requires
        i < segs@.len(),
        cs@ == segs@[i as int]@,
        cs@.len() > 0 && cs@[0] == ':',
    ensures
        r == (route_at(*old(node), pattern(segs_from(segs@, i as int)), m) is None),
        registered(*old(node), *final(node), pattern(segs_from(segs@, i as int)), m, h, meta),
        route_count(*final(node)) == route_count(*old(node)) + (if r { 1nat } else { 0nat }),
    decreases segs@.len() - i, 0int,
{
    let ghost key = pattern(segs_from(segs@, i as int));
    let ghost on = *node;
    assert(key[0] == SegKind::Param);
    assert(key.drop_first() =~= pattern(segs_from(segs@, i + 1)));
    let (name, mut child) = match node.param.take() {
        Some((nm, c)) => (nm, c),
        None => (seg_name(cs), Box::new(new_node())),
    };
    let ghost oc = *child;
    let n: usize = segs.len();
    assert(i < n);
    let r = insert_route(&mut *child, segs, i + 1, m, h, meta);
    node.param = Some((name, child));
    proof {
        assert forall|pat: Seq<SegKind>, m2: Method|
            pat.len() > 0 && pat[0] == key[0] implies #[trigger] route_at(on, pat, m2) == route_at(
                oc,
                pat.drop_first(),
                m2,
            ) by {
            if on.param is None {
                lemma_empty_child(oc, on, pat, m2);
            }
        }
        assert forall|pat: Seq<SegKind>, m2: Method|
            !(pat.len() > 0 && pat[0] == key[0]) implies #[trigger] route_at(*node, pat, m2)
                == route_at(on, pat, m2) by {
            assert(node.statics == on.statics && node.wildcard == on.wildcard && node.routes
                == on.routes);
        }
        lemma_register_in_child(on, *node, oc, *child, key, m, h, meta);
        lemma_statics_metas_same(*node, on, 0);
        if on.param is None {
            lemma_empty_node_no_routes(oc);
        }
    }
    r
}

fn insert_wild<H>(node: &mut Node<H>, segs: &Vec<String>, i: usize, cs: &Vec<char>, m: Method, h: H, meta: RouteMeta) -> (r: bool)
    requires
        i < segs@.len(),
        cs@ == segs@[i as int]@,
        cs@.len() > 0 && cs@[0] == '*',
    ensures
        r == (route_at(*old(node), pattern(segs_from(segs@, i as int)), m) is None),
        registered(*old(node), *final(node), pattern(segs_from(segs@, i as int)), m, h, meta),
        route_count(*final(node)) == route_count(*old(node)) + (if r { 1nat } else { 0nat }),
    decreases segs@.len() - i, 0int,
{
    let ghost key = pattern(segs_from(segs@, i as int));
    let ghost on = *node;
    assert(key[0] == SegKind::Wild);
    assert(key.drop_first() =~= pattern(segs_from(segs@, i + 1)));
    let (name, mut child) = match node.wildcard.take() {
        Some((nm, c)) => (nm, c),
        None => (seg_name(cs), Box::new(new_node())),
    };
    let ghost oc = *child;
    let n: usize = segs.len();
    assert(i < n);
    let r = insert_route(&mut *child, segs, i + 1, m, h, meta);
    node.wildcard = Some((name, child));
    proof {
        assert forall|pat: Seq<SegKind>, m2: Method|
            pat.len() > 0 && pat[0] == key[0] implies #[trigger] route_at(on, pat, m2) == route_at(
                oc,
                pat.drop_first(),
                m2,
            ) by {
            if on.wildcard is None {
                lemma_empty_child(oc, on, pat, m2);
            }
        }
        assert forall|pat: Seq<SegKind>, m2: Method|
            !(pat.len() > 0 && pat[0] == key[0]) implies #[trigger] route_at(*node, pat, m2)
                == route_at(on, pat, m2) by {
            assert(node.statics == on.statics && node.param == on.param && node.routes
                == on.routes);
        }
        lemma_register_in_child(on, *node, oc, *child, key, m, h, meta);
        lemma_statics_metas_same(*node, on, 0);
        if on.wildcard is None {
            lemma_empty_node_no_routes(oc);
        }
    }
    r
}

fn insert_static<H>(node: &mut Node<H>, segs: &Vec<String>, i: usize, m: Method, h: H, meta: RouteMeta) -> (r: bool)
    requires
        i < segs@.len(),
        seg_kind(segs@[i as int]@) == SegKind::Lit(segs@[i as int]@),
    ensures
        r == (route_at(*old(node), pattern(segs_from(segs@, i as int)), m) is None),
        registered(*old(node), *final(node), pattern(segs_from(segs@, i as int)), m, h, meta),
        route_count(*final(node)) == route_count(*old(node)) + (if r { 1nat } else { 0nat }),
    decreases segs@.len() - i, 0int,
{
    let ghost key = pattern(segs_from(segs@, i as int));
    let ghost on = *node;
    let ghost seg = segs@[i as int]@;
    assert(key[0] == SegKind::Lit(seg));
    assert(key.drop_first() =~= pattern(segs_from(segs@, i + 1)));
    let mut j: usize = 0;
    while j < node.statics.len()
        invariant
            j <= node.statics@.len(),
            *node == on,
            i < segs@.len(),
            seg == segs@[i as int]@,
            forall|l: int| 0 <= l < j ==> node.statics@[l].0@ != seg,
        ensures
            j <= node.statics@.len(),
            *node == on,
            forall|l: int| 0 <= l < j ==> node.statics@[l].0@ != seg,
            j < node.statics@.len() ==> node.statics@[j as int].0@ == seg,
        decreases node.statics.len() - j,
    {
        if str_eq(node.statics[j].0.as_str(), segs[i].as_str()) {
            break;
        }
        j = j + 1;
    }
    proof {
        lemma_static_index(on.statics@, seg, 0);
    }
    if j < node.statics.len() {
        assert(static_index(on.statics@, seg, 0) == Some(j as int)) by {
            if static_index(on.statics@, seg, 0) is Some {
                let jj = static_index(on.statics@, seg, 0)->0;
                if jj < j {
                }
            }
        }
        let (skey, mut child) = node.statics.remove(j);
        let ghost oc = child;
        let n: usize = segs.len();
        assert(i < n);
        let r = insert_route(&mut child, segs, i + 1, m, h, meta);
        node.statics.insert(j, (skey, child));
        proof {
            assert(node.statics@ =~= on.statics@.update(j as int, (on.statics@[j as int].0, child)));
            assert forall|pat: Seq<SegKind>, m2: Method|
                pat.len() > 0 && pat[0] == key[0] implies #[trigger] route_at(on, pat, m2)
                    == route_at(oc, pat.drop_first(), m2) && route_at(*node, pat, m2) == route_at(
                    child,
                    pat.drop_first(),
                    m2,
                ) by {
                lemma_static_index_update(on.statics@, j as int, child, seg, 0);
            }
            assert forall|pat: Seq<SegKind>, m2: Method|
                !(pat.len() > 0 && pat[0] == key[0]) implies #[trigger] route_at(*node, pat, m2)
                    == route_at(on, pat, m2) by {
                assert(node.param == on.param && node.wildcard == on.wildcard && node.routes
                    == on.routes);
                if pat.len() > 0 {
                    if let SegKind::Lit(s) = pat[0] {
                        lemma_static_index_update(on.statics@, j as int, child, s, 0);
                        lemma_static_index(on.statics@, s, 0);
                        if static_index(on.statics@, s, 0) is Some {
                            let jj = static_index(on.statics@, s, 0)->0;
                            assert(node.statics@[jj] == on.statics@[jj]);
                        }
                    }
                }
            }
            lemma_register_in_child(on, *node, oc, child, key, m, h, meta);
            lemma_statics_metas_update(on, *node, j as int, child, 0);
        }
        r
    } else {
        let mut child = new_node();
        let ghost oc = child;
        let n: usize = segs.len();
        assert(i < n);
        let r = insert_route(&mut child, segs, i + 1, m, h, meta);
        let skey = segs[i].clone();
        node.statics.push((skey, child));
        proof {
            assert(static_index(on.statics@, seg, 0) is None);
            assert forall|pat: Seq<SegKind>, m2: Method|
                pat.len() > 0 && pat[0] == key[0] implies #[trigger] route_at(on, pat, m2)
                    == route_at(oc, pat.drop_first(), m2) && route_at(*node, pat, m2) == route_at(
                    child,
                    pat.drop_first(),
                    m2,
                ) by {
                lemma_static_index_push(on.statics@, (skey, child), seg, 0);
                lemma_empty_child(oc, on, pat, m2);
            }
            assert forall|pat: Seq<SegKind>, m2: Method|
                !(pat.len() > 0 && pat[0] == key[0]) implies #[trigger] route_at(*node, pat, m2)
                    == route_at(on, pat, m2) by {
                assert(node.param == on.param && node.wildcard == on.wildcard && node.routes
                    == on.routes);
                if pat.len() > 0 {
                    if let SegKind::Lit(s) = pat[0] {
                        lemma_static_index_push(on.statics@, (skey, child), s, 0);
                        lemma_static_index(on.statics@, s, 0);
                        if static_index(on.statics@, s, 0) is Some {
                            let jj = static_index(on.statics@, s, 0)->0;
                            assert(node.statics@[jj] == on.statics@[jj]);
                        }
                    }
                }
            }
            lemma_register_in_child(on, *node, oc, child, key, m, h, meta);
            lemma_statics_metas_push(on, *node, (skey, child), 0);
            lemma_empty_node_no_routes(oc);
            assert(node.param == on.param && node.wildcard == on.wildcard && node.routes
                == on.routes);
        }
        r
    }
}

// ─── Lookup ──────────────────────────────────────────────────────────────────

/// The result of walking the trie from `node` along the path segments `segs`,
/// starting with the captured parameters `params`: the node reached, if any,
/// and the parameters as they stand afterwards. A walk only ends at a node
/// that holds a route, so a branch that leads to an empty node gives way to
/// the next one.
///
/// At each segment the static child is tried first, then the parameter child
/// (which captures the segment, and drops its name again when the rest of
/// the walk fails), then the wildcard child (which captures this and all
/// remaining segments joined by `/`, and ends the walk).
pub open spec fn walk<H>(node: Node<H>, segs: Seq<Seq<char>>, params: Map<Seq<char>, Seq<char>>) -> (
    Option<Node<H>>,
    Map<Seq<char>, Seq<char>>,
)
    decreases segs.len(),
{
    if segs.len() == 0 {
        if node.routes@.len() > 0 {
            (Some(node), params)
        } else {
            (None, params)
        }
    } else {
        let seg = segs[0];
        let rest = segs.drop_first();
        let (r1, p1) = match static_index(node.statics@, seg, 0) {
            Some(j) => walk(node.statics@[j].1, rest, params),
            None => (None, params),
        };
        if r1 is Some {
            (r1, p1)
        } else {
            let (r2, p2) = match node.param {
                Some((name, c)) => {
                    let (r, p) = walk(*c, rest, p1.insert(name@, seg));
                    if r is Some {
                        (r, p)
                    } else {
                        (None, p.remove(name@))
                    }
                },
                None => (None, p1),
            };
            if r2 is Some {
                (r2, p2)
            } else {
                match node.wildcard {
                    Some((name, c)) => (Some(*c), p2.insert(name@, join(segs))),
                    None => (None, p2),
                }
            }
        }
    }
}

/// At a node with a parameter child, when the static branch finds no route
/// for the next segment and the rest of the path resolves through the
/// parameter child, resolution gives that route, with the parameter bound
/// to the segment, whatever wildcard child the node also has.
pub proof fn lemma_param_before_wildcard<H>(
    node: Node<H>,
    segs: Seq<Seq<char>>,
    params: Map<Seq<char>, Seq<char>>,
    name: String,
    child: Box<Node<H>>,
)
    requires
        segs.len() > 0,
        node.param == Some((name, child)),
        static_index(node.statics@, segs[0], 0) matches Some(j) ==> walk(
            node.statics@[j].1,
            segs.drop_first(),
            params,
        ).0 is None,
        walk(
            *child,
            segs.drop_first(),
            (match static_index(node.statics@, segs[0], 0) {
                Some(j) => walk(node.statics@[j].1, segs.drop_first(), params).1,
                None => params,
            }).insert(name@, segs[0]),
        ).0 is Some,
    ensures
        walk(node, segs, params) == walk(
            *child,
            segs.drop_first(),
            (match static_index(node.statics@, segs[0], 0) {
                Some(j) => walk(node.statics@[j].1, segs.drop_first(), params).1,
                None => params,
            }).insert(name@, segs[0]),
        ),
{
}

/// The wildcard child is taken when neither the static branch nor the
/// parameter branch finds a route: it then captures all remaining segments
/// joined by `/`.
pub proof fn lemma_wildcard_last<H>(
    node: Node<H>,
    segs: Seq<Seq<char>>,
    params: Map<Seq<char>, Seq<char>>,
    name: String,
    child: Box<Node<H>>,
)
    requires
        segs.len() > 0,
        node.wildcard == Some((name, child)),
        static_index(node.statics@, segs[0], 0) matches Some(j) ==> walk(
            node.statics@[j].1,
            segs.drop_first(),
            params,
        ).0 is None,
        node.param matches Some((pn, pc)) ==> walk(
            *pc,
            segs.drop_first(),
            (match static_index(node.statics@, segs[0], 0) {
                Some(j) => walk(node.statics@[j].1, segs.drop_first(), params).1,
                None => params,
            }).insert(pn@, segs[0]),
        ).0 is None,
    ensures
        walk(node, segs, params).0 == Some(*child),
        walk(node, segs, params).1.contains_key(name@),
        walk(node, segs, params).1[name@] == join(segs),
{
}

/// The node a lookup found.
pub open spec fn found_node<H>(r: Option<&Node<H>>) -> Option<Node<H>> {
    match r {
        Some(n) => Some(*n),
        None => None,
    }
}

/// The position of the static child of `node` keyed by `seg`.
fn find_static<H>(node: &Node<H>, seg: &str) -> (r: Option<usize>)
    ensures
        crate::strmap::opt_index(r) == static_index(node.statics@, seg@, 0),
        r matches Some(j) ==> j < node.statics@.len(),
{
    proof {
        lemma_static_index(node.statics@, seg@, 0);
    }
    let mut j: usize = 0;
    while j < node.statics.len()
        invariant
            j <= node.statics@.len(),
            forall|l: int| 0 <= l < j ==> node.statics@[l].0@ != seg@,
        decreases node.statics.len() - j,
    {
        if str_eq(node.statics[j].0.as_str(), seg) {
            proof {
                lemma_static_index(node.statics@, seg@, 0);
                if static_index(node.statics@, seg@, 0) is Some {
                    let k = static_index(node.statics@, seg@, 0)->0;
                    if k < j {
                        assert(node.statics@[k].0@ != seg@);
                    } else if k > j {
                        assert(node.statics@[j as int].0@ != seg@);
                    }
                } else {
                    assert(node.statics@[j as int].0@ != seg@);
                }
            }
            return Some(j);
        }
        j = j + 1;
    }
    None
}

/// Walks the trie from `node` along `segs[i..]`, recording captured
/// parameters in `params`.
fn lookup<'a, H>(node: &'a Node<H>, segs: &Vec<String>, i: usize, params: &mut StrMap) -> (r: Option<
    &'a Node<H>,
>)
    requires
        i <= segs@.len(),
    ensures
        found_node(r) == walk(*node, segs_from(segs@, i as int), old(params)@).0,
        final(params)@ == walk(*node, segs_from(segs@, i as int), old(params)@).1,
    decreases segs@.len() - i,
{
    let ghost segv = segs_from(segs@, i as int);
    let ghost p0 = params@;
    if i == segs.len() {
        assert(segv.len() == 0);
        if node.routes.len() > 0 {
            return Some(node);
        } else {
            return None;
        }
    }
    let n: usize = segs.len();
    assert(i < n);
    assert(segv[0] == segs@[i as int]@);
    assert(segv.drop_first() =~= segs_from(segs@, i + 1));
    let seg = &segs[i];
    match find_static(node, seg.as_str()) {
        Some(j) => {
            let res = lookup(&node.statics[j].1, segs, i + 1, params);
            if res.is_some() {
                return res;
            }
        },
        None => {},
    }
    let ghost p1 = params@;
    match &node.param {
        Some((name, child)) => {
            params.insert(name.clone(), seg.clone());
            let res = lookup(&**child, segs, i + 1, params);
            if res.is_some() {
                return res;
            }
            params.remove(name.as_str());
        },
        None => {},
    }
    match &node.wildcard {
        Some((name, child)) => {
            let joined = join_segments(segs, i);
            params.insert(name.clone(), joined);
            Some(&**child)
        },
        None => None,
    }
}

// ─── Listing routes ──────────────────────────────────────────────────────────

/// The metadata of a list of routes, as text.
pub open spec fn metas_view(v: Seq<RouteMeta>) -> Seq<MetaView> {
    v.map_values(|m: RouteMeta| m@)
}

/// The metadata held by a node's own routes, in registration order.
pub open spec fn own_metas<H>(rs: Seq<(Method, H, RouteMeta)>) -> Seq<MetaView> {
    rs.map_values(|r: (Method, H, RouteMeta)| r.2@)
}

/// Every route's metadata in the subtree of `n`: its own routes, then those
/// below each static child in order, then below the parameter child, then
/// below the wildcard child.
pub open spec fn all_metas<H>(n: Node<H>) -> Seq<MetaView>
    decreases n, n.statics@.len() + 1,
{
    own_metas(n.routes@) + statics_metas(n, 0) + match n.param {
        Some((_, c)) => all_metas(*c),
        None => seq![],
    } + match n.wildcard {
        Some((_, c)) => all_metas(*c),
        None => seq![],
    }
}

/// The metadata below the static children of `n` from the `j`-th on.
pub open spec fn statics_metas<H>(n: Node<H>, j: int) -> Seq<MetaView>
    decreases n, n.statics@.len() - j,
{
    if j < 0 || j >= n.statics@.len() {
        seq![]
    } else {
        proof {
            assert(decreases_to!(n => n.statics));
            assert(decreases_to!(n.statics => n.statics@));
            assert(decreases_to!(n.statics@ => n.statics@[j]));
            assert(decreases_to!(n.statics@[j] => n.statics@[j].1));
        }
        all_metas(n.statics@[j].1) + statics_metas(n, j + 1)
    }
}

/// How many routes are held in the subtree of `n`.
pub open spec fn route_count<H>(n: Node<H>) -> nat {
    all_metas(n).len()
}

proof fn lemma_statics_metas_same<H>(a: Node<H>, b: Node<H>, j: int)
    requires
        a.statics@ == b.statics@,
    ensures
        statics_metas(a, j) == statics_metas(b, j),
    decreases a.statics@.len() - j,
{
    if 0 <= j < a.statics@.len() {
        lemma_statics_metas_same(a, b, j + 1);
    }
}

proof fn lemma_statics_metas_update<H>(a: Node<H>, b: Node<H>, k: int, c: Node<H>, j: int)
    requires
        0 <= k < a.statics@.len(),
        0 <= j,
        b.statics@ == a.statics@.update(k, (a.statics@[k].0, c)),
    ensures
        j <= k ==> statics_metas(b, j).len() == statics_metas(a, j).len() + all_metas(c).len()
            - all_metas(a.statics@[k].1).len(),
        j > k ==> statics_metas(b, j) == statics_metas(a, j),
    decreases a.statics@.len() - j,
{
    if j < a.statics@.len() {
        lemma_statics_metas_update(a, b, k, c, j + 1);
        assert(b.statics@.len() == a.statics@.len());
        if j == k {
            assert(b.statics@[j].1 == c);
        } else {
            assert(b.statics@[j] == a.statics@[j]);
        }
        assert(statics_metas(b, j) == all_metas(b.statics@[j].1) + statics_metas(b, j + 1));
        assert(statics_metas(a, j) == all_metas(a.statics@[j].1) + statics_metas(a, j + 1));
    }
}

proof fn lemma_statics_metas_push<H>(a: Node<H>, b: Node<H>, x: (String, Node<H>), j: int)
    requires
        0 <= j <= a.statics@.len(),
        b.statics@ == a.statics@.push(x),
    ensures
        statics_metas(b, j).len() == statics_metas(a, j).len() + all_metas(x.1).len(),
    decreases a.statics@.len() - j,
{
    if j < a.statics@.len() {
        lemma_statics_metas_push(a, b, x, j + 1);
        assert(b.statics@[j] == a.statics@[j]);
        assert(statics_metas(b, j) == all_metas(b.statics@[j].1) + statics_metas(b, j + 1));
        assert(statics_metas(a, j) == all_metas(a.statics@[j].1) + statics_metas(a, j + 1));
    } else {
        assert(b.statics@[j] == x);
        assert(statics_metas(b, j) == all_metas(b.statics@[j].1) + statics_metas(b, j + 1));
        assert(statics_metas(b, j + 1) == Seq::<MetaView>::empty());
    }
}

proof fn lemma_empty_node_no_routes<H>(n: Node<H>)
    requires
        empty_node(n),
    ensures
        route_count(n) == 0,
{
    assert(own_metas(n.routes@) =~= Seq::<MetaView>::empty());
    assert(statics_metas(n, 0) =~= Seq::<MetaView>::empty());
    assert(all_metas(n) =~= Seq::<MetaView>::empty());
}

fn collect_routes<H>(node: &Node<H>, out: &mut Vec<RouteMeta>)
    ensures
        metas_view(final(out)@) == metas_view(old(out)@) + all_metas(*node),
    decreases *node, node.statics@.len() + 1,
{
    let ghost start = metas_view(out@);
    let mut k: usize = 0;
    while k < node.routes.len()
        invariant
            k <= node.routes@.len(),
            metas_view(out@) == start + own_metas(node.routes@.subrange(0, k as int)),
        decreases node.routes.len() - k,
    {
        let meta = node.routes[k].2.clone();
        let ghost before = out@;
        out.push(meta);
        assert(metas_view(out@) =~= metas_view(before).push(meta@));
        assert(own_metas(node.routes@.subrange(0, k + 1)) =~= own_metas(
            node.routes@.subrange(0, k as int),
        ).push(node.routes@[k as int].2@));
        k = k + 1;
    }
    assert(node.routes@.subrange(0, node.routes@.len() as int) =~= node.routes@);
    collect_statics(node, 0, out);
    let ghost mid = metas_view(out@);
    match &node.param {
        Some((_, c)) => {
            collect_routes(&**c, out);
        },
        None => {},
    }
    let ghost mid2 = metas_view(out@);
    match &node.wildcard {
        Some((_, c)) => {
            collect_routes(&**c, out);
        },
        None => {},
    }
    assert(metas_view(out@) =~= start + all_metas(*node));
}

fn collect_statics<H>(node: &Node<H>, j: usize, out: &mut Vec<RouteMeta>)
    requires
        j <= node.statics@.len(),
    ensures
        metas_view(final(out)@) == metas_view(old(out)@) + statics_metas(*node, j as int),
    decreases *node, node.statics@.len() - j,
{
    if j < node.statics.len() {
        proof {
            assert(decreases_to!(*node => node.statics));
            assert(decreases_to!(node.statics => node.statics@));
            assert(decreases_to!(node.statics@ => node.statics@[j as int]));
            assert(decreases_to!(node.statics@[j as int] => node.statics@[j as int].1));
        }
        let ghost start = metas_view(out@);
        collect_routes(&node.statics[j].1, out);
        collect_statics(node, j + 1, out);
        assert(metas_view(out@) =~= start + statics_metas(*node, j as int));
    } else {
        assert(metas_view(out@) =~= metas_view(old(out)@) + statics_metas(*node, j as int));
    }
}

// ─── The router ──────────────────────────────────────────────────────────────

/// A registration of a (method, path) pair that was already registered. The
/// new handler has replaced the old one; the old metadata stays.
#[derive(Debug)]
pub struct DuplicateRoute {
    pub method: Method,
    /// The path recorded in the metadata of the refused registration.
    pub path: String,
}

/// The text of a duplicate-route error.
pub open spec fn duplicate_message(m: Method, path: Seq<char>) -> Seq<char> {
    "Duplicate route: "@ + method_name(m) + seq![' '] + path
}

impl DuplicateRoute {
    /// `Duplicate route: {METHOD} {path}`.
    pub fn message(&self) -> (r: String)
        ensures
            r@ == duplicate_message(self.method, self.path@),
    {
        let mut r = to_string("Duplicate route: ");
        push_str(&mut r, self.method.as_str());
        push_char(&mut r, ' ');
        push_str(&mut r, self.path.as_str());
        r
    }
}

/// The outcome of resolving a request's method and path.
pub enum RouteResolution<'a, H> {
    Found { handler: &'a H, params: StrMap, meta: Option<RouteMeta> },
    NotFound,
    MethodNotAllowed,
}

/// The top-level router: the trie, the middleware chain, a fallback handler
/// and the WebSocket handlers keyed by path.
pub struct Router<H, M, W> {
    root: Node<H>,
    /// Middleware applied to every request, in order.
    middleware: Vec<M>,
    /// Handler for requests that match no route.
    fallback: Option<H>,
    /// WebSocket handlers keyed by path; a path occurs at most once.
    pub ws_handlers: Vec<(String, W)>,
}

/// The pattern shape a registration path takes.
pub open spec fn path_pattern(path: Seq<char>) -> Seq<SegKind> {
    pattern(segments(path))
}

/// How a request resolves: the handler, parameters and metadata of a
/// match, or which failure.
pub enum Verdict<H> {
    Found { handler: H, params: Map<Seq<char>, Seq<char>>, meta: MetaView },
    NotFound,
    MethodNotAllowed,
}

/// How `(m, path)` resolves on the trie `root`.
pub open spec fn resolution<H>(root: Node<H>, m: Method, path: Seq<char>) -> Verdict<H> {
    let (found, params) = walk(root, segments(path), Map::empty());
    match found {
        Some(n) => match route_index(n.routes@, m, 0) {
            Some(k) => Verdict::Found {
                handler: n.routes@[k].1,
                params,
                meta: n.routes@[k].2@,
            },
            None => if n.routes@.len() > 0 {
                Verdict::MethodNotAllowed
            } else {
                Verdict::NotFound
            },
        },
        None => Verdict::NotFound,
    }
}

/// A resolution read as a verdict.
pub open spec fn verdict_of<'a, H>(r: RouteResolution<'a, H>) -> Option<Verdict<H>> {
    match r {
        RouteResolution::Found { handler, params, meta } => match meta {
            Some(mt) => Some(Verdict::Found { handler: *handler, params: params@, meta: mt@ }),
            None => None,
        },
        RouteResolution::NotFound => Some(Verdict::NotFound),
        RouteResolution::MethodNotAllowed => Some(Verdict::MethodNotAllowed),
    }
}

/// The position of `path` among the WebSocket handlers.
pub open spec fn ws_index<W>(ws: Seq<(String, W)>, path: Seq<char>, i: int) -> Option<int>
    decreases ws.len() - i,
{
    if i < 0 || i >= ws.len() {
        None
    } else if ws[i].0@ == path {
        Some(i)
    } else {
        ws_index(ws, path, i + 1)
    }
}

impl<H, M, W> Router<H, M, W> {
    /// The route trie.
    pub closed spec fn trie(&self) -> Node<H> {
        self.root
    }

    /// The middleware chain.
    pub closed spec fn chain(&self) -> Seq<M> {
        self.middleware@
    }

    /// The WebSocket handlers.
    pub closed spec fn ws_entries(&self) -> Seq<(String, W)> {
        self.ws_handlers@
    }

    /// The fallback handler.
    pub closed spec fn fallback_handler(&self) -> Option<H> {
        self.fallback
    }

    /// An empty router.
    pub fn new() -> (r: Self)
        ensures
            empty_node(r.trie()),
            r.chain().len() == 0,
            r.fallback_handler() is None,
            r.ws_entries().len() == 0,
    {
        Router { root: new_node(), middleware: Vec::new(), fallback: None, ws_handlers: Vec::new() }
    }

    /// Registers `handler` for `method` at `path` with `meta`. A second
    /// registration of the same method under the same pattern replaces the
    /// handler, keeps the first metadata, and is reported as an error.
    pub fn add(&mut self, method: Method, path: &str, handler: H, meta: RouteMeta) -> (r: Result<
        (),
        DuplicateRoute,
    >)
        ensures
            registered(old(self).trie(), final(self).trie(), path_pattern(path@), method, handler, meta),
            r is Ok <==> route_at(old(self).trie(), path_pattern(path@), method) is None,
            route_count(final(self).trie()) == route_count(old(self).trie()) + (if r is Ok { 1nat } else { 0nat }),
            r matches Err(e) ==> e.method == method && e.path@ == meta.path@,
            final(self).chain() == old(self).chain(),
            final(self).fallback_handler() == old(self).fallback_handler(),
            final(self).ws_entries() == old(self).ws_entries(),
    {
        let segs = split_path(path);
        assert(segs_from(segs@, 0) =~= strings_view(segs@));
        let mpath = meta.path.clone();
        let fresh = insert_route(&mut self.root, &segs, 0, method, handler, meta);
        if fresh {
            Ok(())
        } else {
            Err(DuplicateRoute { method, path: mpath })
        }
    }

    /// Registers `handler` for `GET` at `path`.
    pub fn get(&mut self, path: &str, handler: H) -> (r: Result<(), DuplicateRoute>)
        ensures
            registered_as(old(self).trie(), final(self).trie(), path_pattern(path@), Method::Get, handler, plain_view(path@, Method::Get)),
            r is Ok <==> route_at(old(self).trie(), path_pattern(path@), Method::Get) is None,
            route_count(final(self).trie()) == route_count(old(self).trie()) + (if r is Ok { 1nat } else { 0nat }),
            r matches Err(e) ==> e.method == Method::Get && e.path@ == path@,
            final(self).chain() == old(self).chain(),
            final(self).fallback_handler() == old(self).fallback_handler(),
            final(self).ws_entries() == old(self).ws_entries(),
    {
        self.add_plain(Method::Get, path, handler)
    }

    /// Registers `handler` for `POST` at `path`.
    pub fn post(&mut self, path: &str, handler: H) -> (r: Result<(), DuplicateRoute>)
        ensures
            registered_as(old(self).trie(), final(self).trie(), path_pattern(path@), Method::Post, handler, plain_view(path@, Method::Post)),
            r is Ok <==> route_at(old(self).trie(), path_pattern(path@), Method::Post) is None,
            route_count(final(self).trie()) == route_count(old(self).trie()) + (if r is Ok { 1nat } else { 0nat }),
            r matches Err(e) ==> e.method == Method::Post && e.path@ == path@,
            final(self).chain() == old(self).chain(),
            final(self).fallback_handler() == old(self).fallback_handler(),
            final(self).ws_entries() == old(self).ws_entries(),
    {
        self.add_plain(Method::Post, path, handler)
    }

    /// Registers `handler` for `PUT` at `path`.
    pub fn put(&mut self, path: &str, handler: H) -> (r: Result<(), DuplicateRoute>)
        ensures
            registered_as(old(self).trie(), final(self).trie(), path_pattern(path@), Method::Put, handler, plain_view(path@, Method::Put)),
            r is Ok <==> route_at(old(self).trie(), path_pattern(path@), Method::Put) is None,
            route_count(final(self).trie()) == route_count(old(self).trie()) + (if r is Ok { 1nat } else { 0nat }),
            r matches Err(e) ==> e.method == Method::Put && e.path@ == path@,
            final(self).chain() == old(self).chain(),
            final(self).fallback_handler() == old(self).fallback_handler(),
            final(self).ws_entries() == old(self).ws_entries(),
    {
        self.add_plain(Method::Put, path, handler)
    }

    /// Registers `handler` for `DELETE` at `path`.
    pub fn delete(&mut self, path: &str, handler: H) -> (r: Result<(), DuplicateRoute>)
        ensures
            registered_as(old(self).trie(), final(self).trie(), path_pattern(path@), Method::Delete, handler, plain_view(path@, Method::Delete)),
            r is Ok <==> route_at(old(self).trie(), path_pattern(path@), Method::Delete) is None,
            route_count(final(self).trie()) == route_count(old(self).trie()) + (if r is Ok { 1nat } else { 0nat }),
            r matches Err(e) ==> e.method == Method::Delete && e.path@ == path@,
            final(self).chain() == old(self).chain(),
            final(self).fallback_handler() == old(self).fallback_handler(),
            final(self).ws_entries() == old(self).ws_entries(),
    {
        self.add_plain(Method::Delete, path, handler)
    }

    /// Registers `handler` for `PATCH` at `path`.
    pub fn patch(&mut self, path: &str, handler: H) -> (r: Result<(), DuplicateRoute>)
        ensures
            registered_as(old(self).trie(), final(self).trie(), path_pattern(path@), Method::Patch, handler, plain_view(path@, Method::Patch)),
            r is Ok <==> route_at(old(self).trie(), path_pattern(path@), Method::Patch) is None,
            route_count(final(self).trie()) == route_count(old(self).trie()) + (if r is Ok { 1nat } else { 0nat }),
            r matches Err(e) ==> e.method == Method::Patch && e.path@ == path@,
            final(self).chain() == old(self).chain(),
            final(self).fallback_handler() == old(self).fallback_handler(),
            final(self).ws_entries() == old(self).ws_entries(),
    {
        self.add_plain(Method::Patch, path, handler)
    }

    fn add_plain(&mut self, method: Method, path: &str, handler: H) -> (r: Result<(), DuplicateRoute>)
        ensures
            registered_as(old(self).trie(), final(self).trie(), path_pattern(path@), method, handler, plain_view(path@, method)),
            r is Ok <==> route_at(old(self).trie(), path_pattern(path@), method) is None,
            route_count(final(self).trie()) == route_count(old(self).trie()) + (if r is Ok { 1nat } else { 0nat }),
            r matches Err(e) ==> e.method == method && e.path@ == path@,
            final(self).chain() == old(self).chain(),
            final(self).fallback_handler() == old(self).fallback_handler(),
            final(self).ws_entries() == old(self).ws_entries(),
    {
        let meta = plain_meta(path, method);
        proof {
            assert(meta@ == plain_view(path@, method)) by {
                assert(strings_view(meta.tags@) =~= Seq::<Seq<char>>::empty());
            }
        }
        let ghost on = self.trie();
        let r = self.add(method, path, handler, meta);
        proof {
            lemma_registered_as(on, self.trie(), path_pattern(path@), method, handler, meta);
        }
        r
    }

    /// Registers a route described by `meta`: its method at its path.
    pub fn add_with_meta(&mut self, meta: RouteMeta, handler: H) -> (r: Result<(), DuplicateRoute>)
        ensures
            registered(old(self).trie(), final(self).trie(), path_pattern(meta.path@), meta.method, handler, meta),
            r is Ok <==> route_at(old(self).trie(), path_pattern(meta.path@), meta.method) is None,
            route_count(final(self).trie()) == route_count(old(self).trie()) + (if r is Ok { 1nat } else { 0nat }),
            r matches Err(e) ==> e.method == meta.method && e.path@ == meta.path@,
            final(self).chain() == old(self).chain(),
            final(self).fallback_handler() == old(self).fallback_handler(),
            final(self).ws_entries() == old(self).ws_entries(),
    {
        let method = meta.method;
        let path = meta.path.clone();
        self.add(method, path.as_str(), handler, meta)
    }

    /// Appends a middleware to the chain.
    pub fn use_middleware(&mut self, mw: M)
        ensures
            final(self).chain() == old(self).chain().push(mw),
            final(self).trie() == old(self).trie(),
            final(self).fallback_handler() == old(self).fallback_handler(),
            final(self).ws_entries() == old(self).ws_entries(),
    {
        self.middleware.push(mw);
    }

    /// Puts a middleware at the front of the chain.
    pub fn prepend_middleware(&mut self, mw: M)
        ensures
            final(self).chain() == seq![mw] + old(self).chain(),
            final(self).trie() == old(self).trie(),
            final(self).fallback_handler() == old(self).fallback_handler(),
            final(self).ws_entries() == old(self).ws_entries(),
    {
        self.middleware.insert(0, mw);
        assert(self.middleware@ =~= seq![mw] + old(self).middleware@);
    }

    /// Sets the handler for requests that match no route.
    pub fn set_fallback(&mut self, handler: H)
        ensures
            final(self).fallback_handler() == Some(handler),
            final(self).trie() == old(self).trie(),
            final(self).chain() == old(self).chain(),
            final(self).ws_entries() == old(self).ws_entries(),
    {
        self.fallback = Some(handler);
    }

    /// The fallback handler, if one is set.
    pub fn fallback(&self) -> (r: Option<&H>)
        ensures
            r is Some <==> self.fallback_handler() is Some,
            r matches Some(h) ==> self.fallback_handler() == Some(*h),
    {
        match &self.fallback {
            Some(h) => Some(h),
            None => None,
        }
    }

    /// The middleware chain, in order.
    pub fn middleware(&self) -> (r: &[M])
        ensures
            r@ == self.chain(),
    {
        self.middleware.as_slice()
    }

    /// Resolves a request's method and path to a handler with the captured
    /// parameters and the route's metadata, or says why none applies.
    pub fn resolve<'a>(&'a self, method: Method, path: &str) -> (r: RouteResolution<'a, H>)
        ensures
            verdict_of(r) == Some(resolution(self.trie(), method, path@)),
    {
        let segs = split_path(path);
        assert(segs_from(segs@, 0) =~= strings_view(segs@));
        let mut params = StrMap::new();
        match lookup(&self.root, &segs, 0, &mut params) {
            Some(node) => match find_route(node, method) {
                Some(k) => RouteResolution::Found {
                    handler: &node.routes[k].1,
                    params,
                    meta: Some(node.routes[k].2.clone()),
                },
                None => {
                    if node.routes.len() > 0 {
                        RouteResolution::MethodNotAllowed
                    } else {
                        RouteResolution::NotFound
                    }
                },
            },
            None => RouteResolution::NotFound,
        }
    }

    /// The metadata of every registered route.
    pub fn routes(&self) -> (r: Vec<RouteMeta>)
        ensures
            metas_view(r@) == all_metas(self.trie()),
            r@.len() == route_count(self.trie()),
    {
        let mut out: Vec<RouteMeta> = Vec::new();
        collect_routes(&self.root, &mut out);
        assert(metas_view(Seq::<RouteMeta>::empty()) =~= Seq::<MetaView>::empty());
        assert(Seq::<MetaView>::empty() + all_metas(self.root) =~= all_metas(self.root));
        out
    }

    /// Registers the WebSocket handler for `path`, replacing any it had.
    pub fn ws(&mut self, path: &str, handler: W)
        ensures
            match ws_index(old(self).ws_entries(), path@, 0) {
                Some(k) => final(self).ws_entries() == old(self).ws_entries().update(
                    k,
                    (old(self).ws_entries()[k].0, handler),
                ),
                None => final(self).ws_entries().len() == old(self).ws_entries().len() + 1
                    && final(self).ws_entries().drop_last() == old(self).ws_entries()
                    && final(self).ws_entries().last().0@ == path@
                    && final(self).ws_entries().last().1 == handler,
            },
            final(self).trie() == old(self).trie(),
            final(self).chain() == old(self).chain(),
            final(self).fallback_handler() == old(self).fallback_handler(),
    {
        match find_ws(&self.ws_handlers, path) {
            Some(k) => {
                let (key, _) = self.ws_handlers.remove(k);
                self.ws_handlers.insert(k, (key, handler));
                assert(self.ws_handlers@ =~= old(self).ws_handlers@.update(
                    k as int,
                    (old(self).ws_handlers@[k as int].0, handler),
                ));
            },
            None => {
                self.ws_handlers.push((to_string(path), handler));
                assert(self.ws_handlers@.drop_last() =~= old(self).ws_handlers@);
            },
        }
    }

    /// The WebSocket handler registered for `path`.
    pub fn ws_handler(&self, path: &str) -> (r: Option<&W>)
        ensures
            r is Some <==> ws_index(self.ws_entries(), path@, 0) is Some,
            r matches Some(w) ==> *w == self.ws_entries()[ws_index(self.ws_entries(), path@, 0)->0].1,
    {
        match find_ws(&self.ws_handlers, path) {
            Some(k) => Some(&self.ws_handlers[k].1),
            None => None,
        }
    }
}

impl<H, M, W> Default for Router<H, M, W> {
    fn default() -> (r: Self)
        ensures
            empty_node(r.trie()),
            r.chain().len() == 0,
            r.fallback_handler() is None,
            r.ws_entries().len() == 0,
    {
        Router::new()
    }
}

/// The position of `path` among the WebSocket handlers.
fn find_ws<W>(ws: &Vec<(String, W)>, path: &str) -> (r: Option<usize>)
    ensures
        crate::strmap::opt_index(r) == ws_index(ws@, path@, 0),
        r matches Some(k) ==> k < ws@.len(),
{
    let mut k: usize = 0;
    while k < ws.len()
        invariant
            k <= ws@.len(),
            ws_index(ws@, path@, 0) == ws_index(ws@, path@, k as int),
        decreases ws.len() - k,
    {
        if str_eq(ws[k].0.as_str(), path) {
            return Some(k);
        }
        k = k + 1;
    }
    None
}

/// The position of the route for `m` at `node`.
fn find_route<H>(node: &Node<H>, m: Method) -> (r: Option<usize>)
    ensures
        crate::strmap::opt_index(r) == route_index(node.routes@, m, 0),
        r matches Some(k) ==> k < node.routes@.len(),
{
    let mut k: usize = 0;
    while k < node.routes.len()
        invariant
            k <= node.routes@.len(),
            route_index(node.routes@, m, 0) == route_index(node.routes@, m, k as int),
        decreases node.routes.len() - k,
    {
        if node.routes[k].0 == m {
            return Some(k);
        }
        k = k + 1;
    }
    None
}

/// The metadata view of a plain registration of `m` at `path`.
pub open spec fn plain_view(path: Seq<char>, m: Method) -> MetaView {
    MetaView { path, method: m, request_schema: None, response_schema: None, summary: None, tags: seq![] }
}

/// A route's handler with its metadata as text.
pub open spec fn route_view<H>(o: Option<(H, RouteMeta)>) -> Option<(H, MetaView)> {
    match o {
        Some((h, mt)) => Some((h, mt@)),
        None => None,
    }
}

/// How a registration changes the routes held under a node, metadata read
/// as text.
pub open spec fn registered_as<H>(
    old_node: Node<H>,
    new_node: Node<H>,
    key: Seq<SegKind>,
    m: Method,
    h: H,
    mv: MetaView,
) -> bool {
    forall|pat: Seq<SegKind>, m2: Method|
        #![trigger route_at(new_node, pat, m2)]
        route_view(route_at(new_node, pat, m2)) == if pat == key && m2 == m {
            Some(
                (
                    h,
                    match route_at(old_node, key, m) {
                        Some(o) => o.1@,
                        None => mv,
                    },
                ),
            )
        } else {
            route_view(route_at(old_node, pat, m2))
        }
}

pub proof fn lemma_registered_as<H>(
    old_node: Node<H>,
    new_node: Node<H>,
    key: Seq<SegKind>,
    m: Method,
    h: H,
    meta: RouteMeta,
)
    requires
        registered(old_node, new_node, key, m, h, meta),
    ensures
        registered_as(old_node, new_node, key, m, h, meta@),
{
}

// ─── Laws ────────────────────────────────────────────────────────────────────

proof fn lemma_pattern_drop_first(segs: Seq<Seq<char>>)
    requires
        segs.len() > 0,
    ensures
        pattern(segs).drop_first() == pattern(segs.drop_first()),
        pattern(segs)[0] == seg_kind(segs[0]),
{
    assert(pattern(segs).drop_first() =~= pattern(segs.drop_first()));
}

/// Walking a literal path follows the static children exactly, and captures
/// nothing.
proof fn lemma_walk_literal<H>(node: Node<H>, segs: Seq<Seq<char>>, params: Map<Seq<char>, Seq<char>>)
    requires
        all_literal(segs),
        node_at(node, pattern(segs)) is Some,
        node_at(node, pattern(segs))->0.routes@.len() > 0,
    ensures
        walk(node, segs, params) == (node_at(node, pattern(segs)), params),
    decreases segs.len(),
{
    if segs.len() > 0 {
        lemma_pattern_drop_first(segs);
        assert(seg_kind(segs[0]) == SegKind::Lit(segs[0]));
        let j = static_index(node.statics@, segs[0], 0)->0;
        assert(all_literal(segs.drop_first())) by {
            assert forall|i: int| 0 <= i < segs.drop_first().len() implies seg_kind(
                #[trigger] segs.drop_first()[i],
            ) == SegKind::Lit(segs.drop_first()[i]) by {
                assert(segs.drop_first()[i] == segs[i + 1]);
            }
        }
        lemma_walk_literal(node.statics@[j].1, segs.drop_first(), params);
    }
}

/// A route registered under a path without parameters or wildcards resolves
/// to its handler, with no captured parameters and the route's metadata.
pub proof fn law_literal_route_resolves<H>(root: Node<H>, m: Method, path: Seq<char>)
    requires
        all_literal(segments(path)),
        route_at(root, path_pattern(path), m) is Some,
    ensures
        resolution(root, m, path) == (Verdict::Found {
            handler: (route_at(root, path_pattern(path), m)->0).0,
            params: Map::<Seq<char>, Seq<char>>::empty(),
            meta: (route_at(root, path_pattern(path), m)->0).1@,
        }),
{
    lemma_route_index(node_at(root, path_pattern(path))->0.routes@, m, 0);
    lemma_walk_literal(root, segments(path), Map::empty());
}

/// A path registered for some methods, asked for with another one, is
/// answered "method not allowed".
pub proof fn law_other_method_not_allowed<H>(root: Node<H>, m: Method, other: Method, path: Seq<char>)
    requires
        all_literal(segments(path)),
        route_at(root, path_pattern(path), m) is Some,
        route_at(root, path_pattern(path), other) is None,
    ensures
        resolution(root, other, path) == Verdict::<H>::MethodNotAllowed,
{
    let n = node_at(root, path_pattern(path))->0;
    lemma_route_index(n.routes@, m, 0);
    lemma_walk_literal(root, segments(path), Map::empty());
}

/// A router with no routes answers every request "not found".
pub proof fn law_empty_router_not_found<H>(root: Node<H>, m: Method, path: Seq<char>)
    requires
        empty_node(root),
    ensures
        resolution(root, m, path) == Verdict::<H>::NotFound,
{
    let segs = segments(path);
    if segs.len() > 0 {
        assert(static_index(root.statics@, segs[0], 0) is None);
    }
}

/// After registering a handler under a path without parameters or
/// wildcards, resolving that method and path finds that handler.
pub proof fn law_registered_route_resolves<H>(
    before: Node<H>,
    after: Node<H>,
    m: Method,
    path: Seq<char>,
    h: H,
    meta: RouteMeta,
)
    requires
        registered(before, after, path_pattern(path), m, h, meta),
        all_literal(segments(path)),
    ensures
        resolution(after, m, path) == (Verdict::Found {
            handler: h,
            params: Map::<Seq<char>, Seq<char>>::empty(),
            meta: kept_meta(before, path_pattern(path), m, meta)@,
        }),
{
    assert(route_at(after, path_pattern(path), m) == Some((h, kept_meta(before, path_pattern(path), m, meta))));
    law_literal_route_resolves(after, m, path);
}

/// Registering one route leaves every other (pattern, method) pair resolving
/// to what it was registered with before.
pub proof fn law_registration_keeps_others<H>(
    before: Node<H>,
    after: Node<H>,
    key: Seq<SegKind>,
    m: Method,
    h: H,
    meta: RouteMeta,
    pat: Seq<SegKind>,
    m2: Method,
)
    requires
        registered(before, after, key, m, h, meta),
        pat != key || m2 != m,
    ensures
        route_at(after, pat, m2) == route_at(before, pat, m2),
{
    assert(route_at(after, pat, m2) == route_at(before, pat, m2));
}

} // verus!
