//! Conventions applied by auto-configuration: the route of each page file,
//! the TypeScript declarations of the registered routes, and the defaults.
use vstd::prelude::*;
use crate::frontend::parser::{strip_all_suffixes, strip_suffixes};
use crate::request::{method_name, Method};
use crate::router::{
    join, join_segments, lemma_registered_as, metas_view, path_pattern, registered_as, segments,
    split_path, DuplicateRoute, MetaView, RouteMeta, Router,
};
use crate::text::{
    chars_end_with, chars_of, chars_start_with, push_char, push_str, str_eq, string_from_chars,
    string_from_range, strings_view, to_string,
};

verus! {

// ─── Configuration ───────────────────────────────────────────────────────────

/// Where auto-configuration looks for things.
#[derive(Debug, Clone)]
pub struct AutoConfig {
    /// Serve files from this directory if it exists.
    pub public_dir: String,
    /// Register page files from this directory.
    pub pages_dir: String,
    /// Write the TypeScript route declarations here.
    pub types_path: String,
    /// Inject the live-reload script into HTML responses.
    pub livereload: bool,
}

impl Default for AutoConfig {
    fn default() -> (r: AutoConfig)
        ensures
            r.public_dir@ == "public"@,
            r.pages_dir@ == "src/pages"@,
            r.types_path@ == "frontend/routes.d.ts"@,
            r.livereload,
    {
        AutoConfig {
            public_dir: to_string("public"),
            pages_dir: to_string("src/pages"),
            types_path: to_string("frontend/routes.d.ts"),
            livereload: true,
        }
    }
}

// ─── Page routes ─────────────────────────────────────────────────────────────

/// `s` with each `\` written `/`.
pub open spec fn forward_slashes(s: Seq<char>) -> Seq<char> {
    s.map_values(|c: char| if c == '\\' { '/' } else { c })
}

/// The route text of one path segment: `[...name]` is `*name`, `[name]` is
/// `:name`, anything else stays.
pub open spec fn seg_route(seg: Seq<char>) -> Seq<char> {
    if crate::text::starts_with(seg, "[..."@) && crate::text::ends_with(
        seg.subrange(4, seg.len() as int),
        "]"@,
    ) {
        seq!['*'] + seg.subrange(4, seg.len() - 1)
    } else if crate::text::starts_with(seg, "["@) && crate::text::ends_with(
        seg.subrange(1, seg.len() as int),
        "]"@,
    ) {
        seq![':'] + seg.subrange(1, seg.len() - 1)
    } else {
        seg
    }
}

/// The route of a page file at `rel` below the pages directory: `.kungfu`
/// dropped, segments converted, `/index` at the end dropped, no trailing
/// `/` except for the root.
pub open spec fn auto_route(rel: Seq<char>) -> Seq<char> {
    let p = strip_suffixes(forward_slashes(rel), ".kungfu"@);
    let o1 = seq!['/'] + join(segments(p).map_values(|g: Seq<char>| seg_route(g)));
    let o2 = if crate::text::ends_with(o1, "/index"@) {
        strip_suffixes(o1, "/index"@)
    } else {
        o1
    };
    let o3 = if o2.len() == 0 {
        seq!['/']
    } else {
        o2
    };
    if o3 != seq!['/'] {
        strip_suffixes(o3, seq!['/'])
    } else {
        o3
    }
}

/// The characters of `s` with each `\` written `/`.
pub fn forward_slash_chars(s: &str) -> (r: Vec<char>)
    ensures
        r@ == forward_slashes(s@),
{
    let cs = chars_of(s);
    let mut fwd: Vec<char> = Vec::new();
    let mut i: usize = 0;
    while i < cs.len()
        invariant
            i <= cs@.len(),
            fwd@ == forward_slashes(cs@.subrange(0, i as int)),
        decreases cs.len() - i,
    {
        fwd.push(if cs[i] == '\\' { '/' } else { cs[i] });
        assert(forward_slashes(cs@.subrange(0, i + 1)) =~= forward_slashes(cs@.subrange(0, i as int)).push(
            if cs@[i as int] == '\\' { '/' } else { cs@[i as int] },
        ));
        i = i + 1;
    }
    assert(cs@.subrange(0, cs@.len() as int) =~= cs@);
    fwd
}

fn segment_route(seg: &str) -> (r: String)
    ensures
        r@ == seg_route(seg@),
{
    let cs = chars_of(seg);
    let n = cs.len();
    let open_rest = chars_of("[...");
    let bracket = chars_of("[");
    let close = chars_of("]");
    proof {
        reveal_strlit("[...");
        reveal_strlit("[");
        reveal_strlit("]");
    }
    if chars_start_with(&cs, &open_rest) && chars_end_with(&cs[4..n], &close) {
        let mut out = String::new();
        push_char(&mut out, '*');
        let name = string_from_range(&cs, 4, n - 1);
        push_str(&mut out, name.as_str());
        out
    } else if chars_start_with(&cs, &bracket) && chars_end_with(&cs[1..n], &close) {
        let mut out = String::new();
        push_char(&mut out, ':');
        let name = string_from_range(&cs, 1, n - 1);
        push_str(&mut out, name.as_str());
        out
    } else {
        to_string(seg)
    }
}

/// The route of a page file at `rel` below the pages directory
/// (`users/[id].kungfu` → `/users/:id`, `assets/[...path].kungfu` →
/// `/assets/*path`, `index.kungfu` → `/`).
pub fn derive_route_path(rel: &str) -> (r: String)
    ensures
        r@ == auto_route(rel@),
{
    let fwd = forward_slash_chars(rel);
    let n = fwd.len();
    assert(fwd@.subrange(0, n as int) =~= fwd@);
    let e = strip_all_suffixes(&fwd, 0, n, ".kungfu");
    let p = string_from_range(&fwd, 0, e);
    let segs = split_path(p.as_str());
    let mut routes: Vec<String> = Vec::new();
    let mut k: usize = 0;
    while k < segs.len()
        invariant
            k <= segs@.len(),
            strings_view(routes@) == strings_view(segs@).subrange(0, k as int).map_values(
                |g: Seq<char>| seg_route(g),
            ),
        decreases segs.len() - k,
    {
        let ghost before = strings_view(routes@);
        let r = segment_route(segs[k].as_str());
        assert(r@ == seg_route(strings_view(segs@)[k as int]));
        routes.push(r);
        assert(strings_view(routes@) =~= before.push(r@));
        assert(strings_view(segs@).subrange(0, k + 1).map_values(|g: Seq<char>| seg_route(g))
            =~= strings_view(segs@).subrange(0, k as int).map_values(|g: Seq<char>| seg_route(g)).push(
            seg_route(strings_view(segs@)[k as int]),
        ));
        k = k + 1;
    }
    assert(strings_view(segs@).subrange(0, segs@.len() as int) =~= strings_view(segs@));
    let ghost gp = strip_suffixes(forward_slashes(rel@), ".kungfu"@);
    assert(p@ == gp);
    let joined = join_segments(&routes, 0);
    assert(strings_view(routes@).subrange(0, routes@.len() as int) =~= strings_view(routes@));
    let mut o1 = String::new();
    push_char(&mut o1, '/');
    push_str(&mut o1, joined.as_str());
    let ghost go1 = seq!['/'] + join(segments(gp).map_values(|g: Seq<char>| seg_route(g)));
    assert(o1@ =~= go1);
    let c1 = chars_of(o1.as_str());
    let n1 = c1.len();
    assert(c1@.subrange(0, n1 as int) =~= c1@);
    let idx = chars_of("/index");
    let e2 = if chars_end_with(&c1, &idx) {
        strip_all_suffixes(&c1, 0, n1, "/index")
    } else {
        n1
    };
    let o2 = string_from_range(&c1, 0, e2);
    let ghost go2 = if crate::text::ends_with(go1, "/index"@) {
        strip_suffixes(go1, "/index"@)
    } else {
        go1
    };
    assert(o2@ == go2);
    let o3 = if e2 == 0 {
        to_string("/")
    } else {
        o2
    };
    proof {
        reveal_strlit("/");
    }
    let ghost go3 = if go2.len() == 0 {
        seq!['/']
    } else {
        go2
    };
    assert(o3@ == go3);
    let c3 = chars_of(o3.as_str());
    let n3 = c3.len();
    assert(c3@.subrange(0, n3 as int) =~= c3@);
    if !(n3 == 1 && c3[0] == '/') {
        proof {
            if c3@ == seq!['/'] {
                assert(c3@[0] == '/');
            }
        }
        let e3 = strip_all_suffixes(&c3, 0, n3, "/");
        assert("/"@ == seq!['/']);
        string_from_range(&c3, 0, e3)
    } else {
        assert(c3@ =~= seq!['/']);
        o3
    }
}

// ─── Type declarations ───────────────────────────────────────────────────────

/// The upper-case mapping of a character, as `char::to_uppercase` gives it
/// (one or more characters).
pub uninterp spec fn upper_case(c: char) -> Seq<char>;

/// `char::to_uppercase`, collected: the Unicode upper-case mapping of `c`.
/// An ASCII lower-case letter maps to its upper-case letter, and any other
/// ASCII character to itself; beyond ASCII the mapping is left to std.
#[verifier::external_body]
fn char_upper(c: char) -> (r: String)
    ensures
        r@ == upper_case(c),
        'a' <= c <= 'z' ==> r@ == seq![((c as u32) - 32) as char],
        (c as u32) < 128 && !('a' <= c <= 'z') ==> r@ == seq![c],
{
    c.to_uppercase().collect()
}

/// `s` with its first character upper-cased.
pub open spec fn capitalized(s: Seq<char>) -> Seq<char> {
    if s.len() == 0 {
        seq![]
    } else {
        upper_case(s[0]) + s.drop_first()
    }
}

/// `s` with its first character upper-cased (`hello` → `Hello`).
pub fn capitalize(s: &str) -> (r: String)
    ensures
        r@ == capitalized(s@),
{
    let cs = chars_of(s);
    if cs.len() == 0 {
        return String::new();
    }
    let n = cs.len();
    let mut out = char_upper(cs[0]);
    let rest = string_from_range(&cs, 1, n);
    push_str(&mut out, rest.as_str());
    assert(cs@.subrange(1, n as int) =~= cs@.drop_first());
    out
}

/// The word a method contributes to an interface name.
pub open spec fn method_title(m: Method) -> Seq<char> {
    match m {
        Method::Get => "Get"@,
        Method::Post => "Post"@,
        Method::Put => "Put"@,
        Method::Delete => "Delete"@,
        Method::Patch => "Patch"@,
        _ => "Other"@,
    }
}

/// The word a path segment contributes to an interface name: `:id` gives
/// `ById`, `*path` gives `StarPath`, `users` gives `Users`.
pub open spec fn segment_title(seg: Seq<char>) -> Seq<char> {
    if seg.len() > 0 && seg[0] == ':' {
        "By"@ + capitalized(seg.drop_first())
    } else if seg.len() > 0 && seg[0] == '*' {
        "Star"@ + capitalized(seg.drop_first())
    } else {
        capitalized(seg)
    }
}

/// The texts one after another.
pub open spec fn concat(ss: Seq<Seq<char>>) -> Seq<char>
    decreases ss.len(),
{
    if ss.len() == 0 {
        seq![]
    } else {
        concat(ss.drop_last()) + ss.last()
    }
}

/// The TypeScript interface name of a route: method word, then one word per
/// path segment (`GET /users/:id` → `GetUsersById`).
pub open spec fn interface_name(m: MetaView) -> Seq<char> {
    method_title(m.method) + concat(segments(m.path).map_values(|g: Seq<char>| segment_title(g)))
}

fn method_word(m: Method) -> (r: &'static str)
    ensures
        r@ == method_title(m),
{
    match m {
        Method::Get => "Get",
        Method::Post => "Post",
        Method::Put => "Put",
        Method::Delete => "Delete",
        Method::Patch => "Patch",
        _ => "Other",
    }
}

fn segment_word(seg: &str) -> (r: String)
    ensures
        r@ == segment_title(seg@),
{
    let cs = chars_of(seg);
    let n = cs.len();
    if n > 0 && (cs[0] == ':' || cs[0] == '*') {
        let mut out = if cs[0] == ':' {
            to_string("By")
        } else {
            to_string("Star")
        };
        let name = string_from_range(&cs, 1, n);
        assert(cs@.subrange(1, n as int) =~= cs@.drop_first());
        push_str(&mut out, capitalize(name.as_str()).as_str());
        out
    } else {
        capitalize(seg)
    }
}

/// The TypeScript interface name of a route.
pub fn derive_interface_name(meta: &RouteMeta) -> (r: String)
    ensures
        r@ == interface_name(meta@),
{
    let segs = split_path(meta.path.as_str());
    let ghost sv = strings_view(segs@);
    let mut out = to_string(method_word(meta.method));
    let ghost head = out@;
    let mut k: usize = 0;
    while k < segs.len()
        invariant
            k <= segs@.len(),
            sv == strings_view(segs@),
            out@ == head + concat(sv.subrange(0, k as int).map_values(|g: Seq<char>| segment_title(g))),
        decreases segs.len() - k,
    {
        let w = segment_word(segs[k].as_str());
        let ghost before = out@;
        push_str(&mut out, w.as_str());
        proof {
            let f = |g: Seq<char>| segment_title(g);
            let m1 = sv.subrange(0, k + 1).map_values(f);
            assert(m1.drop_last() =~= sv.subrange(0, k as int).map_values(f));
            assert(m1.last() == segment_title(sv[k as int]));
            assert(out@ =~= head + concat(m1));
        }
        k = k + 1;
    }
    assert(sv.subrange(0, sv.len() as int) =~= sv);
    out
}

/// The declaration of one route in the route types file.
pub open spec fn route_decl(m: MetaView) -> Seq<char> {
    "  interface "@ + interface_name(m) + " {\n"@ + "    path: '"@ + m.path + "';\n"@
        + "    method: '"@ + method_name(m.method) + "';\n"@ + "    response: unknown;\n"@
        + "  }\n"@
}

/// The declarations of the routes, one after another.
pub open spec fn route_decls(ms: Seq<MetaView>) -> Seq<char>
    decreases ms.len(),
{
    if ms.len() == 0 {
        seq![]
    } else {
        route_decls(ms.drop_last()) + route_decl(ms.last())
    }
}

/// The route types file: a header, then a `KungfuRoutes` namespace holding
/// one interface per route.
pub open spec fn types_text(ms: Seq<MetaView>) -> Seq<char> {
    "// Auto-generated by Kungfu auto-configure. Do not edit.\n"@
        + "declare namespace KungfuRoutes {\n"@ + route_decls(ms) + "}\n"@
}

/// The TypeScript declarations of the given routes.
#[verifier::rlimit(40)]
pub fn generate_types(routes: &[RouteMeta]) -> (r: String)
    ensures
        r@ == types_text(metas_view(routes@)),
{
    let ghost mv = metas_view(routes@);
    let mut out = to_string("// Auto-generated by Kungfu auto-configure. Do not edit.\n");
    push_str(&mut out, "declare namespace KungfuRoutes {\n");
    let ghost head = out@;
    let mut k: usize = 0;
    while k < routes.len()
        invariant
            k <= routes@.len(),
            mv == metas_view(routes@),
            out@ == head + route_decls(mv.subrange(0, k as int)),
        decreases routes.len() - k,
    {
        let meta = &routes[k];
        let ghost before = out@;
        push_str(&mut out, "  interface ");
        push_str(&mut out, derive_interface_name(meta).as_str());
        push_str(&mut out, " {\n");
        push_str(&mut out, "    path: '");
        push_str(&mut out, meta.path.as_str());
        push_str(&mut out, "';\n");
        push_str(&mut out, "    method: '");
        push_str(&mut out, meta.method.as_str());
        push_str(&mut out, "';\n");
        push_str(&mut out, "    response: unknown;\n");
        push_str(&mut out, "  }\n");
        proof {
            let pre = mv.subrange(0, k + 1);
            assert(pre.drop_last() =~= mv.subrange(0, k as int));
            assert(pre.last() == meta@);
            assert(out@ =~= head + route_decls(pre));
        }
        k = k + 1;
    }
    assert(mv.subrange(0, mv.len() as int) =~= mv);
    push_str(&mut out, "}\n");
    out
}

// ─── Page registration ───────────────────────────────────────────────────────

/// The metadata a page route is registered with.
pub open spec fn page_meta(route: Seq<char>) -> MetaView {
    MetaView {
        path: route,
        method: Method::Get,
        request_schema: None,
        response_schema: None,
        summary: Some("SSR page: "@ + route),
        tags: seq!["pages"@],
    }
}

/// The metadata of a page route.
pub fn page_route_meta(route: &str) -> (r: RouteMeta)
    ensures
        r@ == page_meta(route@),
        r.path@ == route@,
        r.method == Method::Get,
{
    let mut summary = to_string("SSR page: ");
    push_str(&mut summary, route);
    let mut tags: Vec<String> = Vec::new();
    tags.push(to_string("pages"));
    let r = RouteMeta {
        path: to_string(route),
        method: Method::Get,
        request_schema: None,
        response_schema: None,
        summary: Some(summary),
        tags,
    };
    assert(crate::text::strings_view(r.tags@) =~= seq!["pages"@]);
    r
}

/// Registers the page at `rel` below the pages directory as a `GET` route
/// served by `handler`; a route already registered there keeps its
/// metadata and takes the new handler.
pub fn register_page<H, M, W>(router: &mut Router<H, M, W>, rel: &str, handler: H) -> (r: Result<
    (),
    DuplicateRoute,
>)
    ensures
        registered_as(
            old(router).trie(),
            final(router).trie(),
            path_pattern(auto_route(rel@)),
            Method::Get,
            handler,
            page_meta(auto_route(rel@)),
        ),
        r is Ok <==> crate::router::route_at(
            old(router).trie(),
            path_pattern(auto_route(rel@)),
            Method::Get,
        ) is None,
        final(router).chain() == old(router).chain(),
        final(router).fallback_handler() == old(router).fallback_handler(),
        final(router).ws_entries() == old(router).ws_entries(),
{
    let route = derive_route_path(rel);
    let meta = page_route_meta(route.as_str());
    let ghost on = router.trie();
    let ghost mt = meta;
    let r = router.add_with_meta(meta, handler);
    proof {
        lemma_registered_as(on, router.trie(), path_pattern(auto_route(rel@)), Method::Get, handler, mt);
    }
    r
}

} // verus!
