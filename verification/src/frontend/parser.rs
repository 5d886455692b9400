//! `.kungfu` page files: a TypeScript section exporting `data` and
//! `template`, then optionally, after a `---` line, static HTML.
use vstd::prelude::*;
use crate::text::{
    chars_end_with, chars_of, chars_start_with, find, find_chars, lemma_find_from, push_char,
    string_from_range, to_string, trim, trimmed, trimmed_range,
};

verus! {

/// Why a page file is refused.
#[derive(Debug)]
pub enum ParseError {
    MissingDataExport,
    MissingTemplateExport,
    Syntax(String),
}

/// The message of a page-file error.
pub open spec fn parse_error_text(e: ParseError) -> Seq<char> {
    match e {
        ParseError::MissingDataExport => "missing data export"@,
        ParseError::MissingTemplateExport => "missing template export"@,
        ParseError::Syntax(s) => "syntax error: "@ + s@,
    }
}

impl ParseError {
    /// The error's message.
    pub fn message(&self) -> (r: String)
        ensures
            r@ == parse_error_text(*self),
    {
        match self {
            ParseError::MissingDataExport => to_string("missing data export"),
            ParseError::MissingTemplateExport => to_string("missing template export"),
            ParseError::Syntax(s) => {
                let mut m = to_string("syntax error: ");
                crate::text::push_str(&mut m, s.as_str());
                m
            },
        }
    }
}

/// A parsed page file.
#[derive(Debug, Clone)]
pub struct KungfuFile {
    /// The TypeScript code (everything before `---`), trimmed.
    pub code: String,
    /// The static HTML after `---`, trimmed, when there is any.
    pub static_html: Option<String>,
    /// The route the file serves, e.g. `/users/:id`.
    pub route_path: String,
}

/// `s` with every leading copy of `p` removed (`trim_start_matches`).
pub open spec fn strip_prefixes(s: Seq<char>, p: Seq<char>) -> Seq<char>
    decreases s.len(),
{
    if p.len() > 0 && crate::text::starts_with(s, p) {
        strip_prefixes(s.subrange(p.len() as int, s.len() as int), p)
    } else {
        s
    }
}

/// `s` with every trailing copy of `p` removed (`trim_end_matches`).
pub open spec fn strip_suffixes(s: Seq<char>, p: Seq<char>) -> Seq<char>
    decreases s.len(),
{
    if p.len() > 0 && crate::text::ends_with(s, p) {
        strip_suffixes(s.subrange(0, s.len() - p.len()), p)
    } else {
        s
    }
}

/// Path text with each catch-all `[...name]` written `*name` and each
/// other `[name]` written `:name` (an unclosed `[` takes the rest of the
/// text as the name).
pub open spec fn bracket_params(s: Seq<char>) -> Seq<char>
    decreases s.len(),
{
    if s.len() == 0 {
        seq![]
    } else if s[0] == '[' && s.len() > 3 && s[1] == '.' && s[2] == '.' && s[3] == '.' {
        seq!['*'] + param_rest(s.subrange(4, s.len() as int))
    } else if s[0] == '[' {
        seq![':'] + param_rest(s.drop_first())
    } else {
        seq![s[0]] + bracket_params(s.drop_first())
    }
}

/// The rest of a `[name]` segment: the name up to `]`, then the text after.
pub open spec fn param_rest(s: Seq<char>) -> Seq<char>
    decreases s.len(),
{
    match find(s, seq![']']) {
        Some(j) => {
            proof {
                lemma_find_from(s, seq![']'], 0);
            }
            s.subrange(0, j) + bracket_params(s.subrange(j + 1, s.len() as int))
        },
        None => s,
    }
}

/// The route of a page file at `source` (relative to the project): the
/// `./`, `src/pages/` and `pages/` prefixes and the `.kungfu` extension are
/// dropped, an `index` page serves its directory, `[...name]` becomes
/// `*name` and `[name]` becomes `:name`,
/// and the result starts with `/` and does not end with one (unless it is
/// `/`).
pub open spec fn page_route(source: Seq<char>) -> Seq<char> {
    let p0 = strip_suffixes(
        strip_prefixes(
            strip_prefixes(strip_prefixes(source, "./"@), "src/pages/"@),
            "pages/"@,
        ),
        ".kungfu"@,
    );
    let p1 = if p0 == "index"@ {
        seq![]
    } else if crate::text::ends_with(p0, "/index"@) {
        p0.subrange(0, p0.len() - "/index"@.len())
    } else {
        p0
    };
    let out = seq!['/'] + bracket_params(p1);
    if out.len() > 1 && out.last() == '/' {
        out.drop_last()
    } else {
        out
    }
}

pub(crate) fn strip_all_prefixes(s: &Vec<char>, from: usize, p: &str) -> (r: usize)
    requires
        from <= s@.len(),
    ensures
        from <= r <= s@.len(),
        strip_prefixes(s@.subrange(from as int, s@.len() as int), p@) == s@.subrange(
            r as int,
            s@.len() as int,
        ),
{
    let pc = chars_of(p);
    let n = s.len();
    let mut k = from;
    loop
        invariant
            from <= k <= n,
            n == s@.len(),
            pc@ == p@,
            strip_prefixes(s@.subrange(from as int, n as int), p@) == strip_prefixes(
                s@.subrange(k as int, n as int),
                p@,
            ),
        decreases n - k,
    {
        let rest = &s[k..n];
        if pc.len() > 0 && chars_start_with(rest, &pc) {
            assert(s@.subrange(k as int, n as int).subrange(pc@.len() as int, (n - k) as int)
                =~= s@.subrange(k + pc@.len(), n as int));
            k = k + pc.len();
        } else {
            return k;
        }
    }
}

pub(crate) fn strip_all_suffixes(s: &Vec<char>, from: usize, to: usize, p: &str) -> (r: usize)
    requires
        from <= to <= s@.len(),
    ensures
        from <= r <= to,
        strip_suffixes(s@.subrange(from as int, to as int), p@) == s@.subrange(from as int, r as int),
{
    let pc = chars_of(p);
    let mut e = to;
    loop
        invariant
            from <= e <= to,
            to <= s@.len(),
            pc@ == p@,
            strip_suffixes(s@.subrange(from as int, to as int), p@) == strip_suffixes(
                s@.subrange(from as int, e as int),
                p@,
            ),
        decreases e - from,
    {
        let part = &s[from..e];
        if pc.len() > 0 && chars_end_with(part, &pc) {
            assert(s@.subrange(from as int, e as int).subrange(0, (e - from) - pc@.len())
                =~= s@.subrange(from as int, e - pc@.len()));
            e = e - pc.len();
        } else {
            return e;
        }
    }
}

/// The route a page file at `source_path` serves (`src/pages/users/[id].kungfu`
/// → `/users/:id`).
pub fn derive_route_path(source_path: &str) -> (r: String)
    ensures
        r@ == page_route(source_path@),
{
    let s = chars_of(source_path);
    let n = s.len();
    assert(s@.subrange(0, n as int) =~= s@);
    let a = strip_all_prefixes(&s, 0, "./");
    let b = strip_all_prefixes(&s, a, "src/pages/");
    let c = strip_all_prefixes(&s, b, "pages/");
    let e = strip_all_suffixes(&s, c, n, ".kungfu");
    let ghost p0 = s@.subrange(c as int, e as int);
    let p0c = &s[c..e];
    let idx = chars_of("index");
    let slash_idx = chars_of("/index");
    let end: usize = if crate::text::chars_eq(p0c, &idx) {
        c
    } else if chars_end_with(p0c, &slash_idx) {
        e - slash_idx.len()
    } else {
        e
    };
    let ghost p1 = s@.subrange(c as int, end as int);
    proof {
        if p0 == "index"@ {
            assert(p1 =~= Seq::<char>::empty());
        } else if crate::text::ends_with(p0, "/index"@) {
            assert(p1 =~= p0.subrange(0, p0.len() - "/index"@.len()));
        } else {
            assert(p1 =~= p0);
        }
    }
    let mut out = String::new();
    push_char(&mut out, '/');
    let mut inside = false;
    let mut i = c;
    while i < end
        invariant
            c <= i <= end,
            end <= s@.len(),
            p1 == s@.subrange(c as int, end as int),
            out@.len() >= 1,
            out@[0] == '/',
            !inside ==> out@ + bracket_params(s@.subrange(i as int, end as int)) == seq!['/']
                + bracket_params(p1),
            inside ==> out@ + param_rest(s@.subrange(i as int, end as int)) == seq!['/']
                + bracket_params(p1),
        decreases end - i,
    {
        let ghost rest = s@.subrange(i as int, end as int);
        let ghost before = out@;
        assert(rest.drop_first() =~= s@.subrange(i + 1, end as int));
        let ch = s[i];
        if inside {
            proof {
                lemma_find_from(rest, seq![']'], 0);
                lemma_find_from(rest.drop_first(), seq![']'], 0);
                if ch == ']' {
                    assert(rest.subrange(0, 1) =~= seq![']']);
                    assert(find(rest, seq![']']) == Some(0int));
                    assert(rest.subrange(0, 0) =~= Seq::<char>::empty());
                } else {
                    crate::text::lemma_find_shift(rest, seq![']'], 1, 1);
                    assert(rest.subrange(0, 1)[0] == ch);
                    if find(rest, seq![']']) is Some {
                        let j = find(rest, seq![']'])->0;
                        assert(j != 0) by {
                            if j == 0 {
                                assert(rest.subrange(0, 1)[0] == ']');
                            }
                        }
                        assert(find(rest.drop_first(), seq![']']) == Some(j - 1)) by {
                            assert(rest.subrange(1, rest.len() as int) =~= rest.drop_first());
                        }
                        assert(rest.subrange(0, j) =~= seq![ch] + rest.drop_first().subrange(0, j - 1));
                        assert(rest.subrange(j + 1, rest.len() as int) =~= rest.drop_first().subrange(
                            j,
                            rest.drop_first().len() as int,
                        ));
                    } else {
                        assert(rest.subrange(1, rest.len() as int) =~= rest.drop_first());
                        assert(find(rest.drop_first(), seq![']']) is None);
                        assert(rest =~= seq![ch] + rest.drop_first());
                    }
                }
            }
            if ch == ']' {
                inside = false;
            } else {
                push_char(&mut out, ch);
            }
        } else {
            if ch == '[' && end - i > 3 && s[i + 1] == '.' && s[i + 2] == '.' && s[i + 3] == '.' {
                push_char(&mut out, '*');
                inside = true;
                assert(rest.subrange(4, rest.len() as int) =~= s@.subrange(i + 4, end as int));
                assert(out@[0] == '/');
                i = i + 4;
                continue;
            } else if ch == '[' {
                push_char(&mut out, ':');
                inside = true;
            } else {
                push_char(&mut out, ch);
            }
        }
        assert(out@[0] == '/');
        i = i + 1;
    }
    proof {
        let rest = s@.subrange(end as int, end as int);
        assert(rest =~= Seq::<char>::empty());
        if inside {
            assert(find(rest, seq![']']) is None);
        }
        assert(out@ =~= seq!['/'] + bracket_params(p1));
    }
    let oc = chars_of(out.as_str());
    if oc.len() > 1 && oc[oc.len() - 1] == '/' {
        let k = oc.len() - 1;
        let r = string_from_range(&oc, 0, k);
        assert(r@ =~= out@.drop_last());
        r
    } else {
        out
    }
}

fn chars_contains(s: &Vec<char>, p: &str) -> (r: bool)
    ensures
        r == crate::text::contains(s@, p@),
{
    let pc = chars_of(p);
    find_chars(s, &pc, 0).is_some()
}

/// What is wrong with a refused page file.
pub enum PageFault {
    NoExports,
    MissingData,
    MissingTemplate,
}

/// The message of a file without exports.
pub open spec fn no_exports_text() -> Seq<char> {
    "no exports found \u{2014} `.kungfu` files must export `data` and `template`"@
}

/// The error a page fault is reported as.
pub open spec fn reports(e: ParseError, f: PageFault) -> bool {
    match f {
        PageFault::NoExports => e matches ParseError::Syntax(m) && m@ == no_exports_text(),
        PageFault::MissingData => e is MissingDataExport,
        PageFault::MissingTemplate => e is MissingTemplateExport,
    }
}

/// How a page file reads: its code and static HTML, checked for the
/// `data` and `template` exports, or the error.
pub open spec fn page_parse(content: Seq<char>, source: Seq<char>) -> Result<
    (Seq<char>, Option<Seq<char>>, Seq<char>),
    PageFault,
> {
    let sep = "\n---\n"@;
    let (code, html) = match find(content, sep) {
        Some(idx) => {
            let rest = trim(content.subrange(idx + sep.len(), content.len() as int));
            (
                trim(content.subrange(0, idx)),
                if rest.len() == 0 {
                    None
                } else {
                    Some(rest)
                },
            )
        },
        None => (trim(content), None),
    };
    if !crate::text::contains(code, "export"@) {
        Err(PageFault::NoExports)
    } else if !(crate::text::contains(code, "export async function data"@)
        || crate::text::contains(code, "export function data"@)) {
        Err(PageFault::MissingData)
    } else if !crate::text::contains(code, "export function template"@) {
        Err(PageFault::MissingTemplate)
    } else {
        Ok((code, html, page_route(source)))
    }
}

/// Parses a page file's content; `source_path` gives its route.
pub fn parse_kungfu_file(content: &str, source_path: &str) -> (r: Result<KungfuFile, ParseError>)
    ensures
        match r {
            Ok(f) => page_parse(content@, source_path@) == Ok::<
                (Seq<char>, Option<Seq<char>>, Seq<char>),
                PageFault,
            >((f.code@, crate::multipart::opt_text(f.static_html), f.route_path@)),
            Err(e) => page_parse(content@, source_path@) is Err && reports(
                e,
                page_parse(content@, source_path@)->Err_0,
            ),
        },
{
    let cs = chars_of(content);
    let sep = chars_of("\n---\n");
    let (code, static_html) = match find_chars(&cs, &sep, 0) {
        Some(idx) => {
            proof {
                reveal_strlit("\n---\n");
                lemma_find_from(cs@, sep@, 0);
            }
            let n = cs.len();
            let code = trimmed_range(&cs, 0, idx);
            let rest = trimmed_range(&cs, idx + sep.len(), n);
            if rest.as_str().is_empty() {
                (code, None)
            } else {
                (code, Some(rest))
            }
        },
        None => {
            assert(cs@.subrange(0, cs@.len() as int) =~= cs@);
            (trimmed(&cs), None)
        },
    };
    let cc = chars_of(code.as_str());
    if !chars_contains(&cc, "export") {
        return Err(
            ParseError::Syntax(
                to_string("no exports found \u{2014} `.kungfu` files must export `data` and `template`"),
            ),
        );
    }
    let has_data = chars_contains(&cc, "export async function data") || chars_contains(
        &cc,
        "export function data",
    );
    let has_template = chars_contains(&cc, "export function template");
    if !has_data {
        return Err(ParseError::MissingDataExport);
    }
    if !has_template {
        return Err(ParseError::MissingTemplateExport);
    }
    let route_path = derive_route_path(source_path);
    Ok(KungfuFile { code, static_html, route_path })
}

} // verus!
