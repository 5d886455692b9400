//! HTTP/1.1 request-head parser: request line, headers, `Content-Length` and
//! `Connection: close`, read straight out of the input buffer.
use vstd::prelude::*;
use vstd::string::StrSliceExecFns;
use vstd::utf8::{decode_utf8, valid_utf8};
use crate::request::{Method, method_named, method_from_chars};
use crate::text::{
    chars_eq, chars_eq_ignore_case, chars_of, eq_ignore_case, find, find_bytes, find_chars,
    find_from, lemma_find_from, lemma_find_from_bytes, lemma_str_bytes_decode, matches_at,
    opt_int, parse_usize, parse_usize_chars, skip_white_space, string_from_range, trim_start,
    utf8_str, white_space, lemma_trim_start_shape,
};

verus! {

// ─── The model ───────────────────────────────────────────────────────────────

/// The blank line that ends a request head: `\r\n\r\n`.
pub open spec fn blank_line() -> Seq<u8> {
    seq![13u8, 10, 13, 10]
}

/// A line break: `\r\n`.
pub open spec fn crlf() -> Seq<char> {
    seq!['\r', '\n']
}

/// What the header lines of a request carry.
pub struct HeaderScan {
    pub headers: Seq<(Seq<char>, Seq<char>)>,
    pub content_length: Option<usize>,
    pub connection_close: bool,
}

/// No header read yet.
pub open spec fn no_headers() -> HeaderScan {
    HeaderScan { headers: seq![], content_length: None, connection_close: false }
}

/// One header line taken into account: a line without `:` is skipped;
/// otherwise the name is what precedes the first `:` and the value what
/// follows it, less leading white space. The last `Content-Length` line
/// decides the length; any `Connection: close` line asks to close.
pub open spec fn scan_line(s: HeaderScan, line: Seq<char>) -> HeaderScan {
    match find(line, seq![':']) {
        None => s,
        Some(ci) => {
            let name = line.subrange(0, ci);
            let value = trim_start(line.subrange(ci + 1, line.len() as int));
            HeaderScan {
                headers: s.headers.push((name, value)),
                content_length: if eq_ignore_case(name, "content-length"@) {
                    parse_usize(value)
                } else {
                    s.content_length
                },
                connection_close: s.connection_close || (eq_ignore_case(name, "connection"@)
                    && eq_ignore_case(value, "close"@)),
            }
        },
    }
}

/// The header lines of `rest` (separated by `\r\n`, up to the first empty
/// line) taken into account in order.
pub open spec fn scan_lines(rest: Seq<char>, s: HeaderScan) -> HeaderScan
    decreases rest.len(),
{
    match find(rest, crlf()) {
        Some(i) => {
            proof {
                lemma_find_from(rest, crlf(), 0);
            }
            if i == 0 {
                s
            } else {
                scan_lines(rest.subrange(i + 2, rest.len() as int), scan_line(s, rest.subrange(0, i)))
            }
        },
        None => if rest.len() == 0 {
            s
        } else {
            scan_line(s, rest)
        },
    }
}

/// A header line with a `:` adds exactly one header: its name is the text
/// before the first `:`, and its value is the text after it less the white
/// space it begins with, so the value never begins with white space.
pub proof fn lemma_header_line_value(s: HeaderScan, line: Seq<char>, ci: int)
    requires
        find(line, seq![':']) == Some(ci),
    ensures
        scan_line(s, line).headers.len() == s.headers.len() + 1,
        scan_line(s, line).headers.drop_last() == s.headers,
        scan_line(s, line).headers.last().0 == line.subrange(0, ci),
        ({
            let a = line.subrange(ci + 1, line.len() as int);
            let v = scan_line(s, line).headers.last().1;
            &&& v.len() <= a.len()
            &&& v == a.subrange(a.len() - v.len(), a.len() as int)
            &&& forall|j: int| 0 <= j < a.len() - v.len() ==> white_space(#[trigger] a[j])
            &&& v.len() > 0 ==> !white_space(v[0])
        }),
{
    lemma_find_from(line, seq![':'], 0);
    lemma_trim_start_shape(line.subrange(ci + 1, line.len() as int));
    assert(scan_line(s, line).headers.drop_last() =~= s.headers);
}

/// The header values after scanning lines never begin with white space,
/// given that those before did not.
proof fn lemma_scan_lines_trimmed(rest: Seq<char>, s: HeaderScan)
    requires
        forall|i: int|
            0 <= i < s.headers.len() && (#[trigger] s.headers[i]).1.len() > 0 ==> !white_space(
                s.headers[i].1[0],
            ),
    ensures
        forall|i: int|
            0 <= i < scan_lines(rest, s).headers.len() && (#[trigger] scan_lines(rest, s).headers[i]).1.len()
                > 0 ==> !white_space(scan_lines(rest, s).headers[i].1[0]),
    decreases rest.len(),
{
    lemma_find_from(rest, crlf(), 0);
    match find(rest, crlf()) {
        Some(i) => {
            if i != 0 {
                let line = rest.subrange(0, i);
                lemma_scan_line_trimmed(s, line);
                lemma_scan_lines_trimmed(rest.subrange(i + 2, rest.len() as int), scan_line(s, line));
            }
        },
        None => {
            if rest.len() != 0 {
                lemma_scan_line_trimmed(s, rest);
            }
        },
    }
}

proof fn lemma_scan_line_trimmed(s: HeaderScan, line: Seq<char>)
    requires
        forall|i: int|
            0 <= i < s.headers.len() && (#[trigger] s.headers[i]).1.len() > 0 ==> !white_space(
                s.headers[i].1[0],
            ),
    ensures
        forall|i: int|
            0 <= i < scan_line(s, line).headers.len() && (#[trigger] scan_line(s, line).headers[i]).1.len()
                > 0 ==> !white_space(scan_line(s, line).headers[i].1[0]),
{
    if let Some(ci) = find(line, seq![':']) {
        lemma_header_line_value(s, line, ci);
        let h = scan_line(s, line).headers;
        assert forall|i: int| 0 <= i < h.len() && (#[trigger] h[i]).1.len() > 0 implies !white_space(
            h[i].1[0],
        ) by {
            if i < s.headers.len() {
                assert(h[i] == s.headers[i]);
            }
        }
    }
}

/// No header value of a parsed request head begins with white space.
pub proof fn lemma_head_values_trimmed(buf: Seq<u8>)
    ensures
        head_of(buf) matches Ok(h) ==> forall|i: int|
            0 <= i < h.headers.len() && (#[trigger] h.headers[i]).1.len() > 0 ==> !white_space(
                h.headers[i].1[0],
            ),
{
    if let Some(he) = find(buf, blank_line()) {
        let hb = buf.subrange(0, he);
        if valid_utf8(hb) {
            let hs = decode_utf8(hb);
            let fle = match find(hs, crlf()) {
                Some(i) => i,
                None => hs.len() as int,
            };
            if fle < hs.len() {
                lemma_scan_lines_trimmed(hs.subrange(fle + 2, hs.len() as int), no_headers());
            }
        }
    }
}

/// A parsed request head.
pub struct Head {
    pub method: Method,
    pub path: Seq<char>,
    pub query_string: Seq<char>,
    pub http_version: u8,
    pub content_length: Option<usize>,
    pub connection_close: bool,
    pub headers: Seq<(Seq<char>, Seq<char>)>,
    pub header_end: int,
}

/// Why a request head was not parsed.
pub enum HeadError {
    Incomplete,
    InvalidUtf8,
    Malformed,
    UnknownMethod(Seq<char>),
}

/// The part of `s` before the first `c`, or all of `s`.
pub open spec fn before(s: Seq<char>, c: char) -> Seq<char> {
    match find(s, seq![c]) {
        Some(i) => s.subrange(0, i),
        None => s,
    }
}

/// The part of `s` after the first `c`, if `s` holds one.
pub open spec fn after(s: Seq<char>, c: char) -> Option<Seq<char>> {
    match find(s, seq![c]) {
        Some(i) => Some(s.subrange(i + 1, s.len() as int)),
        None => None,
    }
}

/// What a request line says: `METHOD SP PATH SP VERSION`, split on the
/// first two spaces (the version ends at a third space, if any), with the
/// query string after the first `?` of the path.
pub struct RequestLine {
    pub method: Method,
    pub path: Seq<char>,
    pub query_string: Seq<char>,
    pub http_version: u8,
}

/// The request line `line` read.
pub open spec fn request_line_of(line: Seq<char>) -> Result<RequestLine, HeadError> {
    match after(line, ' ') {
        None => Err(HeadError::Malformed),
        Some(rest1) => match after(rest1, ' ') {
            None => Err(HeadError::Malformed),
            Some(rest2) => {
                let method_str = before(line, ' ');
                let raw_path = before(rest1, ' ');
                let version = before(rest2, ' ');
                match method_named(method_str) {
                    None => Err(HeadError::UnknownMethod(method_str)),
                    Some(method) => Ok(
                        RequestLine {
                            method,
                            path: before(raw_path, '?'),
                            query_string: match after(raw_path, '?') {
                                Some(q) => q,
                                None => seq![],
                            },
                            http_version: if version == "HTTP/1.1"@ {
                                1
                            } else {
                                0
                            },
                        },
                    ),
                }
            },
        },
    }
}

/// A request head read from its text `hs` (everything before the blank
/// line, which starts at byte `he`): the request line, then the header
/// lines. A request line directly followed by the blank line is a complete
/// head without headers.
pub open spec fn head_of_text(hs: Seq<char>, he: int) -> Result<Head, HeadError> {
    let fle = match find(hs, crlf()) {
        Some(i) => i,
        None => hs.len() as int,
    };
    match request_line_of(hs.subrange(0, fle)) {
        Err(e) => Err(e),
        Ok(rl) => {
            let scan = if fle < hs.len() {
                scan_lines(hs.subrange(fle + 2, hs.len() as int), no_headers())
            } else {
                no_headers()
            };
            Ok(
                Head {
                    method: rl.method,
                    path: rl.path,
                    query_string: rl.query_string,
                    http_version: rl.http_version,
                    content_length: scan.content_length,
                    connection_close: scan.connection_close,
                    headers: scan.headers,
                    header_end: he + 4,
                },
            )
        },
    }
}

/// A request head read from a buffer: it ends at the first blank line
/// (`\r\n\r\n`); what precedes it must be valid UTF-8.
pub open spec fn head_of(buf: Seq<u8>) -> Result<Head, HeadError> {
    match find(buf, blank_line()) {
        None => Err(HeadError::Incomplete),
        Some(he) => {
            let hb = buf.subrange(0, he);
            if !valid_utf8(hb) {
                Err(HeadError::InvalidUtf8)
            } else {
                head_of_text(decode_utf8(hb), he)
            }
        },
    }
}

// ─── The parser ──────────────────────────────────────────────────────────────

/// A parsed HTTP request that borrows from the input buffer.
#[derive(Debug)]
pub struct ParsedRequest<'a> {
    pub method: Method,
    pub path: &'a str,
    pub query_string: &'a str,
    /// 0 = HTTP/1.0, 1 = HTTP/1.1
    pub http_version: u8,
    pub content_length: Option<usize>,
    pub connection_close: bool,
    /// (name, value) pairs, in the order of the request.
    pub headers: Vec<(&'a str, &'a str)>,
    /// Byte offset where the body starts.
    pub header_end: usize,
}

/// The text of header pairs.
pub open spec fn pairs_view(v: Seq<(&str, &str)>) -> Seq<(Seq<char>, Seq<char>)> {
    v.map_values(|p: (&str, &str)| (p.0@, p.1@))
}

impl<'a> ParsedRequest<'a> {
    /// The head this request holds.
    pub open spec fn head(&self) -> Head {
        Head {
            method: self.method,
            path: self.path@,
            query_string: self.query_string@,
            http_version: self.http_version,
            content_length: self.content_length,
            connection_close: self.connection_close,
            headers: pairs_view(self.headers@),
            header_end: self.header_end as int,
        }
    }
}

/// Errors from the HTTP parser.
#[derive(Debug)]
pub enum ParseError {
    /// Need more data: the request head isn't complete yet.
    Incomplete,
    /// Invalid UTF-8 in the request head.
    InvalidUtf8,
    /// Malformed request line.
    Malformed,
    /// Unknown HTTP method.
    UnknownMethod(String),
}

impl ParseError {
    /// The error this value stands for.
    pub open spec fn model(&self) -> HeadError {
        match self {
            ParseError::Incomplete => HeadError::Incomplete,
            ParseError::InvalidUtf8 => HeadError::InvalidUtf8,
            ParseError::Malformed => HeadError::Malformed,
            ParseError::UnknownMethod(s) => HeadError::UnknownMethod(s@),
        }
    }
}

/// Find the `\r\n\r\n` that marks the end of the headers.
pub fn find_header_end(buf: &[u8]) -> (r: Option<usize>)
    ensures
        opt_int(r) == find(buf@, blank_line()),
{
    let pat = [13u8, 10, 13, 10];
    find_bytes(buf, &pat, 0)
}

/// The head's exec state while header lines are read.
pub open spec fn scan_state(
    headers: Seq<(&str, &str)>,
    content_length: Option<usize>,
    connection_close: bool,
) -> HeaderScan {
    HeaderScan { headers: pairs_view(headers), content_length, connection_close }
}

/// Takes the header line `cs[l0..l1]` into account.
fn read_header_line<'a>(
    hs: &'a str,
    cs: &Vec<char>,
    l0: usize,
    l1: usize,
    headers: &mut Vec<(&'a str, &'a str)>,
    content_length: &mut Option<usize>,
    connection_close: &mut bool,
)
    requires
        cs@ == hs@,
        l0 <= l1 <= cs@.len(),
    ensures
        scan_state(final(headers)@, *final(content_length), *final(connection_close))
            == scan_line(
            scan_state(old(headers)@, *old(content_length), *old(connection_close)),
            cs@.subrange(l0 as int, l1 as int),
        ),
{
    let ghost line = cs@.subrange(l0 as int, l1 as int);
    let colon = vec![':'];
    assert(colon@ =~= seq![':']);
    let found = find_chars(&cs[l0..l1], &colon, 0);
    match found {
        None => {},
        Some(ci) => {
            proof {
                lemma_find_from(line, seq![':'], 0);
            }
            let name_end = l0 + ci;
            let upto = &cs[0..l1];
            let vstart = skip_white_space(upto, name_end + 1);
            assert(upto@.subrange(name_end + 1, upto@.len() as int) =~= line.subrange(
                ci + 1,
                line.len() as int,
            ));
            assert(upto@.subrange(vstart as int, upto@.len() as int) =~= cs@.subrange(
                vstart as int,
                l1 as int,
            ));
            let name = hs.substring_char(l0, name_end);
            let value = hs.substring_char(vstart, l1);
            assert(name@ =~= line.subrange(0, ci as int));
            let is_cl = chars_eq_ignore_case(&cs[l0..name_end], &chars_of("content-length"));
            let is_conn = chars_eq_ignore_case(&cs[l0..name_end], &chars_of("connection"));
            if is_cl {
                *content_length = parse_usize_chars(cs, vstart, l1);
            }
            if is_conn && chars_eq_ignore_case(&cs[vstart..l1], &chars_of("close")) {
                *connection_close = true;
            }
            headers.push((name, value));
            assert(pairs_view(headers@) =~= pairs_view(old(headers)@).push((name@, value@)));
        },
    }
}

/// Reads the request line `cs[..fle]`.
#[verifier::spinoff_prover]
fn read_request_line<'a>(hs: &'a str, cs: &Vec<char>, fle: usize) -> (res: Result<
    (Method, &'a str, &'a str, u8),
    ParseError,
>)
    requires
        cs@ == hs@,
        fle <= cs@.len(),
    ensures
        match res {
            Ok((method, path, query_string, http_version)) => request_line_of(
                cs@.subrange(0, fle as int),
            ) == Ok::<RequestLine, HeadError>(
                RequestLine { method, path: path@, query_string: query_string@, http_version },
            ),
            Err(e) => request_line_of(cs@.subrange(0, fle as int)) == Err::<
                RequestLine,
                HeadError,
            >(e.model()),
        },
{
    let ghost line = cs@.subrange(0, fle as int);
    let space = vec![' '];
    assert(space@ =~= seq![' ']);
    let sp1 = match find_chars(&cs[0..fle], &space, 0) {
        Some(i) => i,
        None => return Err(ParseError::Malformed),
    };
    proof {
        lemma_find_from(line, seq![' '], 0);
    }
    let ghost rest1 = line.subrange(sp1 + 1, line.len() as int);
    assert(cs@.subrange(sp1 + 1, fle as int) =~= rest1);
    let sp2 = match find_chars(&cs[sp1 + 1..fle], &space, 0) {
        Some(i) => i,
        None => return Err(ParseError::Malformed),
    };
    proof {
        lemma_find_from(rest1, seq![' '], 0);
    }
    let p0 = sp1 + 1;
    let p1 = p0 + sp2;
    let ghost rest2 = rest1.subrange(sp2 + 1, rest1.len() as int);
    assert(cs@.subrange(p1 + 1, fle as int) =~= rest2);
    let f3 = find_chars(&cs[p1 + 1..fle], &space, 0);
    proof {
        lemma_find_from(rest2, seq![' '], 0);
    }
    let v_end = match f3 {
        Some(i) => p1 + 1 + i,
        None => fle,
    };
    assert(cs@.subrange(p1 + 1, v_end as int) =~= before(rest2, ' '));
    assert(cs@.subrange(0, sp1 as int) =~= before(line, ' '));
    assert(cs@.subrange(p0 as int, p1 as int) =~= before(rest1, ' '));
    let method = match method_from_chars(&cs[0..sp1]) {
        Some(m) => m,
        None => return Err(ParseError::UnknownMethod(string_from_range(&cs, 0, sp1))),
    };
    let ghost raw_path = cs@.subrange(p0 as int, p1 as int);
    let question = vec!['?'];
    assert(question@ =~= seq!['?']);
    let fq = find_chars(&cs[p0..p1], &question, 0);
    proof {
        lemma_find_from(raw_path, seq!['?'], 0);
    }
    let (path, query_string) = match fq {
        Some(q) => {
            let path = hs.substring_char(p0, p0 + q);
            let query = hs.substring_char(p0 + q + 1, p1);
            assert(path@ =~= before(raw_path, '?'));
            assert(query@ =~= raw_path.subrange(q + 1, raw_path.len() as int));
            (path, query)
        },
        None => {
            let path = hs.substring_char(p0, p1);
            let query = hs.substring_char(p1, p1);
            assert(query@ =~= Seq::<char>::empty());
            (path, query)
        },
    };
    let http_version: u8 = if chars_eq(&cs[p1 + 1..v_end], &chars_of("HTTP/1.1")) {
        1
    } else {
        0
    };
    Ok((method, path, query_string, http_version))
}

/// Reads the header lines of `cs[start..]`.
fn read_headers<'a>(hs: &'a str, cs: &Vec<char>, start: usize) -> (res: (
    Vec<(&'a str, &'a str)>,
    Option<usize>,
    bool,
))
    requires
        cs@ == hs@,
        start <= cs@.len(),
    ensures
        scan_state(res.0@, res.1, res.2) == scan_lines(
            cs@.subrange(start as int, cs@.len() as int),
            no_headers(),
        ),
{
    let n = cs.len();
    let crlf_v = vec!['\r', '\n'];
    assert(crlf_v@ =~= crlf());
    let mut headers: Vec<(&str, &str)> = Vec::new();
    let mut content_length: Option<usize> = None;
    let mut connection_close = false;
    let mut pos = start;
    assert(pairs_view(headers@) =~= Seq::<(Seq<char>, Seq<char>)>::empty());
    let ghost all = cs@.subrange(start as int, n as int);
    loop
        invariant_except_break
            start <= pos <= n,
            n == cs@.len(),
            cs@ == hs@,
            crlf_v@ == crlf(),
            scan_lines(all, no_headers()) == scan_lines(
                cs@.subrange(pos as int, n as int),
                scan_state(headers@, content_length, connection_close),
            ),
        ensures
            scan_lines(all, no_headers()) == scan_state(
                headers@,
                content_length,
                connection_close,
            ),
        decreases n - pos,
    {
        let ghost rest = cs@.subrange(pos as int, n as int);
        let ghost st0 = scan_state(headers@, content_length, connection_close);
        let found = find_chars(&cs[pos..n], &crlf_v, 0);
        proof {
            lemma_find_from(rest, crlf(), 0);
        }
        match found {
            Some(i) => {
                if i == 0 {
                    assert(scan_lines(rest, st0) == st0);
                    break;
                }
                read_header_line(
                    hs,
                    cs,
                    pos,
                    pos + i,
                    &mut headers,
                    &mut content_length,
                    &mut connection_close,
                );
                assert(rest.subrange(0, i as int) =~= cs@.subrange(pos as int, pos + i));
                assert(rest.subrange(i + 2, rest.len() as int) =~= cs@.subrange(
                    pos + i + 2,
                    n as int,
                ));
                pos = pos + i + 2;
            },
            None => {
                if pos == n {
                    assert(rest.len() == 0);
                    assert(scan_lines(rest, st0) == st0);
                } else {
                    assert(scan_lines(rest, st0) == scan_line(st0, rest));
                    read_header_line(
                        hs,
                        cs,
                        pos,
                        n,
                        &mut headers,
                        &mut content_length,
                        &mut connection_close,
                    );
                }
                break;
            },
        }
    }
    (headers, content_length, connection_close)
}

/// Parse an HTTP request head from a byte buffer.
///
/// Returns the parsed request if the head is complete, or
/// `Err(ParseError::Incomplete)` if more data is needed.
pub fn parse_request(buf: &[u8]) -> (res: Result<ParsedRequest<'_>, ParseError>)
    ensures
        match res {
            Ok(r) => head_of(buf@) == Ok::<Head, HeadError>(r.head()),
            Err(e) => head_of(buf@) == Err::<Head, HeadError>(e.model()),
        },
{
    let blen = buf.len();
    let he = match find_header_end(buf) {
        Some(i) => i,
        None => return Err(ParseError::Incomplete),
    };
    proof {
        lemma_find_from_bytes(buf@, blank_line(), 0);
    }
    let hb = &buf[0..he];
    let hs = match utf8_str(hb) {
        Some(s) => s,
        None => return Err(ParseError::InvalidUtf8),
    };
    proof {
        lemma_str_bytes_decode(hs, hb@);
    }
    let cs = chars_of(hs);
    let n = cs.len();
    let crlf_v = vec!['\r', '\n'];
    assert(crlf_v@ =~= crlf());
    let found = find_chars(&cs, &crlf_v, 0);
    proof {
        lemma_find_from(cs@, crlf(), 0);
    }
    let fle = match found {
        Some(i) => i,
        None => n,
    };
    let (method, path, query_string, http_version) = match read_request_line(hs, &cs, fle) {
        Ok(parts) => parts,
        Err(e) => return Err(e),
    };
    let (headers, content_length, connection_close) = if fle < n {
        read_headers(hs, &cs, fle + 2)
    } else {
        let none: Vec<(&str, &str)> = Vec::new();
        assert(pairs_view(none@) =~= Seq::<(Seq<char>, Seq<char>)>::empty());
        assert(scan_state(none@, None, false) == no_headers());
        (none, None, false)
    };
    Ok(
        ParsedRequest {
            method,
            path,
            query_string,
            http_version,
            content_length,
            connection_close,
            headers,
            header_end: he + 4,
        },
    )
}

} // verus!

verus! {

// ─── Laws ────────────────────────────────────────────────────────────────────

proof fn lemma_find_extends(s: Seq<u8>, t: Seq<u8>, pat: Seq<u8>, i: int)
    requires
        0 <= i,
        find_from(s, pat, i) is Some,
    ensures
        find_from(s + t, pat, i) == find_from(s, pat, i),
    decreases s.len() - i,
{
    lemma_find_from_bytes(s, pat, i);
    let k = find_from(s, pat, i)->0;
    assert((s + t).subrange(i, i + pat.len()) =~= s.subrange(i, i + pat.len()));
    if !matches_at(s, pat, i) {
        lemma_find_extends(s, t, pat, i + 1);
    }
}

/// Once the buffer holds a blank line, bytes that follow it (a body, or the
/// next pipelined request) never change how the head is read.
pub proof fn law_head_ignores_following_bytes(buf: Seq<u8>, more: Seq<u8>)
    requires
        find(buf, blank_line()) is Some,
    ensures
        head_of(buf + more) == head_of(buf),
{
    lemma_find_extends(buf, more, blank_line(), 0);
    let he = find(buf, blank_line())->0;
    lemma_find_from_bytes(buf, blank_line(), 0);
    assert((buf + more).subrange(0, he) =~= buf.subrange(0, he));
}

/// A parsed head ends right after the first blank line of the buffer: the
/// body starts at `header_end`, and the four bytes before it are `\r\n\r\n`.
pub proof fn law_header_end_follows_first_blank_line(buf: Seq<u8>)
    requires
        head_of(buf) is Ok,
    ensures
        ({
            let he = head_of(buf)->Ok_0.header_end;
            &&& 4 <= he <= buf.len()
            &&& buf.subrange(he - 4, he) == blank_line()
            &&& forall|j: int| 0 <= j < he - 4 ==> !matches_at(buf, blank_line(), j)
        }),
{
    lemma_find_from_bytes(buf, blank_line(), 0);
}

} // verus!
