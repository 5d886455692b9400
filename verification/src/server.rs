//! The decisions of the HTTP/1.1 connection loop: when a request head is
//! complete, how it reads, how much body follows, which handler answers,
//! whether the connection stays open, and the bytes of the response.
use vstd::prelude::*;
use vstd::utf8::*;
use vstd::string::StringSliceAdditionalSpecFns;
use crate::headers::{lookup, strings_pairs};
use crate::request::{method_name, method_of_bytes, parse_query, query_map, Method, Request};
use crate::router::{resolution, MetaView, RouteResolution, Router, Verdict};
use crate::strmap::StrMap;
use crate::text::{
    after_char, before_char, chars_of, decimal, decimal_string, find, find_bytes, lemma_find_from,
    lemma_find_from_bytes, lemma_str_bytes_decode, lower, parse_usize, parse_usize_chars, push_str,
    split_once_char, str_eq, str_eq_ignore_case, to_ascii_lowercase, to_string, utf8_str,
};

verus! {

/// The most bytes a request head may take.
pub const MAX_HEADER_BYTES: usize = 65536;

/// The largest body a request may declare.
pub const MAX_BODY_BYTES: usize = 16777216;

// ─── Errors ──────────────────────────────────────────────────────────────────

/// A failure while reading a request: the status it is answered with, its
/// message, and for failures of the connection itself the detail of what
/// went wrong.
#[derive(Debug)]
pub struct ServerError {
    pub status: u16,
    pub message: String,
    pub detail: Option<String>,
}

impl ServerError {
    /// A client error with status `status` and message `message`.
    pub fn new(status: u16, message: &str) -> (r: ServerError)
        ensures
            r.status == status,
            r.message@ == message@,
            r.detail is None,
    {
        ServerError { status, message: to_string(message), detail: None }
    }

    /// A failure of the connection (status 500), `message` kept as detail.
    pub fn internal(message: &str) -> (r: ServerError)
        ensures
            r.status == 500,
            r.message@ == message@,
            r.detail matches Some(d) && d@ == message@,
    {
        ServerError { status: 500, message: to_string(message), detail: Some(to_string(message)) }
    }
}

/// The connection was closed or reset by the client: the detail names an
/// unexpected end of stream or a reset.
pub open spec fn closed_by_peer(e: ServerError) -> bool {
    match e.detail {
        Some(d) => crate::text::contains(d@, "UnexpectedEof"@) || crate::text::contains(
            d@,
            "ConnectionReset"@,
        ),
        None => false,
    }
}

/// `Some(())` when the failure is the client closing or resetting the
/// connection (then the connection just ends), `None` otherwise.
pub fn underlying_io_eof(e: &ServerError) -> (r: Option<()>)
    ensures
        r is Some <==> closed_by_peer(*e),
{
    match &e.detail {
        Some(d) => {
            let dc = chars_of(d.as_str());
            let a = chars_of("UnexpectedEof");
            let b = chars_of("ConnectionReset");
            if crate::text::find_chars(&dc, &a, 0).is_some() || crate::text::find_chars(&dc, &b, 0).is_some() {
                Some(())
            } else {
                None
            }
        },
        None => None,
    }
}

// ─── Reading the head ────────────────────────────────────────────────────────

pub open spec fn blank_line() -> Seq<u8> {
    seq![13u8, 10u8, 13u8, 10u8]
}

/// The end of the head in `buf`: just past its first blank line.
pub open spec fn head_end(buf: Seq<u8>) -> Option<int> {
    match find(buf, blank_line()) {
        Some(k) => Some(k + 4),
        None => None,
    }
}

/// The index just past the first `\r\n\r\n` in `buf`.
pub fn find_header_end(buf: &[u8]) -> (r: Option<usize>)
    ensures
        crate::strmap::opt_index(r) == head_end(buf@),
{
    let sep = [13u8, 10, 13, 10];
    assert(sep@ =~= blank_line());
    match find_bytes(buf, &sep, 0) {
        Some(k) => {
            proof {
                lemma_find_from_bytes(buf@, blank_line(), 0);
            }
            let n = buf.len();
            assert(k + 4 <= n);
            Some(k + 4)
        },
        None => None,
    }
}

/// Where reading a request head stands after some bytes arrived.
pub enum HeadProgress {
    /// The head is over the size limit.
    TooLarge,
    /// No blank line yet: read more.
    NeedMore,
    /// The head ends here.
    Complete(usize),
}

/// The state of a head after `buf` arrived: over the limit first, then
/// complete at its blank line, else waiting.
pub open spec fn head_progress(buf: Seq<u8>) -> HeadProgress {
    if buf.len() > MAX_HEADER_BYTES {
        HeadProgress::TooLarge
    } else {
        match head_end(buf) {
            Some(k) => HeadProgress::Complete(k as usize),
            None => HeadProgress::NeedMore,
        }
    }
}

/// Where reading the head stands now that `buf` has arrived.
pub fn check_head(buf: &[u8]) -> (r: HeadProgress)
    ensures
        r == head_progress(buf@),
{
    if buf.len() > MAX_HEADER_BYTES {
        return HeadProgress::TooLarge;
    }
    match find_header_end(buf) {
        Some(k) => HeadProgress::Complete(k),
        None => HeadProgress::NeedMore,
    }
}

// ─── Parsing the head ────────────────────────────────────────────────────────

/// What `httparse` reads from a buffer (with room for 64 headers).
pub enum HttpParse {
    Complete {
        method: Option<Seq<char>>,
        path: Option<Seq<char>>,
        version: Option<u8>,
        headers: Seq<(Seq<char>, Seq<u8>)>,
        consumed: nat,
    },
    Partial,
    Invalid(Seq<char>),
}

/// What `httparse::Request::parse` reads from `buf`.
pub uninterp spec fn httparse_result(buf: Seq<u8>) -> HttpParse;

/// The result of `httparse`, with plain values.
pub enum RawHead {
    Complete {
        method: Option<String>,
        path: Option<String>,
        version: Option<u8>,
        headers: Vec<(String, Vec<u8>)>,
        consumed: usize,
    },
    Partial,
    Invalid(String),
}

/// The view of a raw parse.
pub open spec fn raw_view(r: RawHead) -> HttpParse {
    match r {
        RawHead::Complete { method, path, version, headers, consumed } => HttpParse::Complete {
            method: crate::multipart::opt_text(method),
            path: crate::multipart::opt_text(path),
            version,
            headers: headers@.map_values(|h: (String, Vec<u8>)| (h.0@, h.1@)),
            consumed: consumed as nat,
        },
        RawHead::Partial => HttpParse::Partial,
        RawHead::Invalid(m) => HttpParse::Invalid(m@),
    }
}

/// `httparse::Request::parse` with 64 header slots: the method, path,
/// version and headers of a complete head with the number of bytes it
/// took, or that the head is incomplete, or the error's text.
#[verifier::external_body]
fn parse_with_httparse(buf: &[u8]) -> (r: RawHead)
    ensures
        raw_view(r) == httparse_result(buf@),
{
    let mut headers = [httparse::EMPTY_HEADER; 64];
    let mut req = httparse::Request::new(&mut headers);
    match req.parse(buf) {
        Ok(httparse::Status::Complete(n)) => RawHead::Complete {
            method: req.method.map(|m| m.to_string()),
            path: req.path.map(|p| p.to_string()),
            version: req.version,
            headers: req.headers.iter().map(|h| (h.name.to_string(), h.value.to_vec())).collect(),
            consumed: n,
        },
        Ok(httparse::Status::Partial) => RawHead::Partial,
        Err(e) => RawHead::Invalid(e.to_string()),
    }
}

/// A request head read from the connection, before its body.
#[derive(Debug)]
pub struct Head {
    pub method: Method,
    pub path: String,
    pub query_string: String,
    pub version: String,
    pub headers: Vec<(String, String)>,
    /// Where the body starts in the buffer.
    pub body_start: usize,
    /// The declared body length.
    pub content_length: Option<usize>,
}

/// What a head says, as text.
pub struct HeadView {
    pub method: Method,
    pub path: Seq<char>,
    pub query_string: Seq<char>,
    pub version: Seq<char>,
    pub headers: Seq<(Seq<char>, Seq<char>)>,
    pub body_start: nat,
    pub content_length: Option<usize>,
}

impl View for Head {
    type V = HeadView;

    open spec fn view(&self) -> HeadView {
        HeadView {
            method: self.method,
            path: self.path@,
            query_string: self.query_string@,
            version: self.version@,
            headers: strings_pairs(self.headers@),
            body_start: self.body_start as nat,
            content_length: self.content_length,
        }
    }
}

/// The header pairs kept from a parse: those with a name, the name in
/// ASCII lower case, the value read as UTF-8 (empty when it is not).
pub open spec fn kept_headers(hs: Seq<(Seq<char>, Seq<u8>)>) -> Seq<(Seq<char>, Seq<char>)>
    decreases hs.len(),
{
    if hs.len() == 0 {
        seq![]
    } else {
        let rest = kept_headers(hs.drop_last());
        let h = hs.last();
        if h.0.len() == 0 {
            rest
        } else {
            rest.push(
                (
                    lower(h.0),
                    if valid_utf8(h.1) {
                        decode_utf8(h.1)
                    } else {
                        seq![]
                    },
                ),
            )
        }
    }
}

/// The value of the first header named exactly `name`.
pub open spec fn first_named(hs: Seq<(Seq<char>, Seq<char>)>, name: Seq<char>) -> Option<Seq<char>>
    decreases hs.len(),
{
    if hs.len() == 0 {
        None
    } else if hs[0].0 == name {
        Some(hs[0].1)
    } else {
        first_named(hs.drop_first(), name)
    }
}

/// A head failure as text: its status and message.
pub open spec fn fail(status: u16, message: Seq<char>) -> Result<HeadView, (u16, Seq<char>)> {
    Err((status, message))
}

/// How a complete buffer reads as a request head (the body aside), or the
/// status and message it is refused with.
pub open spec fn head_of_parse(p: HttpParse) -> Result<HeadView, (u16, Seq<char>)> {
    match p {
        HttpParse::Invalid(m) => fail(400, "HTTP parse: "@ + m),
        HttpParse::Partial => fail(400, "Incomplete HTTP request"@),
        HttpParse::Complete { method, path, version, headers, consumed } => {
            let m = match method {
                Some(t) => method_of_bytes(encode_utf8(t)),
                None => None,
            };
            match m {
                None => fail(400, "Unsupported method"@),
                Some(mm) => match path {
                    None => fail(400, "Missing path"@),
                    Some(raw) => {
                        let hs = kept_headers(headers);
                        Ok(
                            HeadView {
                                method: mm,
                                path: before_char(raw, '?'),
                                query_string: after_char(raw, '?'),
                                version: match version {
                                    Some(v) => "HTTP/1."@ + decimal(v as nat),
                                    None => "HTTP/1.1"@,
                                },
                                headers: hs,
                                body_start: consumed,
                                content_length: match first_named(hs, "content-length"@) {
                                    Some(v) => parse_usize(v),
                                    None => None,
                                },
                            },
                        )
                    },
                },
            }
        },
    }
}

/// A head result read as text.
pub open spec fn head_result_view(r: Result<Head, ServerError>) -> Result<HeadView, (u16, Seq<char>)> {
    match r {
        Ok(h) => Ok(h@),
        Err(e) => Err((e.status, e.message@)),
    }
}

fn keep_headers(raw: &Vec<(String, Vec<u8>)>) -> (r: Vec<(String, String)>)
    ensures
        strings_pairs(r@) == kept_headers(raw@.map_values(|h: (String, Vec<u8>)| (h.0@, h.1@))),
{
    let ghost all = raw@.map_values(|h: (String, Vec<u8>)| (h.0@, h.1@));
    let mut out: Vec<(String, String)> = Vec::new();
    let mut i: usize = 0;
    while i < raw.len()
        invariant
            i <= raw@.len(),
            all == raw@.map_values(|h: (String, Vec<u8>)| (h.0@, h.1@)),
            strings_pairs(out@) == kept_headers(all.subrange(0, i as int)),
        decreases raw.len() - i,
    {
        let ghost pre = all.subrange(0, i + 1);
        assert(pre.drop_last() =~= all.subrange(0, i as int));
        assert(pre.last() == (raw@[i as int].0@, raw@[i as int].1@));
        let name = &raw[i].0;
        if !name.as_str().is_empty() {
            let key = to_ascii_lowercase(name.as_str());
            let value = match utf8_str(raw[i].1.as_slice()) {
                Some(t) => {
                    proof {
                        lemma_str_bytes_decode(t, raw@[i as int].1@);
                    }
                    to_string(t)
                },
                None => String::new(),
            };
            let ghost before = strings_pairs(out@);
            out.push((key, value));
            assert(strings_pairs(out@) =~= before.push((out@.last().0@, out@.last().1@)));
        }
        i = i + 1;
    }
    assert(all.subrange(0, all.len() as int) =~= all);
    out
}

fn first_header<'a>(hs: &'a Vec<(String, String)>, name: &str) -> (r: Option<&'a str>)
    ensures
        match r {
            Some(v) => first_named(strings_pairs(hs@), name@) == Some(v@),
            None => first_named(strings_pairs(hs@), name@) is None,
        },
{
    let ghost all = strings_pairs(hs@);
    let mut i: usize = 0;
    assert(all.subrange(0, all.len() as int) =~= all);
    while i < hs.len()
        invariant
            i <= hs@.len(),
            all == strings_pairs(hs@),
            first_named(all, name@) == first_named(all.subrange(i as int, all.len() as int), name@),
        decreases hs.len() - i,
    {
        let ghost rest = all.subrange(i as int, all.len() as int);
        assert(rest.drop_first() =~= all.subrange(i + 1, all.len() as int));
        assert(rest[0] == (hs@[i as int].0@, hs@[i as int].1@));
        if str_eq(hs[i].0.as_str(), name) {
            return Some(hs[i].1.as_str());
        }
        i = i + 1;
    }
    assert(all.subrange(all.len() as int, all.len() as int) =~= Seq::<(Seq<char>, Seq<char>)>::empty());
    None
}

/// Reads the head of a complete request from `buf` (as `httparse` parses
/// it), or says why it is refused.
pub fn parse_head(buf: &[u8]) -> (r: Result<Head, ServerError>)
    ensures
        head_result_view(r) == head_of_parse(httparse_result(buf@)),
{
    match parse_with_httparse(buf) {
        RawHead::Invalid(m) => {
            let mut msg = to_string("HTTP parse: ");
            push_str(&mut msg, m.as_str());
            Err(ServerError { status: 400, message: msg, detail: None })
        },
        RawHead::Partial => Err(ServerError::new(400, "Incomplete HTTP request")),
        RawHead::Complete { method, path, version, headers, consumed } => {
            let m = match &method {
                Some(t) => Method::from_bytes(t.as_str().as_bytes()),
                None => None,
            };
            let mm = match m {
                None => {
                    return Err(ServerError::new(400, "Unsupported method"));
                },
                Some(x) => x,
            };
            let raw = match &path {
                None => {
                    return Err(ServerError::new(400, "Missing path"));
                },
                Some(p) => p,
            };
            let (p, q) = split_once_char(raw.as_str(), '?');
            let ver = match version {
                Some(v) => {
                    let mut s = to_string("HTTP/1.");
                    push_str(&mut s, decimal_string(v as u64).as_str());
                    s
                },
                None => to_string("HTTP/1.1"),
            };
            let hs = keep_headers(&headers);
            let cl = match first_header(&hs, "content-length") {
                Some(v) => {
                    let cs = chars_of(v);
                    assert(cs@.subrange(0, cs@.len() as int) =~= cs@);
                    parse_usize_chars(&cs, 0, cs.len())
                },
                None => None,
            };
            Ok(
                Head {
                    method: mm,
                    path: p,
                    query_string: q,
                    version: ver,
                    headers: hs,
                    body_start: consumed,
                    content_length: cl,
                },
            )
        },
    }
}

// ─── The body ────────────────────────────────────────────────────────────────

/// How much of the body is at hand after the head.
#[derive(Debug)]
pub enum BodyPlan {
    /// The whole body.
    Ready(Vec<u8>),
    /// The body so far; read until it holds `want` bytes.
    NeedMore { have: Vec<u8>, want: usize },
}

/// The bytes after the head in `buf`.
pub open spec fn after_head(buf: Seq<u8>, start: nat) -> Seq<u8> {
    if buf.len() > start {
        buf.subrange(start as int, buf.len() as int)
    } else {
        seq![]
    }
}

/// The body plan as plain values: the whole body, or the body so far with
/// the length wanted, or the refusal of a body over the limit.
pub open spec fn body_plan(buf: Seq<u8>, start: nat, cl: Option<usize>) -> Option<(Seq<u8>, Option<usize>)> {
    let partial = after_head(buf, start);
    match cl {
        Some(n) => if n > MAX_BODY_BYTES {
            None
        } else if partial.len() >= n {
            Some((partial.subrange(0, n as int), None))
        } else {
            Some((partial, Some(n)))
        },
        None => Some((partial, None)),
    }
}

/// A plan read as plain values.
pub open spec fn plan_view(p: BodyPlan) -> (Seq<u8>, Option<usize>) {
    match p {
        BodyPlan::Ready(b) => (b@, None),
        BodyPlan::NeedMore { have, want } => (have@, Some(want)),
    }
}

/// What of the body `buf` already holds past the head starting at `start`,
/// given the declared length; a body over the limit is refused (400,
/// "Body too large").
pub fn plan_body(buf: &[u8], start: usize, content_length: Option<usize>) -> (r: Result<BodyPlan, ServerError>)
    ensures
        match r {
            Ok(p) => body_plan(buf@, start as nat, content_length) == Some(plan_view(p)),
            Err(e) => body_plan(buf@, start as nat, content_length) is None && e.status == 400
                && e.message@ == "Body too large"@,
        },
{
    let n = buf.len();
    let partial: Vec<u8> = if n > start {
        vstd::slice::slice_to_vec(vstd::slice::slice_subrange(buf, start, n))
    } else {
        Vec::new()
    };
    match content_length {
        Some(cl) => {
            if cl > MAX_BODY_BYTES {
                return Err(ServerError::new(400, "Body too large"));
            }
            if partial.len() >= cl {
                let body = vstd::slice::slice_to_vec(vstd::slice::slice_subrange(partial.as_slice(), 0, cl));
                Ok(BodyPlan::Ready(body))
            } else {
                Ok(BodyPlan::NeedMore { have: partial, want: cl })
            }
        },
        None => Ok(BodyPlan::Ready(partial)),
    }
}

/// The request a head and its body make, the query string parsed.
pub fn build_request(head: Head, body: Vec<u8>, remote_addr: Option<String>) -> (r: Request)
    ensures
        r.method == head.method,
        r.path@ == head.path@,
        r.query_string@ == head.query_string@,
        r.query@ == query_map(head.query_string@),
        r.version@ == head.version@,
        strings_pairs(r.headers@) == strings_pairs(head.headers@),
        r.params@ == Map::<Seq<char>, Seq<char>>::empty(),
        r.body@ == body@,
        r.remote_addr == remote_addr,
{
    let query = parse_query(head.query_string.as_str());
    Request {
        method: head.method,
        path: head.path,
        query_string: head.query_string,
        query,
        version: head.version,
        headers: head.headers,
        params: StrMap::new(),
        body,
        remote_addr,
    }
}

// ─── The connection ──────────────────────────────────────────────────────────

/// Whether the connection stays open after this request: `Connection:
/// close` ends it, `Connection: keep-alive` keeps it, and otherwise
/// HTTP/1.0 ends it and later versions keep it.
pub open spec fn keeps_alive(headers: Seq<(String, String)>, version: Seq<char>) -> bool {
    match lookup(strings_pairs(headers), "connection"@) {
        Some(v) => if crate::text::eq_ignore_case(v, "close"@) {
            false
        } else if crate::text::eq_ignore_case(v, "keep-alive"@) {
            true
        } else {
            version != "HTTP/1.0"@
        },
        None => version != "HTTP/1.0"@,
    }
}

/// Whether the connection stays open after `req`.
pub fn keep_alive(req: &Request) -> (r: bool)
    ensures
        r == keeps_alive(req.headers@, req.version@),
{
    match req.header("connection") {
        Some(v) => {
            if str_eq_ignore_case(v, "close") {
                false
            } else if str_eq_ignore_case(v, "keep-alive") {
                true
            } else {
                !str_eq(req.version.as_str(), "HTTP/1.0")
            }
        },
        None => !str_eq(req.version.as_str(), "HTTP/1.0"),
    }
}

/// The request asks to become a WebSocket: `Upgrade: websocket` (any case)
/// and a `Connection` header mentioning `upgrade` (any case).
pub open spec fn asks_upgrade(headers: Seq<(String, String)>) -> bool {
    &&& lookup(strings_pairs(headers), "upgrade"@) matches Some(u) && crate::text::eq_ignore_case(
        u,
        "websocket"@,
    )
    &&& lookup(strings_pairs(headers), "connection"@) matches Some(c) && crate::text::contains(
        lower(c),
        "upgrade"@,
    )
}

/// With `Upgrade: websocket` (any case), a `Connection` value that holds the
/// token `upgrade` in any case anywhere in it, such as the list
/// `keep-alive, Upgrade`, makes the request a WebSocket upgrade.
pub proof fn lemma_upgrade_token_anywhere(
    headers: Seq<(String, String)>,
    u: Seq<char>,
    pre: Seq<char>,
    t: Seq<char>,
    post: Seq<char>,
)
    requires
        lookup(strings_pairs(headers), "upgrade"@) == Some(u),
        lower(u) == "websocket"@,
        lookup(strings_pairs(headers), "connection"@) == Some(pre + t + post),
        lower(t) == "upgrade"@,
    ensures
        asks_upgrade(headers),
{
    let c = pre + t + post;
    let pat = "upgrade"@;
    reveal_strlit("upgrade");
    reveal_strlit("websocket");
    assert(lower(pat) =~= pat);
    assert(lower("websocket"@) =~= "websocket"@);
    assert(lower(c) =~= lower(pre) + lower(t) + lower(post));
    assert(lower(c).subrange(pre.len() as int, (pre.len() + pat.len()) as int) =~= pat);
    assert(crate::text::matches_at(lower(c), pat, pre.len() as int));
    crate::text::lemma_find_from(lower(c), pat, 0);
}

/// Whether `req` asks to become a WebSocket.
pub fn is_websocket_upgrade(req: &Request) -> (r: bool)
    ensures
        r == asks_upgrade(req.headers@),
{
    let up = match req.header("upgrade") {
        Some(v) => str_eq_ignore_case(v, "websocket"),
        None => false,
    };
    if !up {
        return false;
    }
    match req.header("connection") {
        Some(v) => {
            let l = to_ascii_lowercase(v);
            let lc = chars_of(l.as_str());
            let pat = chars_of("upgrade");
            crate::text::find_chars(&lc, &pat, 0).is_some()
        },
        None => false,
    }
}

/// The `101 Switching Protocols` answer carrying `accept_key`.
pub open spec fn switching_text(accept_key: Seq<char>) -> Seq<char> {
    "HTTP/1.1 101 Switching Protocols\r\nUpgrade: websocket\r\nConnection: Upgrade\r\nSec-WebSocket-Accept: "@
        + accept_key + "\r\n\r\n"@
}

/// The `101 Switching Protocols` answer carrying `accept_key`.
pub fn switching_protocols(accept_key: &str) -> (r: String)
    ensures
        r@ == switching_text(accept_key@),
{
    let mut s = to_string(
        "HTTP/1.1 101 Switching Protocols\r\nUpgrade: websocket\r\nConnection: Upgrade\r\nSec-WebSocket-Accept: ",
    );
    push_str(&mut s, accept_key);
    push_str(&mut s, "\r\n\r\n");
    s
}

/// The `connection` header a response gets, if it needs one: `close` when
/// the connection ends, `keep-alive` when it stays open and the response
/// does not say already.
pub open spec fn connection_header(keep: bool, response_has_connection: bool) -> Option<Seq<char>> {
    if !keep {
        Some("close"@)
    } else if !response_has_connection {
        Some("keep-alive"@)
    } else {
        None
    }
}

/// The `connection` header a response gets, if it needs one.
pub fn connection_value(keep: bool, response_has_connection: bool) -> (r: Option<&'static str>)
    ensures
        match r {
            Some(v) => connection_header(keep, response_has_connection) == Some(v@),
            None => connection_header(keep, response_has_connection) is None,
        },
{
    if !keep {
        Some("close")
    } else if !response_has_connection {
        Some("keep-alive")
    } else {
        None
    }
}

// ─── Dispatch ────────────────────────────────────────────────────────────────

/// Who answers a request.
pub enum Plan<'a, H> {
    /// A route's handler, with the parameters it captured.
    Route(&'a H, StrMap),
    /// The router's fallback handler.
    Fallback(&'a H),
    /// An error answer with this status and message.
    Error(u16, String),
}

/// Who answers, as plain values.
pub enum PlanView<H> {
    Route(H, Map<Seq<char>, Seq<char>>),
    Fallback(H),
    Error(u16, Seq<char>),
}

/// A plan read as plain values.
pub open spec fn plan_view_of<'a, H>(p: Plan<'a, H>) -> PlanView<H> {
    match p {
        Plan::Route(h, params) => PlanView::Route(*h, params@),
        Plan::Fallback(h) => PlanView::Fallback(*h),
        Plan::Error(code, m) => PlanView::Error(code, m@),
    }
}

/// Who answers `m` at `path` on a router with trie `root` and fallback
/// `fallback`: the matched route; for a known path with another method,
/// 405; for an unknown path the fallback, or 404.
pub open spec fn dispatch_plan<H>(root: crate::router::Node<H>, fallback: Option<H>, m: Method, path: Seq<char>) -> PlanView<H> {
    match resolution(root, m, path) {
        Verdict::Found { handler, params, .. } => PlanView::Route(handler, params),
        Verdict::MethodNotAllowed => PlanView::Error(
            405,
            "Method "@ + method_name(m) + " not allowed on "@ + path,
        ),
        Verdict::NotFound => match fallback {
            Some(h) => PlanView::Fallback(h),
            None => PlanView::Error(404, "No route for "@ + method_name(m) + seq![' '] + path),
        },
    }
}

/// Decides who answers a request for `m` at `path`.
pub fn plan_dispatch<'a, H, M, W>(router: &'a Router<H, M, W>, m: Method, path: &str) -> (r: Plan<'a, H>)
    ensures
        plan_view_of(r) == dispatch_plan(router.trie(), router.fallback_handler(), m, path@),
{
    let res = router.resolve(m, path);
    let ghost v = resolution(router.trie(), m, path@);
    match res {
        RouteResolution::Found { handler, params, meta } => {
            let r = Plan::Route(handler, params);
            r
        },
        RouteResolution::MethodNotAllowed => {
            assert(v is MethodNotAllowed);
            let mut msg = to_string("Method ");
            push_str(&mut msg, m.as_str());
            push_str(&mut msg, " not allowed on ");
            push_str(&mut msg, path);
            Plan::Error(405, msg)
        },
        RouteResolution::NotFound => match router.fallback() {
            Some(h) => Plan::Fallback(h),
            None => {
                let mut msg = to_string("No route for ");
                push_str(&mut msg, m.as_str());
                crate::text::push_char(&mut msg, ' ');
                push_str(&mut msg, path);
                assert(msg@ =~= "No route for "@ + method_name(m) + seq![' '] + path@);
                Plan::Error(404, msg)
            },
        },
    }
}

// ─── Writing the response ────────────────────────────────────────────────────

/// The UTF-8 bytes of a text.
pub open spec fn bytes_of(s: Seq<char>) -> Seq<u8> {
    encode_utf8(s)
}

/// The header lines of a response.
pub open spec fn header_lines(hs: Seq<(Seq<char>, Seq<char>)>) -> Seq<u8>
    decreases hs.len(),
{
    if hs.len() == 0 {
        seq![]
    } else {
        header_lines(hs.drop_last()) + bytes_of(hs.last().0) + bytes_of(": "@) + bytes_of(hs.last().1)
            + bytes_of("\r\n"@)
    }
}

/// Some header of `hs` is named `name`, ignoring ASCII case.
pub open spec fn has_header(hs: Seq<(Seq<char>, Seq<char>)>, name: Seq<char>) -> bool {
    exists|i: int| 0 <= i < hs.len() && crate::text::eq_ignore_case(#[trigger] hs[i].0, name)
}

/// The bytes of a response: the status line, the headers, `content-length`
/// and `connection: keep-alive` when the headers lack them, a blank line,
/// then the body.
pub open spec fn response_bytes(code: u16, reason: Seq<char>, hs: Seq<(Seq<char>, Seq<char>)>, body: Seq<u8>) -> Seq<u8> {
    bytes_of("HTTP/1.1 "@ + decimal(code as nat) + seq![' '] + reason + "\r\n"@) + header_lines(hs)
        + (if has_header(hs, "content-length"@) {
        seq![]
    } else {
        bytes_of("content-length: "@ + decimal(body.len()) + "\r\n"@)
    }) + (if has_header(hs, "connection"@) {
        seq![]
    } else {
        bytes_of("connection: keep-alive\r\n"@)
    }) + bytes_of("\r\n"@) + body
}

fn push_text(out: &mut Vec<u8>, s: &str)
    ensures
        final(out)@ == old(out)@ + bytes_of(s@),
{
    let b = s.as_bytes();
    let mut i: usize = 0;
    let ghost start = out@;
    while i < b.len()
        invariant
            i <= b@.len(),
            b@ == bytes_of(s@),
            out@ == start + b@.subrange(0, i as int),
        decreases b.len() - i,
    {
        out.push(b[i]);
        assert(b@.subrange(0, i + 1) =~= b@.subrange(0, i as int).push(b@[i as int]));
        assert(out@ =~= start + b@.subrange(0, i + 1));
        i = i + 1;
    }
    assert(b@.subrange(0, b@.len() as int) =~= b@);
}

pub proof fn lemma_bytes_concat(a: Seq<char>, b: Seq<char>)
    ensures
        bytes_of(a + b) == bytes_of(a) + bytes_of(b),
    decreases a.len(),
{
    if a.len() == 0 {
        assert(a + b =~= b);
        assert(bytes_of(a) =~= Seq::<u8>::empty());
        assert(bytes_of(a) + bytes_of(b) =~= bytes_of(b));
    } else {
        assert((a + b).drop_first() =~= a.drop_first() + b);
        assert((a + b)[0] == a[0]);
        lemma_bytes_concat(a.drop_first(), b);
        assert(bytes_of(a + b) =~= bytes_of(a) + bytes_of(b));
    }
}

/// The bytes of a response with status `code` (`reason` its phrase),
/// headers `headers` and body `body`, ready to write in one go.
pub fn serialize_response(code: u16, reason: &str, headers: &Vec<(String, String)>, body: &[u8]) -> (r: Vec<u8>)
    ensures
        r@ == response_bytes(code, reason@, strings_pairs(headers@), body@),
{
    let ghost hs = strings_pairs(headers@);
    let mut out: Vec<u8> = Vec::new();
    let mut line = to_string("HTTP/1.1 ");
    push_str(&mut line, decimal_string(code as u64).as_str());
    crate::text::push_char(&mut line, ' ');
    push_str(&mut line, reason);
    push_str(&mut line, "\r\n");
    push_text(&mut out, line.as_str());
    let ghost head = out@;
    let mut has_len = false;
    let mut has_conn = false;
    let mut i: usize = 0;
    while i < headers.len()
        invariant
            i <= headers@.len(),
            hs == strings_pairs(headers@),
            out@ == head + header_lines(hs.subrange(0, i as int)),
            has_len == has_header(hs.subrange(0, i as int), "content-length"@),
            has_conn == has_header(hs.subrange(0, i as int), "connection"@),
        decreases headers.len() - i,
    {
        let ghost pre = hs.subrange(0, i + 1);
        assert(pre.drop_last() =~= hs.subrange(0, i as int));
        assert(pre.last() == (headers@[i as int].0@, headers@[i as int].1@));
        let k = headers[i].0.as_str();
        let v = headers[i].1.as_str();
        let is_len = str_eq_ignore_case(k, "content-length");
        let is_conn = str_eq_ignore_case(k, "connection");
        proof {
            assert(has_header(pre, "content-length"@) == (has_header(hs.subrange(0, i as int), "content-length"@) || is_len)) by {
                if is_len {
                    assert(crate::text::eq_ignore_case(pre[i as int].0, "content-length"@));
                }
                if has_header(pre, "content-length"@) && !is_len {
                    let j = choose|j: int| 0 <= j < pre.len() && crate::text::eq_ignore_case(#[trigger] pre[j].0, "content-length"@);
                    assert(hs.subrange(0, i as int)[j] == pre[j]);
                }
                if has_header(hs.subrange(0, i as int), "content-length"@) {
                    let j = choose|j: int| 0 <= j < i && crate::text::eq_ignore_case(#[trigger] hs.subrange(0, i as int)[j].0, "content-length"@);
                    assert(pre[j] == hs.subrange(0, i as int)[j]);
                }
            }
            assert(has_header(pre, "connection"@) == (has_header(hs.subrange(0, i as int), "connection"@) || is_conn)) by {
                if is_conn {
                    assert(crate::text::eq_ignore_case(pre[i as int].0, "connection"@));
                }
                if has_header(pre, "connection"@) && !is_conn {
                    let j = choose|j: int| 0 <= j < pre.len() && crate::text::eq_ignore_case(#[trigger] pre[j].0, "connection"@);
                    assert(hs.subrange(0, i as int)[j] == pre[j]);
                }
                if has_header(hs.subrange(0, i as int), "connection"@) {
                    let j = choose|j: int| 0 <= j < i && crate::text::eq_ignore_case(#[trigger] hs.subrange(0, i as int)[j].0, "connection"@);
                    assert(pre[j] == hs.subrange(0, i as int)[j]);
                }
            }
        }
        if is_len {
            has_len = true;
        }
        if is_conn {
            has_conn = true;
        }
        let ghost before = out@;
        push_text(&mut out, k);
        push_text(&mut out, ": ");
        push_text(&mut out, v);
        push_text(&mut out, "\r\n");
        assert(out@ =~= head + header_lines(pre));
        i = i + 1;
    }
    assert(hs.subrange(0, hs.len() as int) =~= hs);
    let ghost mid = out@;
    if !has_len {
        let mut l = to_string("content-length: ");
        push_str(&mut l, decimal_string(body.len() as u64).as_str());
        push_str(&mut l, "\r\n");
        push_text(&mut out, l.as_str());
    }
    let ghost mid2 = out@;
    if !has_conn {
        push_text(&mut out, "connection: keep-alive\r\n");
    }
    push_text(&mut out, "\r\n");
    let ghost mid3 = out@;
    let mut j: usize = 0;
    while j < body.len()
        invariant
            j <= body@.len(),
            out@ == mid3 + body@.subrange(0, j as int),
        decreases body.len() - j,
    {
        out.push(body[j]);
        assert(body@.subrange(0, j + 1) =~= body@.subrange(0, j as int).push(body@[j as int]));
        assert(out@ =~= mid3 + body@.subrange(0, j + 1));
        j = j + 1;
    }
    assert(body@.subrange(0, body@.len() as int) =~= body@);
    proof {
        let l1 = "HTTP/1.1 "@ + decimal(code as nat) + seq![' '] + reason@ + "\r\n"@;
        assert(line@ =~= l1);
    }
    assert(out@ =~= response_bytes(code, reason@, hs, body@));
    out
}


/// The reason phrase sent with a status code.
pub open spec fn reason_text(code: u16) -> Seq<char> {
    if code == 101 {
        "Switching Protocols"@
    } else if code == 200 {
        "OK"@
    } else if code == 201 {
        "Created"@
    } else if code == 204 {
        "No Content"@
    } else if code == 301 {
        "Moved Permanently"@
    } else if code == 302 {
        "Found"@
    } else if code == 304 {
        "Not Modified"@
    } else if code == 400 {
        "Bad Request"@
    } else if code == 401 {
        "Unauthorized"@
    } else if code == 403 {
        "Forbidden"@
    } else if code == 404 {
        "Not Found"@
    } else if code == 405 {
        "Method Not Allowed"@
    } else if code == 413 {
        "Payload Too Large"@
    } else if code == 429 {
        "Too Many Requests"@
    } else if code == 500 {
        "Internal Server Error"@
    } else if code == 503 {
        "Service Unavailable"@
    } else {
        "Unknown"@
    }
}

/// The reason phrase for a status code's status line.
pub fn reason_phrase(code: u16) -> (r: &'static str)
    ensures
        r@ == reason_text(code),
{
    if code == 101 {
        "Switching Protocols"
    } else if code == 200 {
        "OK"
    } else if code == 201 {
        "Created"
    } else if code == 204 {
        "No Content"
    } else if code == 301 {
        "Moved Permanently"
    } else if code == 302 {
        "Found"
    } else if code == 304 {
        "Not Modified"
    } else if code == 400 {
        "Bad Request"
    } else if code == 401 {
        "Unauthorized"
    } else if code == 403 {
        "Forbidden"
    } else if code == 404 {
        "Not Found"
    } else if code == 405 {
        "Method Not Allowed"
    } else if code == 413 {
        "Payload Too Large"
    } else if code == 429 {
        "Too Many Requests"
    } else if code == 500 {
        "Internal Server Error"
    } else if code == 503 {
        "Service Unavailable"
    } else {
        "Unknown"
    }
}

} // verus!
