//! Request model: HTTP methods, query strings and form bodies.
use vstd::prelude::*;
use vstd::utf8::*;
use vstd::string::StringSliceAdditionalSpecFns;
use crate::strmap::StrMap;
use crate::headers::{lookup, strings_pairs};
use crate::text::{
    after_char, before_char, chars_eq, chars_of, parse_usize, parse_usize_chars, str_eq_ignore_case, lemma_str_bytes_decode, split_chars, split_on,
    split_once_char, strings_view, to_string, utf8_str,
};

verus! {

/// An HTTP request method.
#[derive(Debug, Clone, Copy, PartialEq, Eq, Structural, Hash)]
pub enum Method {
    Get,
    Post,
    Put,
    Delete,
    Patch,
    Head,
    Options,
}

/// The name of a method as it appears on the request line.
pub open spec fn method_name(m: Method) -> Seq<char> {
    match m {
        Method::Get => "GET"@,
        Method::Post => "POST"@,
        Method::Put => "PUT"@,
        Method::Delete => "DELETE"@,
        Method::Patch => "PATCH"@,
        Method::Head => "HEAD"@,
        Method::Options => "OPTIONS"@,
    }
}

/// The method whose name is exactly `s`, if any.
pub open spec fn method_named(s: Seq<char>) -> Option<Method> {
    if s == "GET"@ {
        Some(Method::Get)
    } else if s == "POST"@ {
        Some(Method::Post)
    } else if s == "PUT"@ {
        Some(Method::Put)
    } else if s == "DELETE"@ {
        Some(Method::Delete)
    } else if s == "PATCH"@ {
        Some(Method::Patch)
    } else if s == "HEAD"@ {
        Some(Method::Head)
    } else if s == "OPTIONS"@ {
        Some(Method::Options)
    } else {
        None
    }
}

/// The method whose name, as bytes, is exactly `b`, if any.
pub open spec fn method_of_bytes(b: Seq<u8>) -> Option<Method> {
    if b == seq![71u8, 69, 84] {
        Some(Method::Get)
    } else if b == seq![80u8, 79, 83, 84] {
        Some(Method::Post)
    } else if b == seq![80u8, 85, 84] {
        Some(Method::Put)
    } else if b == seq![68u8, 69, 76, 69, 84, 69] {
        Some(Method::Delete)
    } else if b == seq![80u8, 65, 84, 67, 72] {
        Some(Method::Patch)
    } else if b == seq![72u8, 69, 65, 68] {
        Some(Method::Head)
    } else if b == seq![79u8, 80, 84, 73, 79, 78, 83] {
        Some(Method::Options)
    } else {
        None
    }
}

impl Default for Method {
    fn default() -> (m: Method)
        ensures
            m == Method::Get,
    {
        Method::Get
    }
}

fn bytes_eq(a: &[u8], b: &[u8]) -> (r: bool)
    ensures
        r == (a@ == b@),
{
    if a.len() != b.len() {
        return false;
    }
    let mut i: usize = 0;
    while i < a.len()
        invariant
            i <= a@.len(),
            a@.len() == b@.len(),
            forall|k: int| 0 <= k < i ==> a@[k] == b@[k],
        decreases a.len() - i,
    {
        if a[i] != b[i] {
            return false;
        }
        i = i + 1;
    }
    assert(a@ =~= b@);
    true
}

impl Method {
    /// The method's name: `GET`, `POST`, ...
    pub fn as_str(&self) -> (s: &'static str)
        ensures
            s@ == method_name(*self),
    {
        match self {
            Method::Get => "GET",
            Method::Post => "POST",
            Method::Put => "PUT",
            Method::Delete => "DELETE",
            Method::Patch => "PATCH",
            Method::Head => "HEAD",
            Method::Options => "OPTIONS",
        }
    }

    /// The method named by the given bytes, or `None` for any other bytes.
    pub fn from_bytes(bytes: &[u8]) -> (m: Option<Method>)
        ensures
            m == method_of_bytes(bytes@),
    {
        let get = [71u8, 69, 84];
        let post = [80u8, 79, 83, 84];
        let put = [80u8, 85, 84];
        let delete = [68u8, 69, 76, 69, 84, 69];
        let patch = [80u8, 65, 84, 67, 72];
        let head = [72u8, 69, 65, 68];
        let options = [79u8, 80, 84, 73, 79, 78, 83];
        if bytes_eq(bytes, &get) {
            Some(Method::Get)
        } else if bytes_eq(bytes, &post) {
            Some(Method::Post)
        } else if bytes_eq(bytes, &put) {
            Some(Method::Put)
        } else if bytes_eq(bytes, &delete) {
            Some(Method::Delete)
        } else if bytes_eq(bytes, &patch) {
            Some(Method::Patch)
        } else if bytes_eq(bytes, &head) {
            Some(Method::Head)
        } else if bytes_eq(bytes, &options) {
            Some(Method::Options)
        } else {
            None
        }
    }
}

/// The method whose name is exactly the given characters.
pub fn method_from_chars(s: &[char]) -> (m: Option<Method>)
    ensures
        m == method_named(s@),
{
    if chars_eq(s, &chars_of("GET")) {
        Some(Method::Get)
    } else if chars_eq(s, &chars_of("POST")) {
        Some(Method::Post)
    } else if chars_eq(s, &chars_of("PUT")) {
        Some(Method::Put)
    } else if chars_eq(s, &chars_of("DELETE")) {
        Some(Method::Delete)
    } else if chars_eq(s, &chars_of("PATCH")) {
        Some(Method::Patch)
    } else if chars_eq(s, &chars_of("HEAD")) {
        Some(Method::Head)
    } else if chars_eq(s, &chars_of("OPTIONS")) {
        Some(Method::Options)
    } else {
        None
    }
}

// ─── Percent-decoding ────────────────────────────────────────────────────────

/// The value of an ASCII hexadecimal digit.
pub open spec fn hex_value(c: u8) -> Option<u8> {
    if 48 <= c <= 57 {
        Some((c - 48) as u8)
    } else if 97 <= c <= 102 {
        Some((c - 87) as u8)
    } else if 65 <= c <= 70 {
        Some((c - 55) as u8)
    } else {
        None
    }
}

/// The byte two characters after a `%` stand for, as `u8::from_str_radix`
/// reads them in base 16: two hex digits, or a `+` sign and one digit.
pub open spec fn hex_pair(a: u8, b: u8) -> Option<u8> {
    if a == 43 {
        hex_value(b)
    } else {
        match (hex_value(a), hex_value(b)) {
            (Some(x), Some(y)) => Some((x * 16 + y) as u8),
            _ => None,
        }
    }
}

/// Percent-decoding of bytes: `%XY` with a readable `XY` becomes that byte,
/// `+` becomes a space, anything else stays.
pub open spec fn pct_bytes(b: Seq<u8>) -> Seq<u8>
    decreases b.len(),
{
    if b.len() == 0 {
        seq![]
    } else if b[0] == 37 && b.len() > 2 && hex_pair(b[1], b[2]) is Some {
        seq![hex_pair(b[1], b[2])->0] + pct_bytes(b.subrange(3, b.len() as int))
    } else if b[0] == 43 {
        seq![32u8] + pct_bytes(b.drop_first())
    } else {
        seq![b[0]] + pct_bytes(b.drop_first())
    }
}

/// Percent-decoding of text: the decoded bytes read as UTF-8, or nothing
/// when they are not valid UTF-8.
pub open spec fn pct(s: Seq<char>) -> Seq<char> {
    let out = pct_bytes(encode_utf8(s));
    if valid_utf8(out) {
        decode_utf8(out)
    } else {
        seq![]
    }
}

fn hex_digit(c: u8) -> (r: Option<u8>)
    ensures
        r == hex_value(c),
{
    if 48 <= c && c <= 57 {
        Some(c - 48)
    } else if 97 <= c && c <= 102 {
        Some(c - 87)
    } else if 65 <= c && c <= 70 {
        Some(c - 55)
    } else {
        None
    }
}

fn hex_byte(a: u8, b: u8) -> (r: Option<u8>)
    ensures
        r == hex_pair(a, b),
{
    if a == 43 {
        hex_digit(b)
    } else {
        match (hex_digit(a), hex_digit(b)) {
            (Some(x), Some(y)) => Some(x * 16 + y),
            _ => None,
        }
    }
}

/// Decodes `%XY` escapes and `+` in a URL-encoded component. On ASCII
/// text it undoes `url_encode` (`auth::lemma_percent_decode_url_encode`).
pub fn percent_decode(s: &str) -> (r: String)
    ensures
        r@ == pct(s@),
{
    let b = s.as_bytes();
    let n = b.len();
    let mut out: Vec<u8> = Vec::new();
    let mut i: usize = 0;
    assert(b@.subrange(0, n as int) =~= b@);
    while i < n
        invariant
            i <= n,
            n == b@.len(),
            out@ + pct_bytes(b@.subrange(i as int, n as int)) == pct_bytes(b@),
        decreases n - i,
    {
        let ghost rest = b@.subrange(i as int, n as int);
        let ghost before = out@;
        if b[i] == 37 && n - i > 2 {
            match hex_byte(b[i + 1], b[i + 2]) {
                Some(x) => {
                    out.push(x);
                    assert(rest.subrange(3, rest.len() as int) =~= b@.subrange(i + 3, n as int));
                    assert(out@ + pct_bytes(b@.subrange(i + 3, n as int)) =~= before + pct_bytes(rest));
                    i = i + 3;
                    continue;
                },
                None => {},
            }
        }
        if b[i] == 43 {
            out.push(32);
        } else {
            out.push(b[i]);
        }
        assert(rest.drop_first() =~= b@.subrange(i + 1, n as int));
        assert(out@ + pct_bytes(b@.subrange(i + 1, n as int)) =~= before + pct_bytes(rest));
        i = i + 1;
    }
    assert(b@.subrange(n as int, n as int) =~= Seq::<u8>::empty());
    assert(out@ =~= pct_bytes(b@));
    match utf8_str(out.as_slice()) {
        Some(t) => {
            proof {
                lemma_str_bytes_decode(t, out@);
            }
            to_string(t)
        },
        None => String::new(),
    }
}

// ─── Query strings and forms ─────────────────────────────────────────────────

/// The decoded (key, value) of one `key=value` piece; a piece without `=` is
/// a key with an empty value.
pub open spec fn piece_pair(p: Seq<char>) -> (Seq<char>, Seq<char>) {
    (pct(before_char(p, '=')), pct(after_char(p, '=')))
}

/// The map after inserting the pair of each piece in turn (later pieces
/// win), skipping empty pieces when `skip_empty` holds.
pub open spec fn fold_pairs(m: Map<Seq<char>, Seq<char>>, pieces: Seq<Seq<char>>, skip_empty: bool) -> Map<
    Seq<char>,
    Seq<char>,
>
    decreases pieces.len(),
{
    if pieces.len() == 0 {
        m
    } else if skip_empty && pieces[0].len() == 0 {
        fold_pairs(m, pieces.drop_first(), skip_empty)
    } else {
        fold_pairs(
            m.insert(piece_pair(pieces[0]).0, piece_pair(pieces[0]).1),
            pieces.drop_first(),
            skip_empty,
        )
    }
}

/// The parameters of a query string (`a=1&b=2`).
pub open spec fn query_map(qs: Seq<char>) -> Map<Seq<char>, Seq<char>> {
    if qs.len() == 0 {
        Map::empty()
    } else {
        fold_pairs(Map::empty(), split_on(qs, seq!['&']), false)
    }
}

/// The fields of an `application/x-www-form-urlencoded` body, or `None` when
/// it is not UTF-8.
pub open spec fn form_map(body: Seq<u8>) -> Option<Map<Seq<char>, Seq<char>>> {
    if valid_utf8(body) {
        Some(fold_pairs(Map::empty(), split_on(decode_utf8(body), seq!['&']), true))
    } else {
        None
    }
}

fn insert_pairs(m: &mut StrMap, pieces: &Vec<String>, skip_empty: bool)
    ensures
        final(m)@ == fold_pairs(old(m)@, strings_view(pieces@), skip_empty),
{
    let ghost all = strings_view(pieces@);
    let mut k: usize = 0;
    assert(all.subrange(0, all.len() as int) =~= all);
    while k < pieces.len()
        invariant
            k <= pieces@.len(),
            all == strings_view(pieces@),
            fold_pairs(m@, all.subrange(k as int, all.len() as int), skip_empty) == fold_pairs(
                old(m)@,
                all,
                skip_empty,
            ),
        decreases pieces.len() - k,
    {
        let ghost rest = all.subrange(k as int, all.len() as int);
        assert(rest.drop_first() =~= all.subrange(k + 1, all.len() as int));
        assert(rest[0] == pieces@[k as int]@);
        let p = &pieces[k];
        if !(skip_empty && p.as_str().is_empty()) {
            let (key, val) = split_once_char(p.as_str(), '=');
            m.insert(percent_decode(key.as_str()), percent_decode(val.as_str()));
        }
        k = k + 1;
    }
}

/// Parses a query string into its parameters; a repeated key keeps its last
/// value.
pub fn parse_query(qs: &str) -> (r: StrMap)
    ensures
        r@ == query_map(qs@),
{
    let mut map = StrMap::new();
    if qs.is_empty() {
        return map;
    }
    let cs = chars_of(qs);
    let amp = ['&'];
    assert(amp@ =~= seq!['&']);
    let pieces = split_chars(&cs, &amp);
    insert_pairs(&mut map, &pieces, false);
    map
}

/// Parses an `application/x-www-form-urlencoded` body.
pub fn parse_form(body: &[u8]) -> (r: Option<StrMap>)
    ensures
        r is Some <==> form_map(body@) is Some,
        r matches Some(m) ==> m@ == form_map(body@)->0,
{
    match utf8_str(body) {
        Some(t) => {
            proof {
                lemma_str_bytes_decode(t, body@);
            }
            let mut map = StrMap::new();
            let cs = chars_of(t);
            let amp = ['&'];
            assert(amp@ =~= seq!['&']);
            let pieces = split_chars(&cs, &amp);
            insert_pairs(&mut map, &pieces, true);
            Some(map)
        },
        None => None,
    }
}

// ─── Errors ──────────────────────────────────────────────────────────────────

/// Why a request body could not be read; each is answered with status 400.
#[derive(Debug)]
pub enum RequestError {
    FormNotUtf8,
    InvalidJson(String),
    MissingContentType,
    NotMultipart,
    MissingBoundary,
    MissingInitialBoundary,
    MalformedPart,
    HeadersNotUtf8,
}

/// The message of a request error.
pub open spec fn error_text(e: RequestError) -> Seq<char> {
    match e {
        RequestError::FormNotUtf8 => "Form body is not valid UTF-8"@,
        RequestError::InvalidJson(m) => m@,
        RequestError::MissingContentType => "Missing Content-Type"@,
        RequestError::NotMultipart => "Content-Type must be multipart/form-data"@,
        RequestError::MissingBoundary => "Missing multipart boundary"@,
        RequestError::MissingInitialBoundary => "Missing initial boundary"@,
        RequestError::MalformedPart => "Malformed multipart part"@,
        RequestError::HeadersNotUtf8 => "Invalid UTF-8 in headers"@,
    }
}

impl RequestError {
    /// The HTTP status the error is answered with: 400 Bad Request.
    pub fn status(&self) -> (r: u16)
        ensures
            r == 400,
    {
        400
    }

    /// The error's message.
    pub fn message(&self) -> (r: String)
        ensures
            r@ == error_text(*self),
    {
        match self {
            RequestError::FormNotUtf8 => to_string("Form body is not valid UTF-8"),
            RequestError::InvalidJson(m) => m.clone(),
            RequestError::MissingContentType => to_string("Missing Content-Type"),
            RequestError::NotMultipart => to_string("Content-Type must be multipart/form-data"),
            RequestError::MissingBoundary => to_string("Missing multipart boundary"),
            RequestError::MissingInitialBoundary => to_string("Missing initial boundary"),
            RequestError::MalformedPart => to_string("Malformed multipart part"),
            RequestError::HeadersNotUtf8 => to_string("Invalid UTF-8 in headers"),
        }
    }
}

// ─── JSON bodies ─────────────────────────────────────────────────────────────

#[verifier::external_type_specification]
#[verifier::external_body]
pub struct ExJsonError(serde_json::Error);

/// The JSON value `serde_json` reads from the bytes, or `None` when they
/// are not one JSON value.
pub uninterp spec fn json_value_of(b: Seq<u8>) -> Option<serde_json::Value>;

/// `serde_json::from_slice` into a `serde_json::Value`: the value the bytes
/// hold, or the error when they are not JSON.
#[verifier::external_body]
fn json_from_slice(b: &[u8]) -> (r: Result<serde_json::Value, serde_json::Error>)
    ensures
        r is Ok <==> json_value_of(b@) is Some,
        r matches Ok(v) ==> json_value_of(b@) == Some(v),
{
    serde_json::from_slice::<serde_json::Value>(b)
}

/// The text of a `serde_json` error (its `Display`), which names what was
/// wrong and where. Its wording is not described.
#[verifier::external_body]
fn json_error_text(e: &serde_json::Error) -> (r: String) {
    e.to_string()
}

// ─── Requests ────────────────────────────────────────────────────────────────

/// An incoming HTTP request.
#[derive(Debug)]
pub struct Request {
    pub method: Method,
    /// The path portion of the URL (no query string).
    pub path: String,
    /// Raw query string (without the leading `?`).
    pub query_string: String,
    /// Parsed query parameters.
    pub query: StrMap,
    /// HTTP version, e.g. `HTTP/1.1`.
    pub version: String,
    /// Headers, lower-case names.
    pub headers: Vec<(String, String)>,
    /// Route parameters captured by the router (`:id` → `42`).
    pub params: StrMap,
    /// Raw body bytes.
    pub body: Vec<u8>,
    /// Client address, best effort, as text.
    pub remote_addr: Option<String>,
}

impl Request {
    /// A request for `path` with nothing else set (version `HTTP/1.1`).
    pub fn new(method: Method, path: &str) -> (r: Request)
        ensures
            r.method == method,
            r.path@ == path@,
            r.query_string@.len() == 0,
            r.query@ == Map::<Seq<char>, Seq<char>>::empty(),
            r.version@ == "HTTP/1.1"@,
            r.headers@.len() == 0,
            r.params@ == Map::<Seq<char>, Seq<char>>::empty(),
            r.body@.len() == 0,
            r.remote_addr is None,
    {
        Request {
            method,
            path: to_string(path),
            query_string: String::new(),
            query: StrMap::new(),
            version: to_string("HTTP/1.1"),
            headers: Vec::new(),
            params: StrMap::new(),
            body: Vec::new(),
            remote_addr: None,
        }
    }

    /// The value of the first header named `key`, ignoring ASCII case.
    pub fn header(&self, key: &str) -> (r: Option<&str>)
        ensures
            r is Some <==> lookup(strings_pairs(self.headers@), key@) is Some,
            r matches Some(v) ==> v@ == lookup(strings_pairs(self.headers@), key@)->0,
    {
        let ghost hp = strings_pairs(self.headers@);
        let mut i: usize = 0;
        while i < self.headers.len()
            invariant
                i <= self.headers@.len(),
                hp == strings_pairs(self.headers@),
                crate::headers::find_name(hp, key@, 0) == crate::headers::find_name(hp, key@, i as int),
            decreases self.headers.len() - i,
        {
            if str_eq_ignore_case(self.headers[i].0.as_str(), key) {
                return Some(self.headers[i].1.as_str());
            }
            i = i + 1;
        }
        None
    }

    /// The `content-type` header.
    pub fn content_type(&self) -> (r: Option<&str>)
        ensures
            r is Some <==> lookup(strings_pairs(self.headers@), "content-type"@) is Some,
            r matches Some(v) ==> v@ == lookup(strings_pairs(self.headers@), "content-type"@)->0,
    {
        self.header("content-type")
    }

    /// The `content-length` header read as a number.
    pub fn content_length(&self) -> (r: Option<usize>)
        ensures
            r == match lookup(strings_pairs(self.headers@), "content-length"@) {
                Some(v) => parse_usize(v),
                None => None,
            },
    {
        match self.header("content-length") {
            Some(v) => {
                let cs = chars_of(v);
                assert(cs@.subrange(0, cs@.len() as int) =~= cs@);
                parse_usize_chars(&cs, 0, cs.len())
            },
            None => None,
        }
    }

    /// The body read as JSON.
    pub fn json_value(&self) -> (r: Result<serde_json::Value, RequestError>)
        ensures
            r is Ok <==> json_value_of(self.body@) is Some,
            r matches Ok(v) ==> json_value_of(self.body@) == Some(v),
            r matches Err(e) ==> e is InvalidJson,
    {
        match json_from_slice(self.body.as_slice()) {
            Ok(v) => Ok(v),
            Err(e) => Err(RequestError::InvalidJson(json_error_text(&e))),
        }
    }

    /// The body read as `application/x-www-form-urlencoded` fields.
    pub fn form(&self) -> (r: Result<StrMap, RequestError>)
        ensures
            r is Ok <==> form_map(self.body@) is Some,
            r matches Ok(m) ==> m@ == form_map(self.body@)->0,
            r matches Err(e) ==> e == RequestError::FormNotUtf8,
    {
        match parse_form(self.body.as_slice()) {
            Some(m) => Ok(m),
            None => Err(RequestError::FormNotUtf8),
        }
    }

    /// A route parameter captured by the router.
    pub fn param(&self, key: &str) -> (r: Option<&str>)
        ensures
            r is Some <==> self.params@.contains_key(key@),
            r matches Some(v) ==> v@ == self.params@[key@],
    {
        match self.params.get(key) {
            Some(v) => Some(v.as_str()),
            None => None,
        }
    }

    /// A query parameter.
    pub fn query(&self, key: &str) -> (r: Option<&str>)
        ensures
            r is Some <==> self.query@.contains_key(key@),
            r matches Some(v) ==> v@ == self.query@[key@],
    {
        match self.query.get(key) {
            Some(v) => Some(v.as_str()),
            None => None,
        }
    }
}

} // verus!
