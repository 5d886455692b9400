//! `multipart/form-data` bodies: the parts of a file-upload form, each with
//! its headers and its bytes.
use vstd::prelude::*;
use vstd::utf8::*;
use vstd::string::StringSliceAdditionalSpecFns;
use crate::strmap::StrMap;
use crate::request::{Request, RequestError};
use crate::headers::{lookup, strings_pairs};
use vstd::slice::{slice_subrange, slice_to_vec};
use crate::text::{
    chars_of, chars_start_with, find, find_bytes, lemma_find_from, lemma_find_from_bytes, lemma_find_shift,
    matches_at, utf8_str, lemma_str_bytes_decode, lower, split_chars,
    split_on, str_eq, string_from_range, strings_view, to_ascii_lowercase, trim, trimmed, trimmed_range,
    lemma_trim_start_shape, lemma_trim_end_shape, trim_start, white_space,
};

verus! {

// ─── Part headers ────────────────────────────────────────────────────────────

/// `s` without its leading `c` characters.
pub open spec fn trim_char_start(s: Seq<char>, c: char) -> Seq<char>
    decreases s.len(),
{
    if s.len() > 0 && s[0] == c {
        trim_char_start(s.drop_first(), c)
    } else {
        s
    }
}

/// `s` without its trailing `c` characters.
pub open spec fn trim_char_end(s: Seq<char>, c: char) -> Seq<char>
    decreases s.len(),
{
    if s.len() > 0 && s.last() == c {
        trim_char_end(s.drop_last(), c)
    } else {
        s
    }
}

/// `s` without surrounding double quotes (`trim_matches('"')`).
pub open spec fn trim_quotes(s: Seq<char>) -> Seq<char> {
    trim_char_end(trim_char_start(s, '"'), '"')
}

/// The `name` and `filename` after reading the `;`-separated parameters of a
/// `Content-Disposition` value, in order (later ones win).
pub open spec fn disposition(params: Seq<Seq<char>>, name: Seq<char>, filename: Option<Seq<char>>) -> (
    Seq<char>,
    Option<Seq<char>>,
)
    decreases params.len(),
{
    if params.len() == 0 {
        (name, filename)
    } else {
        let p = trim(params[0]);
        let nf = if crate::text::starts_with(p, "name="@) {
            (trim_quotes(p.subrange("name="@.len() as int, p.len() as int)), filename)
        } else if crate::text::starts_with(p, "filename="@) {
            (name, Some(trim_quotes(p.subrange("filename="@.len() as int, p.len() as int))))
        } else {
            (name, filename)
        };
        disposition(params.drop_first(), nf.0, nf.1)
    }
}

/// What the header block of a part says.
pub struct PartHead {
    pub headers: Map<Seq<char>, Seq<char>>,
    pub name: Seq<char>,
    pub filename: Option<Seq<char>>,
}

/// The header block after reading `lines` in order: a line with a `:` sets
/// the lower-cased, trimmed name to the trimmed value (a later line wins);
/// a `content-disposition` line also sets the part's name and filename.
/// Lines without `:` are ignored.
pub open spec fn head_lines(lines: Seq<Seq<char>>, h: PartHead) -> PartHead
    decreases lines.len(),
{
    if lines.len() == 0 {
        h
    } else {
        let line = lines[0];
        let h2 = match find(line, seq![':']) {
            Some(idx) => {
                let key = lower(trim(line.subrange(0, idx)));
                let value = trim(line.subrange(idx + 1, line.len() as int));
                let nf = if key == "content-disposition"@ {
                    disposition(split_on(value, seq![';']), h.name, h.filename)
                } else {
                    (h.name, h.filename)
                };
                PartHead { headers: h.headers.insert(key, value), name: nf.0, filename: nf.1 }
            },
            None => h,
        };
        head_lines(lines.drop_first(), h2)
    }
}

/// `x` is a run of consecutive characters of `s`, as they stand there.
pub open spec fn is_piece(x: Seq<char>, s: Seq<char>) -> bool {
    exists|i: int, j: int| 0 <= i <= j <= s.len() && x == s.subrange(i, j)
}

proof fn lemma_piece_sub(x: Seq<char>, s: Seq<char>, i: int, j: int)
    requires
        0 <= i <= j <= s.len(),
        x == s.subrange(i, j),
    ensures
        is_piece(x, s),
{
}

proof fn lemma_piece_self(s: Seq<char>)
    ensures
        is_piece(s, s),
{
    assert(s.subrange(0, s.len() as int) =~= s);
    lemma_piece_sub(s, s, 0, s.len() as int);
}

proof fn lemma_piece_trans(x: Seq<char>, y: Seq<char>, z: Seq<char>)
    requires
        is_piece(x, y),
        is_piece(y, z),
    ensures
        is_piece(x, z),
{
    let (i, j) = choose|i: int, j: int| 0 <= i <= j <= y.len() && x == y.subrange(i, j);
    let (k, l) = choose|k: int, l: int| 0 <= k <= l <= z.len() && y == z.subrange(k, l);
    assert(x =~= z.subrange(k + i, k + j));
    lemma_piece_sub(x, z, k + i, k + j);
}

proof fn lemma_trim_char_start_piece(s: Seq<char>, c: char)
    ensures
        is_piece(trim_char_start(s, c), s),
    decreases s.len(),
{
    if s.len() > 0 && s[0] == c {
        lemma_trim_char_start_piece(s.drop_first(), c);
        lemma_piece_sub(s.drop_first(), s, 1, s.len() as int);
        lemma_piece_trans(trim_char_start(s, c), s.drop_first(), s);
    } else {
        lemma_piece_self(s);
    }
}

proof fn lemma_trim_char_end_piece(s: Seq<char>, c: char)
    ensures
        is_piece(trim_char_end(s, c), s),
    decreases s.len(),
{
    if s.len() > 0 && s.last() == c {
        lemma_trim_char_end_piece(s.drop_last(), c);
        lemma_piece_sub(s.drop_last(), s, 0, s.len() - 1);
        lemma_piece_trans(trim_char_end(s, c), s.drop_last(), s);
    } else {
        lemma_piece_self(s);
    }
}

proof fn lemma_trim_piece(s: Seq<char>)
    ensures
        is_piece(trim(s), s),
{
    lemma_trim_start_shape(s);
    let t = trim_start(s);
    lemma_trim_end_shape(t);
    lemma_piece_sub(t, s, s.len() - t.len(), s.len() as int);
    lemma_piece_sub(trim(s), t, 0, trim(s).len() as int);
    lemma_piece_trans(trim(s), t, s);
}

proof fn lemma_split_pieces(s: Seq<char>, sep: Seq<char>)
    requires
        sep.len() > 0,
    ensures
        forall|k: int| 0 <= k < split_on(s, sep).len() ==> is_piece(#[trigger] split_on(s, sep)[k], s),
    decreases s.len(),
{
    lemma_find_from(s, sep, 0);
    match find(s, sep) {
        Some(i) => {
            let rest = s.subrange(i + sep.len(), s.len() as int);
            lemma_split_pieces(rest, sep);
            lemma_piece_sub(s.subrange(0, i), s, 0, i);
            lemma_piece_sub(rest, s, i + sep.len(), s.len() as int);
            let parts = split_on(s, sep);
            assert forall|k: int| 0 <= k < parts.len() implies is_piece(#[trigger] parts[k], s) by {
                if k > 0 {
                    assert(parts[k] == split_on(rest, sep)[k - 1]);
                    lemma_piece_trans(parts[k], rest, s);
                }
            }
        },
        None => {
            lemma_piece_self(s);
        },
    }
}

proof fn lemma_disposition_pieces(params: Seq<Seq<char>>, n0: Seq<char>, f0: Option<Seq<char>>, v: Seq<char>)
    requires
        forall|k: int| 0 <= k < params.len() ==> is_piece(#[trigger] params[k], v),
    ensures
        disposition(params, n0, f0).0 == n0 || is_piece(disposition(params, n0, f0).0, v),
        disposition(params, n0, f0).1 == f0 || (disposition(params, n0, f0).1 matches Some(f)
            && is_piece(f, v)),
    decreases params.len(),
{
    if params.len() > 0 {
        let p = trim(params[0]);
        assert(is_piece(params[0], v));
        lemma_trim_piece(params[0]);
        lemma_piece_trans(p, params[0], v);
        let nf = if crate::text::starts_with(p, "name="@) {
            let x = p.subrange("name="@.len() as int, p.len() as int);
            lemma_piece_sub(x, p, "name="@.len() as int, p.len() as int);
            lemma_trim_char_start_piece(x, '"');
            lemma_trim_char_end_piece(trim_char_start(x, '"'), '"');
            lemma_piece_trans(trim_quotes(x), trim_char_start(x, '"'), x);
            lemma_piece_trans(trim_quotes(x), x, p);
            lemma_piece_trans(trim_quotes(x), p, v);
            (trim_quotes(x), f0)
        } else if crate::text::starts_with(p, "filename="@) {
            let x = p.subrange("filename="@.len() as int, p.len() as int);
            lemma_piece_sub(x, p, "filename="@.len() as int, p.len() as int);
            lemma_trim_char_start_piece(x, '"');
            lemma_trim_char_end_piece(trim_char_start(x, '"'), '"');
            lemma_piece_trans(trim_quotes(x), trim_char_start(x, '"'), x);
            lemma_piece_trans(trim_quotes(x), x, p);
            lemma_piece_trans(trim_quotes(x), p, v);
            (n0, Some(trim_quotes(x)))
        } else {
            (n0, f0)
        };
        let rest = params.drop_first();
        assert forall|k: int| 0 <= k < rest.len() implies is_piece(#[trigger] rest[k], v) by {
            assert(rest[k] == params[k + 1]);
        }
        lemma_disposition_pieces(rest, nf.0, nf.1, v);
    }
}

/// A part's header line keeps what it says: the value stored under the
/// (lower-cased, trimmed) name is the text after the first `:` exactly as
/// written, case kept, less only the white space around it; and a
/// `Content-Disposition` line sets the part's name and filename, when it
/// names them, to characters taken as they stand from that text.
pub proof fn lemma_part_header_kept(line: Seq<char>, h: PartHead, idx: int)
    requires
        find(line, seq![':']) == Some(idx),
    ensures
        ({
            let a = line.subrange(idx + 1, line.len() as int);
            let key = lower(trim(line.subrange(0, idx)));
            let r = head_lines(seq![line], h);
            &&& r.headers.contains_key(key)
            &&& exists|i: int, j: int|
                0 <= i <= j <= a.len() && r.headers[key] == a.subrange(i, j) && (forall|k: int|
                    0 <= k < i ==> white_space(#[trigger] a[k])) && (forall|k: int|
                    j <= k < a.len() ==> white_space(#[trigger] a[k])) && (r.headers[key].len() > 0
                    ==> !white_space(r.headers[key][0]) && !white_space(r.headers[key].last()))
            &&& key == "content-disposition"@ ==> (r.name == h.name || is_piece(r.name, a))
            &&& key == "content-disposition"@ ==> (r.filename == h.filename || (r.filename matches Some(
                f,
            ) && is_piece(f, a)))
        }),
{
    let a = line.subrange(idx + 1, line.len() as int);
    let t = trim_start(a);
    let v = trim(a);
    lemma_find_from(line, seq![':'], 0);
    lemma_trim_start_shape(a);
    lemma_trim_end_shape(t);
    let i = a.len() - t.len();
    let j = i + v.len();
    assert(v =~= a.subrange(i, j));
    assert forall|k: int| j <= k < a.len() implies white_space(#[trigger] a[k]) by {
        assert(a[k] == t[k - i]);
    }
    if v.len() > 0 {
        assert(v[0] == t[0]);
    }
    assert(seq![line].drop_first() =~= Seq::<Seq<char>>::empty());
    assert(seq![line][0] == line);
    lemma_trim_piece(a);
    lemma_split_pieces(v, seq![';']);
    let params = split_on(v, seq![';']);
    assert forall|k: int| 0 <= k < params.len() implies is_piece(#[trigger] params[k], a) by {
        lemma_piece_trans(params[k], v, a);
    }
    lemma_disposition_pieces(params, h.name, h.filename, a);
    let key = lower(trim(line.subrange(0, idx)));
    let nf = if key == "content-disposition"@ {
        disposition(params, h.name, h.filename)
    } else {
        (h.name, h.filename)
    };
    let h2 = PartHead { headers: h.headers.insert(key, v), name: nf.0, filename: nf.1 };
    reveal_with_fuel(head_lines, 2);
    assert(head_lines(seq![line], h) == h2);
    assert(h2.headers[key] == a.subrange(i, j));
}

/// What the header block `text` of a part says.
pub open spec fn part_head(text: Seq<char>) -> PartHead {
    head_lines(
        split_on(text, seq!['\r', '\n']),
        PartHead { headers: Map::empty(), name: seq![], filename: None },
    )
}

/// The text of an optional string.
pub open spec fn opt_text(o: Option<String>) -> Option<Seq<char>> {
    match o {
        Some(s) => Some(s@),
        None => None,
    }
}

/// `s` with surrounding double quotes removed.
fn trimmed_quotes(s: &[char], from: usize) -> (r: String)
    requires
        from <= s@.len(),
    ensures
        r@ == trim_quotes(s@.subrange(from as int, s@.len() as int)),
{
    let n = s.len();
    let mut a = from;
    while a < n && s[a] == '"'
        invariant
            from <= a <= n,
            n == s@.len(),
            trim_char_start(s@.subrange(from as int, n as int), '"') == trim_char_start(
                s@.subrange(a as int, n as int),
                '"',
            ),
        decreases n - a,
    {
        assert(s@.subrange(a as int, n as int).drop_first() =~= s@.subrange(a + 1, n as int));
        a = a + 1;
    }
    assert(trim_char_start(s@.subrange(a as int, n as int), '"') == s@.subrange(a as int, n as int));
    let mut b = n;
    while b > a && s[b - 1] == '"'
        invariant
            a <= b <= n,
            n == s@.len(),
            trim_char_end(s@.subrange(a as int, n as int), '"') == trim_char_end(
                s@.subrange(a as int, b as int),
                '"',
            ),
        decreases b - a,
    {
        assert(s@.subrange(a as int, b as int).drop_last() =~= s@.subrange(a as int, b - 1));
        b = b - 1;
    }
    string_from_range(s, a, b)
}

/// Reads the parameters of a `Content-Disposition` value.
fn read_disposition(value: &str, name: String, filename: Option<String>) -> (r: (String, Option<String>))
    ensures
        r.0@ == disposition(
            split_on(value@, seq![';']),
            name@,
            opt_text(filename),
        ).0,
        opt_text(r.1) == disposition(
            split_on(value@, seq![';']),
            name@,
            opt_text(filename),
        ).1,
{
    let cs = chars_of(value);
    let semi = [';'];
    assert(semi@ =~= seq![';']);
    let params = split_chars(&cs, &semi);
    let ghost all = strings_view(params@);
    let name_eq = chars_of("name=");
    let filename_eq = chars_of("filename=");
    let ghost n0 = name@;
    let ghost f0 = opt_text(filename);
    let mut name = name;
    let mut filename = filename;
    let mut k: usize = 0;
    assert(all.subrange(0, all.len() as int) =~= all);
    while k < params.len()
        invariant
            k <= params@.len(),
            all == strings_view(params@),
            all == split_on(value@, seq![';']),
            name_eq@ == "name="@,
            filename_eq@ == "filename="@,
            disposition(
                all.subrange(k as int, all.len() as int),
                name@,
                opt_text(filename),
            ) == disposition(
                all,
                n0,
                f0,
            ),
        decreases params.len() - k,
    {
        let ghost rest = all.subrange(k as int, all.len() as int);
        assert(rest.drop_first() =~= all.subrange(k + 1, all.len() as int));
        assert(rest[0] == params@[k as int]@);
        let pc = chars_of(params[k].as_str());
        let t = trimmed(&pc);
        let tc = chars_of(t.as_str());
        if chars_start_with(&tc, &name_eq) {
            name = trimmed_quotes(&tc, name_eq.len());
        } else if chars_start_with(&tc, &filename_eq) {
            filename = Some(trimmed_quotes(&tc, filename_eq.len()));
        }
        k = k + 1;
    }
    (name, filename)
}

/// Reads the header block of a part.
fn read_part_head(text: &str) -> (r: (StrMap, String, Option<String>))
    ensures
        r.0@ == part_head(text@).headers,
        r.1@ == part_head(text@).name,
        opt_text(r.2) == part_head(text@).filename,
{
    let cs = chars_of(text);
    let crlf = ['\r', '\n'];
    assert(crlf@ =~= seq!['\r', '\n']);
    let lines = split_chars(&cs, &crlf);
    let ghost all = strings_view(lines@);
    let colon = [':'];
    assert(colon@ =~= seq![':']);
    let mut headers = StrMap::new();
    let mut name = String::new();
    let mut filename: Option<String> = None;
    let mut k: usize = 0;
    assert(all.subrange(0, all.len() as int) =~= all);
    while k < lines.len()
        invariant
            k <= lines@.len(),
            all == strings_view(lines@),
            all == split_on(text@, seq!['\r', '\n']),
            colon@ == seq![':'],
            head_lines(
                all.subrange(k as int, all.len() as int),
                PartHead { headers: headers@, name: name@, filename: opt_text(filename) },
            ) == part_head(text@),
        decreases lines.len() - k,
    {
        let ghost rest = all.subrange(k as int, all.len() as int);
        assert(rest.drop_first() =~= all.subrange(k + 1, all.len() as int));
        assert(rest[0] == lines@[k as int]@);
        let lc = chars_of(lines[k].as_str());
        match crate::text::find_chars(&lc, &colon, 0) {
            Some(idx) => {
                proof {
                    lemma_find_from(lc@, seq![':'], 0);
                }
                let n = lc.len();
                let key = to_ascii_lowercase(trimmed_range(&lc, 0, idx).as_str());
                let value = trimmed_range(&lc, idx + 1, n);
                if str_eq(key.as_str(), "content-disposition") {
                    let (nm, fname) = read_disposition(value.as_str(), name, filename);
                    name = nm;
                    filename = fname;
                }
                headers.insert(key, value);
            },
            None => {},
        }
        k = k + 1;
    }
    (headers, name, filename)
}

// ─── Parts ───────────────────────────────────────────────────────────────────

/// One part of a multipart form.
#[derive(Debug)]
pub struct Part {
    /// The `name` of `Content-Disposition: form-data; name="..."`.
    pub name: String,
    /// The `filename` of `Content-Disposition`, if present.
    pub filename: Option<String>,
    /// The part's headers, lower-case names.
    pub headers: StrMap,
    /// The part's bytes.
    pub body: Vec<u8>,
}

/// A parsed multipart form.
#[derive(Debug)]
pub struct Multipart {
    pub parts: Vec<Part>,
}

/// What a part holds.
pub struct PartView {
    pub name: Seq<char>,
    pub filename: Option<Seq<char>>,
    pub headers: Map<Seq<char>, Seq<char>>,
    pub body: Seq<u8>,
}

impl View for Part {
    type V = PartView;

    open spec fn view(&self) -> PartView {
        PartView {
            name: self.name@,
            filename: opt_text(self.filename),
            headers: self.headers@,
            body: self.body@,
        }
    }
}

/// The views of a list of parts.
pub open spec fn parts_view(v: Seq<Part>) -> Seq<PartView> {
    v.map_values(|p: Part| p@)
}

/// How reading a multipart body ends: with the parts read, with an error,
/// or, on a body whose part would end before it starts, with a panic of
/// the slicing that reads it.
pub enum Outcome {
    Parts(Seq<PartView>),
    Fail(RequestError),
    Panic,
}

/// `prefix` followed by what an outcome holds.
pub open spec fn after_parts(prefix: Seq<PartView>, o: Outcome) -> Outcome {
    match o {
        Outcome::Parts(rest) => Outcome::Parts(prefix + rest),
        _ => o,
    }
}

/// `b` holds the two bytes `x` at `i`.
pub open spec fn at2(b: Seq<u8>, i: int, x: Seq<u8>) -> bool {
    0 <= i && i + 2 <= b.len() && b.subrange(i, i + 2) == x
}

pub open spec fn crlf() -> Seq<u8> {
    seq![13u8, 10u8]
}

pub open spec fn dashes() -> Seq<u8> {
    seq![45u8, 45u8]
}

pub open spec fn blank_line() -> Seq<u8> {
    seq![13u8, 10u8, 13u8, 10u8]
}

/// The part held by `pb` (headers, a blank line, then the body), or why it
/// is refused.
pub open spec fn read_part(pb: Seq<u8>) -> Result<PartView, RequestError> {
    match find(pb, blank_line()) {
        None => Err(RequestError::MalformedPart),
        Some(he) => if !valid_utf8(pb.subrange(0, he)) {
            Err(RequestError::HeadersNotUtf8)
        } else {
            let h = part_head(decode_utf8(pb.subrange(0, he)));
            Ok(
                PartView {
                    name: h.name,
                    filename: h.filename,
                    headers: h.headers,
                    body: pb.subrange(he + 4, pb.len() as int),
                },
            )
        },
    }
}

/// Reading parts from `cur`, just after a boundary `bnd`: a CRLF is skipped,
/// `--` ends the body, then the part runs to the next boundary (less the
/// CRLF before it); the body ends after a part followed by the closing
/// boundary or with no boundary after it.
pub open spec fn parts_from(body: Seq<u8>, bnd: Seq<u8>, cur: int) -> Outcome
    decreases body.len() - cur,
{
    if cur < 0 || cur > body.len() || bnd.len() == 0 {
        Outcome::Parts(seq![])
    } else if !at2(body, cur, crlf()) && at2(body, cur, dashes()) {
        Outcome::Parts(seq![])
    } else {
        let c = if at2(body, cur, crlf()) {
            cur + 2
        } else {
            cur
        };
        let rest = body.subrange(c, body.len() as int);
        match find(rest, bnd) {
            None => Outcome::Parts(seq![]),
            Some(pos) => {
                proof {
                    lemma_find_from_bytes(rest, bnd, 0);
                }
                let nb = c + pos;
                let pe = if nb >= 2 && body.subrange(nb - 2, nb) == crlf() {
                    nb - 2
                } else {
                    nb
                };
                if pe < c {
                    Outcome::Panic
                } else {
                    match read_part(body.subrange(c, pe)) {
                        Err(e) => Outcome::Fail(e),
                        Ok(part) => if crate::text::starts_with(rest, bnd + dashes()) {
                            Outcome::Parts(seq![part])
                        } else {
                            after_parts(seq![part], parts_from(body, bnd, nb + bnd.len()))
                        },
                    }
                }
            },
        }
    }
}

/// The delimiter line of a boundary: `--` then the boundary.
pub open spec fn delimiter(boundary: Seq<char>) -> Seq<u8> {
    dashes() + encode_utf8(boundary)
}

/// How reading `body` as a multipart body with `boundary` ends.
pub open spec fn multipart_outcome(body: Seq<u8>, boundary: Seq<char>) -> Outcome {
    let bnd = delimiter(boundary);
    match find(body, bnd) {
        None => Outcome::Fail(RequestError::MissingInitialBoundary),
        Some(f) => parts_from(body, bnd, f + bnd.len()),
    }
}

/// A parse result read as an outcome.
pub open spec fn outcome_of(r: Result<Multipart, RequestError>) -> Outcome {
    match r {
        Ok(m) => Outcome::Parts(parts_view(m.parts@)),
        Err(e) => Outcome::Fail(e),
    }
}

fn bytes_start_with(s: &[u8], from: usize, p: &[u8]) -> (r: bool)
    requires
        from <= s@.len(),
    ensures
        r == crate::text::starts_with(s@.subrange(from as int, s@.len() as int), p@),
{
    let n = s.len();
    if p.len() > n - from {
        return false;
    }
    let mut j: usize = 0;
    while j < p.len()
        invariant
            j <= p@.len(),
            from + p@.len() <= n,
            n == s@.len(),
            forall|k: int| 0 <= k < j ==> s@[from + k] == p@[k],
        decreases p.len() - j,
    {
        if s[from + j] != p[j] {
            assert(s@.subrange(from as int, n as int).subrange(0, p@.len() as int)[j as int] != p@[j as int]);
            return false;
        }
        j = j + 1;
    }
    assert(s@.subrange(from as int, n as int).subrange(0, p@.len() as int) =~= p@);
    true
}

/// Reads the part held by `pb`.
fn parse_part(pb: &[u8]) -> (r: Result<Part, RequestError>)
    ensures
        match r {
            Ok(p) => read_part(pb@) == Ok::<PartView, RequestError>(p@),
            Err(e) => read_part(pb@) == Err::<PartView, RequestError>(e),
        },
{
    let sep = [13u8, 10, 13, 10];
    assert(sep@ =~= blank_line());
    match find_bytes(pb, &sep, 0) {
        None => Err(RequestError::MalformedPart),
        Some(he) => {
            proof {
                lemma_find_from_bytes(pb@, blank_line(), 0);
            }
            let head = slice_subrange(pb, 0, he);
            match utf8_str(head) {
                None => Err(RequestError::HeadersNotUtf8),
                Some(t) => {
                    proof {
                        lemma_str_bytes_decode(t, head@);
                    }
                    let (headers, name, filename) = read_part_head(t);
                    let n = pb.len();
                    let body = slice_to_vec(slice_subrange(pb, he + 4, n));
                    Ok(Part { name, filename, headers, body })
                },
            }
        },
    }
}

/// Reads a multipart body delimited by `boundary`; `None` on a body in
/// which a part would end before it starts.
fn read_multipart(body: &[u8], boundary: &str) -> (r: Option<Result<Multipart, RequestError>>)
    ensures
        match r {
            Some(x) => outcome_of(x) == multipart_outcome(body@, boundary@),
            None => multipart_outcome(body@, boundary@) is Panic,
        },
{
    let mut bnd: Vec<u8> = Vec::new();
    bnd.push(45);
    bnd.push(45);
    let bb = boundary.as_bytes();
    let mut i: usize = 0;
    while i < bb.len()
        invariant
            i <= bb@.len(),
            bnd@ == dashes() + bb@.subrange(0, i as int),
        decreases bb.len() - i,
    {
        bnd.push(bb[i]);
        assert(bb@.subrange(0, i + 1) =~= bb@.subrange(0, i as int).push(bb@[i as int]));
        i = i + 1;
    }
    assert(bb@.subrange(0, bb@.len() as int) =~= bb@);
    assert(bnd@ =~= delimiter(boundary@));
    let mut bend: Vec<u8> = bnd.clone();
    bend.push(45);
    bend.push(45);
    assert(bend@ =~= bnd@ + dashes());
    let n = body.len();
    let first = match find_bytes(body, bnd.as_slice(), 0) {
        None => {
            return Some(Err(RequestError::MissingInitialBoundary));
        },
        Some(f) => f,
    };
    proof {
        lemma_find_from_bytes(body@, bnd@, 0);
    }
    let ghost total = parts_from(body@, bnd@, first + bnd@.len());
    let mut cursor: usize = first + bnd.len();
    let mut parts: Vec<Part> = Vec::new();
    loop
        invariant
            cursor <= n,
            n == body@.len(),
            bnd@ == delimiter(boundary@),
            bend@ == bnd@ + dashes(),
            bnd@.len() >= 2,
            total == multipart_outcome(body@, boundary@),
            after_parts(parts_view(parts@), parts_from(body@, bnd@, cursor as int)) == total,
        decreases n - cursor,
    {
        let ghost prefix = parts_view(parts@);
        let at_crlf = n - cursor >= 2 && body[cursor] == 13 && body[cursor + 1] == 10;
        let at_dashes = n - cursor >= 2 && body[cursor] == 45 && body[cursor + 1] == 45;
        proof {
            if n - cursor >= 2 {
                assert(at_crlf == (body@.subrange(cursor as int, cursor + 2) =~= crlf()));
                assert(at_dashes == (body@.subrange(cursor as int, cursor + 2) =~= dashes()));
            }
        }
        if !at_crlf && at_dashes {
            assert(prefix + Seq::<PartView>::empty() =~= prefix);
            return Some(Ok(Multipart { parts }));
        }
        let c: usize = if at_crlf {
            cursor + 2
        } else {
            cursor
        };
        let ghost rest = body@.subrange(c as int, n as int);
        proof {
            lemma_find_shift(body@, bnd@, c as int, c as int);
        }
        let nb = match find_bytes(body, bnd.as_slice(), c) {
            None => {
                assert(prefix + Seq::<PartView>::empty() =~= prefix);
                return Some(Ok(Multipart { parts }));
            },
            Some(x) => x,
        };
        proof {
            lemma_find_from_bytes(rest, bnd@, 0);
        }
        let pe: usize = if nb >= 2 && body[nb - 2] == 13 && body[nb - 1] == 10 {
            assert(body@.subrange(nb - 2, nb as int) =~= crlf());
            nb - 2
        } else {
            proof {
                if nb >= 2 {
                    assert(body@.subrange(nb - 2, nb as int)[0] == body@[nb - 2]);
                    assert(body@.subrange(nb - 2, nb as int)[1] == body@[nb - 1]);
                }
            }
            nb
        };
        if pe < c {
            return None;
        }
        let pb = slice_subrange(body, c, pe);
        let part = match parse_part(pb) {
            Err(e) => {
                return Some(Err(e));
            },
            Ok(p) => p,
        };
        let ghost pv = part@;
        parts.push(part);
        assert(parts_view(parts@) =~= prefix + seq![pv]);
        if bytes_start_with(body, c, bend.as_slice()) {
            return Some(Ok(Multipart { parts }));
        }
        assert(after_parts(prefix, after_parts(seq![pv], parts_from(body@, bnd@, nb + bnd@.len())))
            =~= after_parts(prefix + seq![pv], parts_from(body@, bnd@, nb + bnd@.len()))) by {
            match parts_from(body@, bnd@, nb + bnd@.len()) {
                Outcome::Parts(r) => {
                    assert(prefix + (seq![pv] + r) =~= prefix + seq![pv] + r);
                },
                _ => {},
            }
        }
        cursor = nb + bnd.len();
    }
}

/// Parses a multipart body delimited by `boundary`. A body in which a part
/// would end before it starts (a boundary right after the CRLF that follows
/// the previous one) is outside what this reads.
pub fn parse_multipart(body: &[u8], boundary: &str) -> (r: Result<Multipart, RequestError>)
    requires
        multipart_outcome(body@, boundary@) !is Panic,
    ensures
        outcome_of(r) == multipart_outcome(body@, boundary@),
{
    match read_multipart(body, boundary) {
        Some(x) => x,
        None => Err(RequestError::MalformedPart),
    }
}

/// Parses a multipart body delimited by `boundary`, answering a body in
/// which a part would end before it starts with `MalformedPart`.
pub fn parse_multipart_checked(body: &[u8], boundary: &str) -> (r: Result<Multipart, RequestError>)
    ensures
        multipart_outcome(body@, boundary@) is Panic ==> r matches Err(RequestError::MalformedPart),
        multipart_outcome(body@, boundary@) !is Panic ==> outcome_of(r) == multipart_outcome(
            body@,
            boundary@,
        ),
{
    match read_multipart(body, boundary) {
        Some(x) => x,
        None => Err(RequestError::MalformedPart),
    }
}

// ─── From a request ──────────────────────────────────────────────────────────

/// The boundary named by the first of the `;`-separated pieces that, trimmed,
/// starts with `boundary=`: the rest of it without surrounding quotes.
pub open spec fn boundary_param(pieces: Seq<Seq<char>>) -> Option<Seq<char>>
    decreases pieces.len(),
{
    if pieces.len() == 0 {
        None
    } else {
        let p = trim(pieces[0]);
        if crate::text::starts_with(p, "boundary="@) {
            Some(trim_quotes(p.subrange("boundary="@.len() as int, p.len() as int)))
        } else {
            boundary_param(pieces.drop_first())
        }
    }
}

/// How reading a request's body as a multipart form ends, given its headers.
pub open spec fn request_multipart(headers: Seq<(String, String)>, body: Seq<u8>) -> Outcome {
    match lookup(strings_pairs(headers), "content-type"@) {
        None => Outcome::Fail(RequestError::MissingContentType),
        Some(ct) => if !crate::text::starts_with(ct, "multipart/form-data"@) {
            Outcome::Fail(RequestError::NotMultipart)
        } else {
            match boundary_param(split_on(ct, seq![';'])) {
                None => Outcome::Fail(RequestError::MissingBoundary),
                Some(b) => multipart_outcome(body, b),
            }
        },
    }
}

/// The boundary parameter of a content type.
fn find_boundary(ct: &str) -> (r: Option<String>)
    ensures
        opt_text(r) == boundary_param(split_on(ct@, seq![';'])),
{
    let cs = chars_of(ct);
    let semi = [';'];
    assert(semi@ =~= seq![';']);
    let pieces = split_chars(&cs, &semi);
    let ghost all = strings_view(pieces@);
    let key = chars_of("boundary=");
    let mut k: usize = 0;
    assert(all.subrange(0, all.len() as int) =~= all);
    while k < pieces.len()
        invariant
            k <= pieces@.len(),
            all == strings_view(pieces@),
            all == split_on(ct@, seq![';']),
            key@ == "boundary="@,
            boundary_param(all.subrange(k as int, all.len() as int)) == boundary_param(all),
        decreases pieces.len() - k,
    {
        let ghost rest = all.subrange(k as int, all.len() as int);
        assert(rest.drop_first() =~= all.subrange(k + 1, all.len() as int));
        assert(rest[0] == pieces@[k as int]@);
        let pc = chars_of(pieces[k].as_str());
        let t = trimmed(&pc);
        let tc = chars_of(t.as_str());
        if chars_start_with(&tc, &key) {
            return Some(trimmed_quotes(&tc, key.len()));
        }
        k = k + 1;
    }
    None
}

impl Request {
    /// Parses the body as `multipart/form-data`, with the boundary named by
    /// the `Content-Type` header.
    pub fn multipart(&self) -> (r: Result<Multipart, RequestError>)
        requires
            request_multipart(self.headers@, self.body@) !is Panic,
        ensures
            outcome_of(r) == request_multipart(self.headers@, self.body@),
    {
        let ct = match self.header("content-type") {
            None => {
                return Err(RequestError::MissingContentType);
            },
            Some(v) => v,
        };
        let cc = chars_of(ct);
        if !chars_start_with(&cc, &chars_of("multipart/form-data")) {
            return Err(RequestError::NotMultipart);
        }
        match find_boundary(ct) {
            None => Err(RequestError::MissingBoundary),
            Some(b) => parse_multipart(self.body.as_slice(), b.as_str()),
        }
    }

    /// Parses the body as `multipart/form-data` like `multipart`, answering a
    /// body in which a part would end before it starts with `MalformedPart`.
    pub fn multipart_checked(&self) -> (r: Result<Multipart, RequestError>)
        ensures
            request_multipart(self.headers@, self.body@) is Panic ==> r matches Err(
                RequestError::MalformedPart,
            ),
            request_multipart(self.headers@, self.body@) !is Panic ==> outcome_of(r)
                == request_multipart(self.headers@, self.body@),
    {
        let ct = match self.header("content-type") {
            None => {
                return Err(RequestError::MissingContentType);
            },
            Some(v) => v,
        };
        let cc = chars_of(ct);
        if !chars_start_with(&cc, &chars_of("multipart/form-data")) {
            return Err(RequestError::NotMultipart);
        }
        match find_boundary(ct) {
            None => Err(RequestError::MissingBoundary),
            Some(b) => parse_multipart_checked(self.body.as_slice(), b.as_str()),
        }
    }
}

} // verus!
