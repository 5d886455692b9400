//! Text primitives shared by the parsers: searching, trimming, case folding,
//! UTF-8 checks and string building, each with its mathematical meaning.
use vstd::prelude::*;
use vstd::utf8::*;
use vstd::string::StringSliceAdditionalSpecFns;

verus! {

// ─── Searching ────────────────────────────────────────────────────────────────

/// `pat` occurs in `s` starting at index `i`.
pub open spec fn matches_at<A>(s: Seq<A>, pat: Seq<A>, i: int) -> bool {
    0 <= i && i + pat.len() <= s.len() && s.subrange(i, i + pat.len()) == pat
}

/// The first index `>= i` at which `pat` occurs in `s` (an empty pattern is
/// never found).
pub open spec fn find_from<A>(s: Seq<A>, pat: Seq<A>, i: int) -> Option<int>
    decreases s.len() - i,
{
    if i < 0 || i >= s.len() || i + pat.len() > s.len() || pat.len() == 0 {
        None
    } else if matches_at(s, pat, i) {
        Some(i)
    } else {
        find_from(s, pat, i + 1)
    }
}

/// The first index at which `pat` occurs in `s`.
pub open spec fn find<A>(s: Seq<A>, pat: Seq<A>) -> Option<int> {
    find_from(s, pat, 0)
}

/// `s` contains `pat`.
pub open spec fn contains<A>(s: Seq<A>, pat: Seq<A>) -> bool {
    find(s, pat) is Some
}

/// `p` is a prefix of `s`.
pub open spec fn starts_with<A>(s: Seq<A>, p: Seq<A>) -> bool {
    p.len() <= s.len() && s.subrange(0, p.len() as int) == p
}

/// `p` is a suffix of `s`.
pub open spec fn ends_with<A>(s: Seq<A>, p: Seq<A>) -> bool {
    p.len() <= s.len() && s.subrange(s.len() - p.len(), s.len() as int) == p
}

/// An optional machine index read as a mathematical one.
pub open spec fn opt_int(o: Option<usize>) -> Option<int> {
    match o {
        Some(x) => Some(x as int),
        None => None,
    }
}

/// What `find_from` returns, stated without recursion.
pub proof fn lemma_find_from(s: Seq<char>, pat: Seq<char>, i: int)
    requires
        0 <= i,
        pat.len() > 0,
    ensures
        find_from(s, pat, i) matches Some(k) ==> i <= k && matches_at(s, pat, k) && forall|
            j: int,
        |
            i <= j < k ==> !matches_at(s, pat, j),
        find_from(s, pat, i) is None ==> forall|j: int| i <= j ==> !matches_at(s, pat, j),
    decreases s.len() - i,
{
    if i >= s.len() || i + pat.len() > s.len() {
    } else if matches_at(s, pat, i) {
    } else {
        lemma_find_from(s, pat, i + 1);
    }
}

/// What `find_from` returns on bytes, stated without recursion.
pub proof fn lemma_find_from_bytes(s: Seq<u8>, pat: Seq<u8>, i: int)
    requires
        0 <= i,
        pat.len() > 0,
    ensures
        find_from(s, pat, i) matches Some(k) ==> i <= k && matches_at(s, pat, k) && forall|
            j: int,
        |
            i <= j < k ==> !matches_at(s, pat, j),
        find_from(s, pat, i) is None ==> forall|j: int| i <= j ==> !matches_at(s, pat, j),
    decreases s.len() - i,
{
    if i >= s.len() || i + pat.len() > s.len() {
    } else if matches_at(s, pat, i) {
    } else {
        lemma_find_from_bytes(s, pat, i + 1);
    }
}

/// The first occurrence of `pat` in `s` at or after `from`.
pub fn find_chars(s: &[char], pat: &[char], from: usize) -> (r: Option<usize>)
    ensures
        opt_int(r) == find_from(s@, pat@, from as int),
{
    if pat.len() == 0 {
        return None;
    }
    let mut i = from;
    while i < s.len()
        invariant
            from <= i,
            pat@.len() > 0,
            find_from(s@, pat@, from as int) == find_from(s@, pat@, i as int),
        decreases s.len() - i,
    {
        if pat.len() > s.len() - i {
            return None;
        }
        let mut j: usize = 0;
        while j < pat.len()
            invariant
                j <= pat@.len(),
                i + pat@.len() <= s@.len(),
                s@.len() <= usize::MAX,
                forall|k: int| 0 <= k < j ==> s@[i + k] == pat@[k],
            ensures
                j <= pat@.len(),
                forall|k: int| 0 <= k < j ==> s@[i + k] == pat@[k],
                j < pat@.len() ==> s@[i + j] != pat@[j as int],
            decreases pat.len() - j,
        {
            if s[i + j] != pat[j] {
                break;
            }
            j = j + 1;
        }
        if j == pat.len() {
            assert(s@.subrange(i as int, i + pat@.len()) =~= pat@);
            return Some(i);
        }
        assert(!matches_at(s@, pat@, i as int)) by {
            if matches_at(s@, pat@, i as int) {
                assert(s@.subrange(i as int, i + pat@.len())[j as int] == s@[i + j]);
            }
        }
        i = i + 1;
    }
    None
}

/// The first occurrence of `pat` in `s` at or after `from`.
pub fn find_bytes(s: &[u8], pat: &[u8], from: usize) -> (r: Option<usize>)
    ensures
        opt_int(r) == find_from(s@, pat@, from as int),
{
    if pat.len() == 0 {
        return None;
    }
    let mut i = from;
    while i < s.len()
        invariant
            from <= i,
            pat@.len() > 0,
            find_from(s@, pat@, from as int) == find_from(s@, pat@, i as int),
        decreases s.len() - i,
    {
        if pat.len() > s.len() - i {
            return None;
        }
        let mut j: usize = 0;
        while j < pat.len()
            invariant
                j <= pat@.len(),
                i + pat@.len() <= s@.len(),
                s@.len() <= usize::MAX,
                forall|k: int| 0 <= k < j ==> s@[i + k] == pat@[k],
            ensures
                j <= pat@.len(),
                forall|k: int| 0 <= k < j ==> s@[i + k] == pat@[k],
                j < pat@.len() ==> s@[i + j] != pat@[j as int],
            decreases pat.len() - j,
        {
            if s[i + j] != pat[j] {
                break;
            }
            j = j + 1;
        }
        if j == pat.len() {
            assert(s@.subrange(i as int, i + pat@.len()) =~= pat@);
            return Some(i);
        }
        assert(!matches_at(s@, pat@, i as int)) by {
            if matches_at(s@, pat@, i as int) {
                assert(s@.subrange(i as int, i + pat@.len())[j as int] == s@[i + j]);
            }
        }
        i = i + 1;
    }
    None
}

/// `p` is a prefix of `s`.
pub fn chars_start_with(s: &[char], p: &[char]) -> (r: bool)
    ensures
        r == starts_with(s@, p@),
{
    if p.len() > s.len() {
        return false;
    }
    let mut j: usize = 0;
    while j < p.len() && s[j] == p[j]
        invariant
            j <= p@.len(),
            p@.len() <= s@.len(),
            forall|k: int| 0 <= k < j ==> s@[k] == p@[k],
        decreases p.len() - j,
    {
        j = j + 1;
    }
    if j == p.len() {
        assert(s@.subrange(0, p@.len() as int) =~= p@);
        true
    } else {
        assert(s@.subrange(0, p@.len() as int)[j as int] == s@[j as int]);
        false
    }
}

/// `p` is a suffix of `s`.
pub fn chars_end_with(s: &[char], p: &[char]) -> (r: bool)
    ensures
        r == ends_with(s@, p@),
{
    if p.len() > s.len() {
        return false;
    }
    let off = s.len() - p.len();
    let mut j: usize = 0;
    while j < p.len()
        invariant
            j <= p@.len(),
            off + p@.len() == s@.len(),
            s@.len() <= usize::MAX,
            forall|k: int| 0 <= k < j ==> s@[off + k] == p@[k],
        ensures
            j <= p@.len(),
            forall|k: int| 0 <= k < j ==> s@[off + k] == p@[k],
            j < p@.len() ==> s@[off + j] != p@[j as int],
        decreases p.len() - j,
    {
        if s[off + j] != p[j] {
            break;
        }
        j = j + 1;
    }
    if j == p.len() {
        assert(s@.subrange(off as int, s@.len() as int) =~= p@);
        true
    } else {
        assert(s@.subrange(off as int, s@.len() as int)[j as int] == s@[off + j]);
        false
    }
}

// ─── Characters and strings ──────────────────────────────────────────────────

/// The characters of `s`, collected into a vector.
pub fn chars_of(s: &str) -> (v: Vec<char>)
    ensures
        v@ == s@,
{
    let mut v: Vec<char> = Vec::new();
    for c in it: s.chars()
        invariant
            v@ == it.seq().take(it.index() as int),
    {
        v.push(c);
    }
    v
}

/// Appends a character to a string (`String::push`).
#[verifier::external_body]
pub(crate) fn push_char(s: &mut String, c: char)
    ensures
        final(s)@ == old(s)@.push(c),
{
    s.push(c);
}

/// Appends a string slice to a string.
pub fn push_str(s: &mut String, t: &str)
    ensures
        final(s)@ == old(s)@ + t@,
{
    s.append(t);
}

/// A string holding the given characters.
pub fn string_from_chars(v: &[char]) -> (s: String)
    ensures
        s@ == v@,
{
    let mut s = String::new();
    let mut i: usize = 0;
    while i < v.len()
        invariant
            i <= v@.len(),
            s@ == v@.subrange(0, i as int),
        decreases v.len() - i,
    {
        push_char(&mut s, v[i]);
        assert(v@.subrange(0, i + 1) =~= v@.subrange(0, i as int).push(v@[i as int]));
        i = i + 1;
    }
    assert(v@.subrange(0, v@.len() as int) =~= v@);
    s
}

/// A string holding the characters of `v` from `from` up to `to`.
pub fn string_from_range(v: &[char], from: usize, to: usize) -> (s: String)
    requires
        from <= to <= v@.len(),
    ensures
        s@ == v@.subrange(from as int, to as int),
{
    string_from_chars(&v[from..to])
}

/// A copy of a string slice as an owned string.
pub fn to_string(s: &str) -> (r: String)
    ensures
        r@ == s@,
{
    s.to_owned()
}

/// The decimal digits of a number, most significant first.
pub open spec fn decimal(n: nat) -> Seq<char>
    decreases n,
{
    if n < 10 {
        seq![digit_char(n)]
    } else {
        decimal(n / 10).push(digit_char(n % 10))
    }
}

/// The ASCII digit for `d < 10`.
pub open spec fn digit_char(d: nat) -> char {
    (48 + d) as char
}

/// The decimal rendering of `n` (`n.to_string()`).
pub fn decimal_string(n: u64) -> (s: String)
    ensures
        s@ == decimal(n as nat),
    decreases n,
{
    if n < 10 {
        let mut s = String::new();
        push_char(&mut s, ((n as u8) + 48) as char);
        assert(s@ =~= seq![digit_char(n as nat)]);
        s
    } else {
        let mut s = decimal_string(n / 10);
        push_char(&mut s, (((n % 10) as u8) + 48) as char);
        s
    }
}

// ─── UTF-8 ───────────────────────────────────────────────────────────────────

/// Reads bytes as UTF-8 text (`std::str::from_utf8`): the bytes are accepted
/// exactly when they are valid UTF-8, and the text holds those same bytes.
#[verifier::external_body]
pub(crate) fn utf8_str<'a>(b: &'a [u8]) -> (r: Option<&'a str>)
    ensures
        r is Some <==> valid_utf8(b@),
        r matches Some(s) ==> s.spec_bytes() == b@,
{
    std::str::from_utf8(b).ok()
}

/// The characters that valid UTF-8 bytes decode to.
pub proof fn lemma_str_bytes_decode(s: &str, b: Seq<u8>)
    requires
        s.spec_bytes() == b,
    ensures
        valid_utf8(b),
        decode_utf8(b) == s@,
{
    encode_utf8_valid_utf8(s@);
    encode_utf8_decode_utf8(s@);
}

// ─── White space ─────────────────────────────────────────────────────────────

/// Whether a character has the Unicode `White_Space` property: tab, line
/// feed, vertical tab, form feed, carriage return, space, next line,
/// no-break space, ogham space mark, U+2000 to U+200A, line separator,
/// paragraph separator, narrow no-break space, medium mathematical space
/// and ideographic space.
pub open spec fn white_space(c: char) -> bool {
    let u = c as u32;
    ||| 0x09 <= u <= 0x0d
    ||| u == 0x20
    ||| u == 0x85
    ||| u == 0xa0
    ||| u == 0x1680
    ||| 0x2000 <= u <= 0x200a
    ||| u == 0x2028
    ||| u == 0x2029
    ||| u == 0x202f
    ||| u == 0x205f
    ||| u == 0x3000
}

/// Whether `c` has the Unicode `White_Space` property (as
/// `char::is_whitespace` answers), by its code point.
pub(crate) fn is_white_space(c: char) -> (r: bool)
    ensures
        r == white_space(c),
{
    let u: u32 = c as u32;
    (0x09 <= u && u <= 0x0d) || u == 0x20 || u == 0x85 || u == 0xa0 || u == 0x1680 || (0x2000 <= u
        && u <= 0x200a) || u == 0x2028 || u == 0x2029 || u == 0x202f || u == 0x205f || u == 0x3000
}

/// `s` without its leading white space.
pub open spec fn trim_start(s: Seq<char>) -> Seq<char>
    decreases s.len(),
{
    if s.len() > 0 && white_space(s[0]) {
        trim_start(s.drop_first())
    } else {
        s
    }
}

/// `s` without its trailing white space.
pub open spec fn trim_end(s: Seq<char>) -> Seq<char>
    decreases s.len(),
{
    if s.len() > 0 && white_space(s.last()) {
        trim_end(s.drop_last())
    } else {
        s
    }
}

/// What `trim_start` leaves of `a`: a suffix, everything before it white
/// space, and not itself beginning with white space.
pub proof fn lemma_trim_start_shape(a: Seq<char>)
    ensures
        trim_start(a).len() <= a.len(),
        trim_start(a) == a.subrange(a.len() - trim_start(a).len(), a.len() as int),
        forall|j: int| 0 <= j < a.len() - trim_start(a).len() ==> white_space(#[trigger] a[j]),
        trim_start(a).len() > 0 ==> !white_space(trim_start(a)[0]),
    decreases a.len(),
{
    if a.len() > 0 && white_space(a[0]) {
        lemma_trim_start_shape(a.drop_first());
        assert forall|j: int| 0 <= j < a.len() - trim_start(a).len() implies white_space(
            #[trigger] a[j],
        ) by {
            if j > 0 {
                assert(a[j] == a.drop_first()[j - 1]);
            }
        }
        assert(a.drop_first().subrange(
            a.drop_first().len() - trim_start(a).len(),
            a.drop_first().len() as int,
        ) =~= a.subrange(a.len() - trim_start(a).len(), a.len() as int));
    } else {
        assert(a.subrange(0, a.len() as int) =~= a);
    }
}

/// What `trim_end` leaves of `a`: a prefix, everything after it white
/// space, and not itself ending with white space.
pub proof fn lemma_trim_end_shape(a: Seq<char>)
    ensures
        trim_end(a).len() <= a.len(),
        trim_end(a) == a.subrange(0, trim_end(a).len() as int),
        forall|j: int| trim_end(a).len() <= j < a.len() ==> white_space(#[trigger] a[j]),
        trim_end(a).len() > 0 ==> !white_space(trim_end(a).last()),
    decreases a.len(),
{
    if a.len() > 0 && white_space(a.last()) {
        lemma_trim_end_shape(a.drop_last());
        assert forall|j: int| trim_end(a).len() <= j < a.len() implies white_space(#[trigger] a[j]) by {
            if j < a.len() - 1 {
                assert(a[j] == a.drop_last()[j]);
            }
        }
        assert(a.drop_last().subrange(0, trim_end(a).len() as int) =~= a.subrange(
            0,
            trim_end(a).len() as int,
        ));
    } else {
        assert(a.subrange(0, a.len() as int) =~= a);
    }
}

/// `s` without leading or trailing white space.
pub open spec fn trim(s: Seq<char>) -> Seq<char> {
    trim_end(trim_start(s))
}

/// The number of leading white-space characters of `s` from `i`, plus `i`.
pub fn skip_white_space(s: &[char], i: usize) -> (k: usize)
    requires
        i <= s@.len(),
    ensures
        i <= k <= s@.len(),
        trim_start(s@.subrange(i as int, s@.len() as int)) == s@.subrange(k as int, s@.len() as int),
    decreases s.len() - i,
{
    if i < s.len() && is_white_space(s[i]) {
        assert(s@.subrange(i as int, s@.len() as int).drop_first() =~= s@.subrange(
            i + 1,
            s@.len() as int,
        ));
        skip_white_space(s, i + 1)
    } else {
        k_is(i)
    }
}

fn k_is(i: usize) -> (r: usize)
    ensures
        r == i,
{
    i
}

/// The end of `s[..j]` once its trailing white space is dropped.
pub fn back_white_space(s: &[char], from: usize, j: usize) -> (k: usize)
    requires
        from <= j <= s@.len(),
    ensures
        from <= k <= j,
        trim_end(s@.subrange(from as int, j as int)) == s@.subrange(from as int, k as int),
    decreases j - from,
{
    if j > from && is_white_space(s[j - 1]) {
        assert(s@.subrange(from as int, j as int).drop_last() =~= s@.subrange(
            from as int,
            j - 1,
        ));
        back_white_space(s, from, j - 1)
    } else {
        j
    }
}

/// `str::trim` on part of a character vector, as a string.
pub fn trimmed_range(s: &[char], from: usize, to: usize) -> (r: String)
    requires
        from <= to <= s@.len(),
    ensures
        r@ == trim(s@.subrange(from as int, to as int)),
{
    let sub = &s[from..to];
    let k = skip_white_space(sub, 0);
    assert(sub@.subrange(0, sub@.len() as int) =~= sub@);
    let e = back_white_space(sub, k, sub.len());
    string_from_range(sub, k, e)
}

/// `str::trim` on a whole character vector, as a string.
pub fn trimmed(s: &[char]) -> (r: String)
    ensures
        r@ == trim(s@),
{
    assert(s@.subrange(0, s@.len() as int) =~= s@);
    trimmed_range(s, 0, s.len())
}

// ─── ASCII case ──────────────────────────────────────────────────────────────

/// ASCII lower case of one character; other characters are unchanged.
pub open spec fn ascii_lower(c: char) -> char {
    if 'A' <= c && c <= 'Z' {
        ((c as u32) + 32) as char
    } else {
        c
    }
}

/// ASCII lower case of every character.
pub open spec fn lower(s: Seq<char>) -> Seq<char> {
    s.map_values(|c: char| ascii_lower(c))
}

/// Equality up to ASCII case (`str::eq_ignore_ascii_case`).
pub open spec fn eq_ignore_case(a: Seq<char>, b: Seq<char>) -> bool {
    lower(a) == lower(b)
}

/// ASCII lower case of one character.
pub fn char_lower(c: char) -> (r: char)
    ensures
        r == ascii_lower(c),
{
    if 'A' <= c && c <= 'Z' {
        let v: u32 = c as u32;
        let b: u8 = (v + 32) as u8;
        assert(b as u32 == v + 32);
        b as char
    } else {
        c
    }
}

/// ASCII lower case of every character (`to_ascii_lowercase`).
pub fn lower_chars(s: &[char]) -> (r: Vec<char>)
    ensures
        r@ == lower(s@),
{
    let mut r: Vec<char> = Vec::new();
    let mut i: usize = 0;
    while i < s.len()
        invariant
            i <= s@.len(),
            r@ == lower(s@.subrange(0, i as int)),
        decreases s.len() - i,
    {
        r.push(char_lower(s[i]));
        assert(lower(s@.subrange(0, i + 1)) =~= lower(s@.subrange(0, i as int)).push(
            ascii_lower(s@[i as int]),
        ));
        i = i + 1;
    }
    assert(s@.subrange(0, s@.len() as int) =~= s@);
    r
}

/// The ASCII lower-case copy of a string (`str::to_ascii_lowercase`).
pub fn to_ascii_lowercase(s: &str) -> (r: String)
    ensures
        r@ == lower(s@),
{
    let cs = chars_of(s);
    let l = lower_chars(&cs);
    string_from_chars(&l)
}

/// Equality up to ASCII case of two character vectors.
pub fn chars_eq_ignore_case(a: &[char], b: &[char]) -> (r: bool)
    ensures
        r == eq_ignore_case(a@, b@),
{
    if a.len() != b.len() {
        assert(lower(a@).len() != lower(b@).len());
        return false;
    }
    let mut i: usize = 0;
    while i < a.len() && char_lower(a[i]) == char_lower(b[i])
        invariant
            i <= a@.len(),
            a@.len() == b@.len(),
            forall|k: int| 0 <= k < i ==> ascii_lower(a@[k]) == ascii_lower(b@[k]),
        decreases a.len() - i,
    {
        i = i + 1;
    }
    if i == a.len() {
        assert(lower(a@) =~= lower(b@));
        true
    } else {
        assert(lower(a@)[i as int] != lower(b@)[i as int]);
        false
    }
}

/// Equality up to ASCII case of two strings (`str::eq_ignore_ascii_case`).
pub fn str_eq_ignore_case(a: &str, b: &str) -> (r: bool)
    ensures
        r == eq_ignore_case(a@, b@),
{
    let ca = chars_of(a);
    let cb = chars_of(b);
    chars_eq_ignore_case(&ca, &cb)
}

/// Equality of two character vectors.
pub fn chars_eq(a: &[char], b: &[char]) -> (r: bool)
    ensures
        r == (a@ == b@),
{
    if a.len() != b.len() {
        return false;
    }
    let mut i: usize = 0;
    while i < a.len() && a[i] == b[i]
        invariant
            i <= a@.len(),
            a@.len() == b@.len(),
            forall|k: int| 0 <= k < i ==> a@[k] == b@[k],
        decreases a.len() - i,
    {
        i = i + 1;
    }
    if i == a.len() {
        assert(a@ =~= b@);
        true
    } else {
        false
    }
}

/// Equality of two strings.
pub fn str_eq(a: &str, b: &str) -> (r: bool)
    ensures
        r == (a@ == b@),
{
    let ca = chars_of(a);
    let cb = chars_of(b);
    chars_eq(&ca, &cb)
}

// ─── Numbers ─────────────────────────────────────────────────────────────────

/// An ASCII decimal digit.
pub open spec fn is_digit(c: char) -> bool {
    '0' <= c && c <= '9'
}

/// The value of a digit character.
pub open spec fn digit_value(c: char) -> nat {
    ((c as u32) - 48) as nat
}

/// The value of a string of decimal digits.
pub open spec fn digits_value(s: Seq<char>) -> nat
    decreases s.len(),
{
    if s.len() == 0 {
        0
    } else {
        digits_value(s.drop_last()) * 10 + digit_value(s.last())
    }
}

/// `s` without one optional leading `+`.
pub open spec fn unsigned_digits(s: Seq<char>) -> Seq<char> {
    if s.len() > 0 && s[0] == '+' {
        s.drop_first()
    } else {
        s
    }
}

/// Every character of `d` is an ASCII digit.
pub open spec fn all_digits(d: Seq<char>) -> bool {
    forall|i: int| 0 <= i < d.len() ==> is_digit(#[trigger] d[i])
}

/// One or more ASCII digits whose value fits in `usize`.
pub open spec fn parse_digits(d: Seq<char>) -> Option<usize> {
    if d.len() == 0 || !all_digits(d) {
        None
    } else if digits_value(d) > usize::MAX {
        None
    } else {
        Some(digits_value(d) as usize)
    }
}

/// `str::parse::<usize>`: an optional `+` then one or more ASCII digits whose
/// value fits in `usize`.
pub open spec fn parse_usize(s: Seq<char>) -> Option<usize> {
    parse_digits(unsigned_digits(s))
}

proof fn lemma_digits_value_grows(s: Seq<char>, i: int)
    requires
        0 <= i <= s.len(),
        forall|k: int| 0 <= k < s.len() ==> is_digit(s[k]),
    ensures
        digits_value(s.subrange(0, i)) <= digits_value(s),
    decreases s.len() - i,
{
    if i < s.len() {
        lemma_digits_value_grows(s, i + 1);
        assert(s.subrange(0, i + 1).drop_last() =~= s.subrange(0, i));
    } else {
        assert(s.subrange(0, i) =~= s);
    }
}

/// Parses part of a character vector as a `usize` (`str::parse::<usize>`).
pub fn parse_usize_chars(s: &[char], from: usize, to: usize) -> (r: Option<usize>)
    requires
        from <= to <= s@.len(),
    ensures
        r == parse_usize(s@.subrange(from as int, to as int)),
{
    let ghost t = s@.subrange(from as int, to as int);
    let mut i = from;
    if i < to && s[i] == '+' {
        i = i + 1;
    }
    let ghost d = s@.subrange(i as int, to as int);
    assert(d =~= unsigned_digits(t));
    if i == to {
        return None;
    }
    let start = i;
    let mut acc: usize = 0;
    while i < to
        invariant
            from <= start <= i <= to <= s@.len(),
            d == s@.subrange(start as int, to as int),
            t == s@.subrange(from as int, to as int),
            d.len() > 0,
            d == unsigned_digits(t),
            forall|k: int| start <= k < i ==> is_digit(s@[k]),
            acc == digits_value(s@.subrange(start as int, i as int)),
        decreases to - i,
    {
        let c = s[i];
        if !('0' <= c && c <= '9') {
            proof {
                assert(d[i - start] == s@[i as int]);
                assert(!is_digit(d[i - start]));
                assert(!all_digits(d));
                assert(parse_usize(t) is None);
            }
            return None;
        }
        let dv: usize = ((c as u32) - 48) as usize;
        assert(s@.subrange(start as int, i + 1).drop_last() =~= s@.subrange(
            start as int,
            i as int,
        ));
        if acc > (usize::MAX - dv) / 10 {
            proof {
                assert(digits_value(s@.subrange(start as int, i + 1)) > usize::MAX) by (
                nonlinear_arith)
                    requires
                        acc > (usize::MAX - dv) / 10,
                        digits_value(s@.subrange(start as int, i + 1)) == acc * 10 + dv,
                ;
                let ghost rest = s@.subrange(i + 1, to as int);
                if all_digits(d) {
                    lemma_digits_value_grows(d, i + 1 - start);
                    assert(d.subrange(0, i + 1 - start) =~= s@.subrange(start as int, i + 1));
                    assert(digits_value(d) > usize::MAX);
                }
                assert(parse_usize(t) is None);
            }
            return None;
        }
        assert(acc * 10 + dv <= usize::MAX) by (nonlinear_arith)
            requires
                acc <= (usize::MAX - dv) / 10,
                dv <= 9,
        ;
        acc = acc * 10 + dv;
        i = i + 1;
    }
    assert(d =~= s@.subrange(start as int, i as int));
    Some(acc)
}

// ─── Splitting ───────────────────────────────────────────────────────────────

/// The text of a list of strings.
pub open spec fn strings_view(v: Seq<String>) -> Seq<Seq<char>> {
    v.map_values(|s: String| s@)
}

/// The pieces of `s` between occurrences of `sep` (`str::split`): empty
/// pieces included, and one piece when `sep` does not occur.
pub open spec fn split_on(s: Seq<char>, sep: Seq<char>) -> Seq<Seq<char>>
    decreases s.len(),
{
    match find(s, sep) {
        Some(i) => {
            proof {
                lemma_find_from(s, sep, 0);
            }
            seq![s.subrange(0, i)] + split_on(s.subrange(i + sep.len(), s.len() as int), sep)
        },
        None => seq![s],
    }
}

/// Searching from `i` in `s` is searching from `i - start` in the part of
/// `s` from `start`.
pub proof fn lemma_find_shift<A>(s: Seq<A>, pat: Seq<A>, start: int, i: int)
    requires
        0 <= start <= i,
        start <= s.len(),
    ensures
        find_from(s, pat, i) == match find_from(s.subrange(start, s.len() as int), pat, i - start) {
            Some(k) => Some(k + start),
            None => None::<int>,
        },
    decreases s.len() - i,
{
    let sub = s.subrange(start, s.len() as int);
    if i >= s.len() || i + pat.len() > s.len() || pat.len() == 0 {
    } else {
        if i + pat.len() <= s.len() {
            assert(sub.subrange(i - start, i - start + pat.len()) =~= s.subrange(i, i + pat.len()));
        }
        lemma_find_shift(s, pat, start, i + 1);
    }
}

/// The pieces of `s` between occurrences of `sep`.
pub fn split_chars(s: &[char], sep: &[char]) -> (r: Vec<String>)
    ensures
        strings_view(r@) == split_on(s@, sep@),
{
    let n = s.len();
    let mut out: Vec<String> = Vec::new();
    let mut start: usize = 0;
    assert(s@.subrange(0, n as int) =~= s@);
    loop
        invariant
            start <= n,
            n == s@.len(),
            strings_view(out@) + split_on(s@.subrange(start as int, n as int), sep@) == split_on(
                s@,
                sep@,
            ),
        decreases n - start,
    {
        let ghost rest = s@.subrange(start as int, n as int);
        proof {
            lemma_find_shift(s@, sep@, start as int, start as int);
        }
        match find_chars(s, sep, start) {
            Some(i) => {
                proof {
                    lemma_find_from(rest, sep@, 0);
                    assert(rest.subrange(0, i - start) =~= s@.subrange(start as int, i as int));
                    assert(rest.subrange(i - start + sep@.len(), rest.len() as int) =~= s@.subrange(
                        i + sep@.len(),
                        n as int,
                    ));
                }
                out.push(string_from_range(s, start, i));
                assert(strings_view(out@) =~= strings_view(out@.drop_last()).push(
                    s@.subrange(start as int, i as int),
                ));
                start = i + sep.len();
            },
            None => {
                out.push(string_from_range(s, start, n));
                assert(strings_view(out@) =~= strings_view(out@.drop_last()).push(rest));
                return out;
            },
        }
    }
}

/// The part of `s` before the first `c`, or all of it.
pub open spec fn before_char(s: Seq<char>, c: char) -> Seq<char> {
    match find(s, seq![c]) {
        Some(i) => s.subrange(0, i),
        None => s,
    }
}

/// The part of `s` after the first `c`, or nothing.
pub open spec fn after_char(s: Seq<char>, c: char) -> Seq<char> {
    match find(s, seq![c]) {
        Some(i) => s.subrange(i + 1, s.len() as int),
        None => seq![],
    }
}

/// Splits at the first `c` (`splitn(2, c)` with a missing second half read
/// as empty).
pub fn split_once_char(s: &str, c: char) -> (r: (String, String))
    ensures
        r.0@ == before_char(s@, c),
        r.1@ == after_char(s@, c),
{
    let cs = chars_of(s);
    let pat = [c];
    proof {
        assert(pat@ =~= seq![c]);
    }
    match find_chars(&cs, &pat, 0) {
        Some(i) => {
            proof {
                lemma_find_from(cs@, seq![c], 0);
            }
            let n = cs.len();
            (string_from_range(&cs, 0, i), string_from_range(&cs, i + 1, n))
        },
        None => {
            proof {
                assert(cs@.subrange(0, cs@.len() as int) =~= cs@);
            }
            (string_from_range(&cs, 0, cs.len()), String::new())
        },
    }
}

} // verus!
