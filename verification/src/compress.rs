//! Gzip compression of response bodies.
//!
//! A body is compressed when the client accepts gzip, the body has at
//! least `MIN_COMPRESS_SIZE` bytes, no `Content-Encoding` is set yet, and
//! the content type is not one that is already compressed.
use vstd::prelude::*;
use std::io::Write;
use crate::text::{chars_of, chars_start_with, contains, find_chars, lower, lower_chars, starts_with};

verus! {

/// Below this many bytes the gzip framing costs more than it saves.
pub const MIN_COMPRESS_SIZE: usize = 256;

/// `Accept-Encoding` asks for gzip (in any case).
pub open spec fn asks_for_gzip(accept: Option<Seq<char>>) -> bool {
    match accept {
        Some(v) => contains(lower(v), seq!['g', 'z', 'i', 'p']),
        None => false,
    }
}

/// A content type whose bodies are already compressed.
pub open spec fn precompressed_type(ct: Seq<char>) -> bool {
    let l = lower(ct);
    ||| starts_with(l, seq!['i', 'm', 'a', 'g', 'e', '/'])
    ||| starts_with(l, seq!['v', 'i', 'd', 'e', 'o', '/'])
    ||| starts_with(l, seq!['a', 'u', 'd', 'i', 'o', '/'])
    ||| contains(l, seq!['z', 'i', 'p'])
    ||| contains(l, seq!['g', 'z', 'i', 'p'])
    ||| contains(l, seq!['c', 'o', 'm', 'p', 'r', 'e', 's', 's'])
    ||| contains(l, seq!['o', 'c', 't', 'e', 't', '-', 's', 't', 'r', 'e', 'a', 'm'])
}

/// The rule for compressing a response body.
pub open spec fn compress_wanted(
    accept: Option<Seq<char>>,
    body_len: nat,
    content_encoding: Option<Seq<char>>,
    content_type: Option<Seq<char>>,
) -> bool {
    &&& asks_for_gzip(accept)
    &&& body_len >= MIN_COMPRESS_SIZE
    &&& content_encoding is None
    &&& !(content_type matches Some(ct) && precompressed_type(ct))
}

pub open spec fn opt_view(o: Option<&str>) -> Option<Seq<char>> {
    match o {
        Some(s) => Some(s@),
        None => None,
    }
}

fn has_chars(s: &[char], pat: &[char]) -> (r: bool)
    requires
        pat@.len() > 0,
    ensures
        r == contains(s@, pat@),
{
    find_chars(s, pat, 0).is_some()
}

/// Whether a request's `Accept-Encoding` value asks for gzip.
pub fn accepts_gzip(accept: Option<&str>) -> (r: bool)
    ensures
        r == asks_for_gzip(opt_view(accept)),
{
    match accept {
        Some(v) => {
            let l = lower_chars(&chars_of(v));
            let pat = vec!['g', 'z', 'i', 'p'];
            assert(pat@ == seq!['g', 'z', 'i', 'p']);
            has_chars(&l, &pat)
        },
        None => false,
    }
}

/// Whether a content type names an already-compressed format.
pub fn is_precompressed_type(ct: &str) -> (r: bool)
    ensures
        r == precompressed_type(ct@),
{
    let l = lower_chars(&chars_of(ct));
    let image = vec!['i', 'm', 'a', 'g', 'e', '/'];
    let video = vec!['v', 'i', 'd', 'e', 'o', '/'];
    let audio = vec!['a', 'u', 'd', 'i', 'o', '/'];
    let zip = vec!['z', 'i', 'p'];
    let gzip = vec!['g', 'z', 'i', 'p'];
    let compress = vec!['c', 'o', 'm', 'p', 'r', 'e', 's', 's'];
    let octet = vec!['o', 'c', 't', 'e', 't', '-', 's', 't', 'r', 'e', 'a', 'm'];
    assert(image@ == seq!['i', 'm', 'a', 'g', 'e', '/']);
    assert(video@ == seq!['v', 'i', 'd', 'e', 'o', '/']);
    assert(audio@ == seq!['a', 'u', 'd', 'i', 'o', '/']);
    assert(zip@ == seq!['z', 'i', 'p']);
    assert(gzip@ == seq!['g', 'z', 'i', 'p']);
    assert(compress@ == seq!['c', 'o', 'm', 'p', 'r', 'e', 's', 's']);
    assert(octet@ == seq!['o', 'c', 't', 'e', 't', '-', 's', 't', 'r', 'e', 'a', 'm']);
    chars_start_with(&l, &image) || chars_start_with(&l, &video) || chars_start_with(&l, &audio)
        || has_chars(&l, &zip) || has_chars(&l, &gzip) || has_chars(&l, &compress) || has_chars(
        &l,
        &octet,
    )
}

/// Whether a response body is to be gzipped, from the request's
/// `Accept-Encoding` and the response's body length, `Content-Encoding`
/// and `Content-Type`.
pub fn should_compress(
    accept_encoding: Option<&str>,
    body_len: usize,
    content_encoding: Option<&str>,
    content_type: Option<&str>,
) -> (r: bool)
    ensures
        r == compress_wanted(
            opt_view(accept_encoding),
            body_len as nat,
            opt_view(content_encoding),
            opt_view(content_type),
        ),
{
    if !accepts_gzip(accept_encoding) || body_len < MIN_COMPRESS_SIZE {
        return false;
    }
    if content_encoding.is_some() {
        return false;
    }
    match content_type {
        Some(ct) => !is_precompressed_type(ct),
        None => true,
    }
}

/// What `flate2`'s `GzEncoder`, at the default level and with the default
/// header, makes of `body`: the bytes it writes, or `None` when it reports
/// an error. The encoder is deterministic, so this depends on `body` alone.
pub uninterp spec fn gzip_of(body: Seq<u8>) -> Option<Seq<u8>>;

/// `flate2::write::GzEncoder` at the default level over a `Vec`: writes the
/// whole body and finishes. The result is the encoder's output, or `None`
/// when writing or finishing reports an error.
#[verifier::external_body]
fn gzip_encode(body: &[u8]) -> (r: Option<Vec<u8>>)
    ensures
        match r {
            Some(c) => gzip_of(body@) == Some(c@),
            None => gzip_of(body@) is None,
        },
{
    let mut e = flate2::write::GzEncoder::new(Vec::new(), flate2::Compression::default());
    match e.write_all(body) {
        Ok(()) => {},
        Err(_) => {
            return None;
        },
    }
    match e.finish() {
        Ok(c) => Some(c),
        Err(_) => None,
    }
}

/// The gzipped body when the rule asks for compression and the encoder
/// succeeds; `None` leaves the response as it is.
pub fn gzip_body(
    accept_encoding: Option<&str>,
    body: &[u8],
    content_encoding: Option<&str>,
    content_type: Option<&str>,
) -> (r: Option<Vec<u8>>)
    ensures
        match r {
            Some(c) => compress_wanted(
                opt_view(accept_encoding),
                body@.len(),
                opt_view(content_encoding),
                opt_view(content_type),
            ) && gzip_of(body@) == Some(c@),
            None => !compress_wanted(
                opt_view(accept_encoding),
                body@.len(),
                opt_view(content_encoding),
                opt_view(content_type),
            ) || gzip_of(body@) is None,
        },
{
    if should_compress(accept_encoding, body.len(), content_encoding, content_type) {
        gzip_encode(body)
    } else {
        None
    }
}

/// The headers a gzipped response carries: `content-encoding: gzip` and
/// `vary: Accept-Encoding`.
pub fn gzip_headers() -> (r: Vec<(String, String)>)
    ensures
        r@.len() == 2,
        r@[0].0@ == seq!['c', 'o', 'n', 't', 'e', 'n', 't', '-', 'e', 'n', 'c', 'o', 'd', 'i', 'n', 'g'],
        r@[0].1@ == seq!['g', 'z', 'i', 'p'],
        r@[1].0@ == seq!['v', 'a', 'r', 'y'],
        r@[1].1@ == seq!['A', 'c', 'c', 'e', 'p', 't', '-', 'E', 'n', 'c', 'o', 'd', 'i', 'n', 'g'],
{
    let a = String::from_str("content-encoding");
    let b = String::from_str("gzip");
    let c = String::from_str("vary");
    let d = String::from_str("Accept-Encoding");
    proof {
        reveal_strlit("content-encoding");
        reveal_strlit("gzip");
        reveal_strlit("vary");
        reveal_strlit("Accept-Encoding");
    }
    vec![(a, b), (c, d)]
}

} // verus!
