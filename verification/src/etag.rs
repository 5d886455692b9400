//! Entity tags: a 64-bit FNV-1a hash of the response body, and the
//! conditional-GET decision it supports.
use vstd::prelude::*;
use crate::text::{push_char, push_str, str_eq, to_string};

verus! {

/// The FNV-1a offset basis.
pub const FNV_OFFSET: u64 = 0xcbf29ce484222325;

/// The FNV-1a prime.
pub const FNV_PRIME: u64 = 0x100000001b3;

/// The 64-bit FNV-1a hash of `d`: from the offset basis, each byte is
/// xored in and the hash multiplied by the prime, modulo 2^64.
pub open spec fn fnv(d: Seq<u8>) -> u64
    decreases d.len(),
{
    if d.len() == 0 {
        FNV_OFFSET
    } else {
        (fnv(d.drop_last()) ^ (d.last() as u64)).wrapping_mul(FNV_PRIME)
    }
}

/// The 64-bit FNV-1a hash of `data`.
pub fn fnv1a_64(data: &[u8]) -> (r: u64)
    ensures
        r == fnv(data@),
{
    let mut hash: u64 = FNV_OFFSET;
    let mut i: usize = 0;
    while i < data.len()
        invariant
            i <= data@.len(),
            hash == fnv(data@.subrange(0, i as int)),
        decreases data.len() - i,
    {
        hash = hash ^ (data[i] as u64);
        hash = hash.wrapping_mul(FNV_PRIME);
        assert(data@.subrange(0, i + 1).drop_last() =~= data@.subrange(0, i as int));
        i = i + 1;
    }
    assert(data@.subrange(0, data@.len() as int) =~= data@);
    hash
}

/// The lower-case hexadecimal digits of `n`, without leading zeros.
pub open spec fn hex_number(n: nat) -> Seq<char>
    decreases n,
{
    if n < 16 {
        seq![crate::auth::hex_lower(n as int)]
    } else {
        hex_number(n / 16) + seq![crate::auth::hex_lower((n % 16) as int)]
    }
}

fn hex_string(n: u64) -> (r: String)
    ensures
        r@ == hex_number(n as nat),
    decreases n,
{
    let d: u8 = (n % 16) as u8;
    let c = if d < 10 {
        (48 + d) as char
    } else {
        (87 + d) as char
    };
    if n < 16 {
        let mut s = String::new();
        push_char(&mut s, c);
        s
    } else {
        let mut s = hex_string(n / 16);
        push_char(&mut s, c);
        s
    }
}

/// The entity tag of a body: its hash in hex, in double quotes.
pub open spec fn etag_text(body: Seq<u8>) -> Seq<char> {
    seq!['"'] + hex_number(fnv(body) as nat) + seq!['"']
}

/// The entity tag of a body.
pub fn etag_value(body: &[u8]) -> (r: String)
    ensures
        r@ == etag_text(body@),
{
    let mut s = String::new();
    push_char(&mut s, '"');
    push_str(&mut s, hex_string(fnv1a_64(body)).as_str());
    push_char(&mut s, '"');
    s
}

/// What the entity-tag middleware does with a response.
pub enum EtagOutcome {
    /// Leave the response as it is (empty body, or status 300 and above).
    Unchanged,
    /// Add this `etag` header.
    Tagged(String),
    /// Add this `etag` header and answer 304 Not Modified without a body,
    /// `content-type` or `content-length`.
    NotModified(String),
}

/// The outcome as text.
pub enum EtagDecision {
    Unchanged,
    Tagged(Seq<char>),
    NotModified(Seq<char>),
}

/// What happens to a response with `status` and `body` to a request whose
/// `If-None-Match` header is `inm`.
pub open spec fn etag_decision(status: u16, body: Seq<u8>, inm: Option<Seq<char>>) -> EtagDecision {
    if body.len() == 0 || status >= 300 {
        EtagDecision::Unchanged
    } else {
        match inm {
            Some(v) => if v == etag_text(body) || v == "*"@ {
                EtagDecision::NotModified(etag_text(body))
            } else {
                EtagDecision::Tagged(etag_text(body))
            },
            None => EtagDecision::Tagged(etag_text(body)),
        }
    }
}

/// An outcome read as text.
pub open spec fn outcome_view(o: EtagOutcome) -> EtagDecision {
    match o {
        EtagOutcome::Unchanged => EtagDecision::Unchanged,
        EtagOutcome::Tagged(s) => EtagDecision::Tagged(s@),
        EtagOutcome::NotModified(s) => EtagDecision::NotModified(s@),
    }
}

/// Decides how a response with `status` and `body` is tagged, given the
/// request's `If-None-Match` header.
pub fn etag_outcome(status: u16, body: &[u8], if_none_match: Option<&str>) -> (r: EtagOutcome)
    ensures
        outcome_view(r) == etag_decision(
            status,
            body@,
            match if_none_match {
                Some(v) => Some(v@),
                None => None,
            },
        ),
{
    if body.len() == 0 || status >= 300 {
        return EtagOutcome::Unchanged;
    }
    let tag = etag_value(body);
    match if_none_match {
        Some(v) => {
            if str_eq(v, tag.as_str()) || str_eq(v, "*") {
                EtagOutcome::NotModified(tag)
            } else {
                EtagOutcome::Tagged(tag)
            }
        },
        None => EtagOutcome::Tagged(tag),
    }
}

/// Hashing is a fold: the hash of `d` followed by `b` is one step from the
/// hash of `d`, so equal inputs always hash alike.
pub proof fn law_fnv_step(d: Seq<u8>, b: u8)
    ensures
        fnv(d.push(b)) == (fnv(d) ^ (b as u64)).wrapping_mul(FNV_PRIME),
        fnv(Seq::<u8>::empty()) == FNV_OFFSET,
{
    assert(d.push(b).drop_last() =~= d);
}

/// A response whose tag the client already holds is answered 304 with the
/// same tag.
pub proof fn law_matching_tag_not_modified(status: u16, body: Seq<u8>)
    requires
        body.len() > 0,
        status < 300,
    ensures
        etag_decision(status, body, Some(etag_text(body))) == EtagDecision::NotModified(etag_text(body)),
        etag_decision(status, body, Some("*"@)) == EtagDecision::NotModified(etag_text(body)),
{
}

} // verus!
