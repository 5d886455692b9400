//! The WebSocket opening handshake: the `Sec-WebSocket-Accept` value the
//! server answers a client's `Sec-WebSocket-Key` with (RFC 6455): the
//! base64 text of the SHA-1 digest of the key followed by a fixed GUID.
use vstd::prelude::*;
use vstd::utf8::encode_utf8;
use crate::text::push_char;

verus! {

/// The GUID a client's key is followed by before hashing.
pub const WS_GUID: &'static str = "258EAFA5-E914-47DA-95CA-C5AB0DC85B11";

/// The SHA-1 digest of the bytes.
pub uninterp spec fn sha1_of(data: Seq<u8>) -> Seq<u8>;

/// `ring::digest::digest` with `SHA1_FOR_LEGACY_USE_ONLY`: the 20-byte
/// SHA-1 digest of the bytes.
#[verifier::external_body]
fn sha1_digest(data: &[u8]) -> (r: Vec<u8>)
    ensures
        r@ == sha1_of(data@),
        r@.len() == 20,
{
    ring::digest::digest(&ring::digest::SHA1_FOR_LEGACY_USE_ONLY, data).as_ref().to_vec()
}

/// The base64 digit (standard alphabet) of a value below 64.
pub open spec fn b64_digit(v: int) -> char {
    if v < 26 {
        (65 + v) as char
    } else if v < 52 {
        (97 + v - 26) as char
    } else if v < 62 {
        (48 + v - 52) as char
    } else if v == 62 {
        '+'
    } else {
        '/'
    }
}

/// The standard base64 text of the bytes, padded with `=`.
pub open spec fn b64(b: Seq<u8>) -> Seq<char>
    decreases b.len(),
{
    if b.len() == 0 {
        seq![]
    } else if b.len() == 1 {
        let x = b[0] as int;
        seq![b64_digit(x / 4), b64_digit((x % 4) * 16), '=', '=']
    } else if b.len() == 2 {
        let x = b[0] as int;
        let y = b[1] as int;
        seq![b64_digit(x / 4), b64_digit((x % 4) * 16 + y / 16), b64_digit((y % 16) * 4), '=']
    } else {
        let x = b[0] as int;
        let y = b[1] as int;
        let z = b[2] as int;
        seq![
            b64_digit(x / 4),
            b64_digit((x % 4) * 16 + y / 16),
            b64_digit((y % 16) * 4 + z / 64),
            b64_digit(z % 64),
        ] + b64(b.subrange(3, b.len() as int))
    }
}

fn digit(v: u8) -> (c: char)
    requires
        v < 64,
    ensures
        c == b64_digit(v as int),
{
    if v < 26 {
        (65 + v) as char
    } else if v < 52 {
        (97 + v - 26) as char
    } else if v < 62 {
        (48 + v - 52) as char
    } else if v == 62 {
        '+'
    } else {
        '/'
    }
}

/// The standard base64 text of the bytes, padded with `=`.
pub fn base64_encode(b: &[u8]) -> (r: String)
    ensures
        r@ == b64(b@),
{
    let n = b.len();
    let mut out = String::new();
    let mut i: usize = 0;
    assert(b@.subrange(0, n as int) =~= b@);
    while i < n
        invariant
            i <= n,
            n == b@.len(),
            out@ + b64(b@.subrange(i as int, n as int)) == b64(b@),
        decreases n - i,
    {
        let ghost rest = b@.subrange(i as int, n as int);
        let ghost before = out@;
        let b0 = b[i];
        if n - i == 1 {
            push_char(&mut out, digit(b0 / 4));
            push_char(&mut out, digit((b0 % 4) * 16));
            push_char(&mut out, '=');
            push_char(&mut out, '=');
            assert(out@ =~= before + b64(rest));
            assert(b@.subrange(n as int, n as int) =~= Seq::<u8>::empty());
            i = n;
        } else if n - i == 2 {
            let b1 = b[i + 1];
            push_char(&mut out, digit(b0 / 4));
            push_char(&mut out, digit((b0 % 4) * 16 + b1 / 16));
            push_char(&mut out, digit((b1 % 16) * 4));
            push_char(&mut out, '=');
            assert(out@ =~= before + b64(rest));
            assert(b@.subrange(n as int, n as int) =~= Seq::<u8>::empty());
            i = n;
        } else {
            let b1 = b[i + 1];
            let b2 = b[i + 2];
            push_char(&mut out, digit(b0 / 4));
            push_char(&mut out, digit((b0 % 4) * 16 + b1 / 16));
            push_char(&mut out, digit((b1 % 16) * 4 + b2 / 64));
            push_char(&mut out, digit(b2 % 64));
            assert(rest.subrange(3, rest.len() as int) =~= b@.subrange(i + 3, n as int));
            assert(out@ + b64(b@.subrange(i + 3, n as int)) =~= before + b64(rest));
            i = i + 3;
        }
    }
    assert(b@.subrange(n as int, n as int) =~= Seq::<u8>::empty());
    out
}

/// The `Sec-WebSocket-Accept` value for a client's key.
pub open spec fn accept_text(key: Seq<char>) -> Seq<char> {
    b64(sha1_of(encode_utf8(key) + encode_utf8(WS_GUID@)))
}

/// The `Sec-WebSocket-Accept` value the server answers `key` with.
pub fn websocket_accept_key(key: &str) -> (r: String)
    ensures
        r@ == accept_text(key@),
{
    let mut data: Vec<u8> = Vec::new();
    let kb = key.as_bytes();
    let gb = WS_GUID.as_bytes();
    let mut i: usize = 0;
    while i < kb.len()
        invariant
            i <= kb@.len(),
            data@ == kb@.subrange(0, i as int),
        decreases kb.len() - i,
    {
        data.push(kb[i]);
        assert(kb@.subrange(0, i + 1) =~= kb@.subrange(0, i as int).push(kb@[i as int]));
        i = i + 1;
    }
    assert(kb@.subrange(0, kb@.len() as int) =~= kb@);
    let mut j: usize = 0;
    while j < gb.len()
        invariant
            j <= gb@.len(),
            data@ == kb@ + gb@.subrange(0, j as int),
        decreases gb.len() - j,
    {
        data.push(gb[j]);
        assert(gb@.subrange(0, j + 1) =~= gb@.subrange(0, j as int).push(gb@[j as int]));
        j = j + 1;
    }
    assert(gb@.subrange(0, gb@.len() as int) =~= gb@);
    let digest = sha1_digest(data.as_slice());
    base64_encode(digest.as_slice())
}

} // verus!
