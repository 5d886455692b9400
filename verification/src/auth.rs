//! Authentication: JWT settings and signing, server-side sessions, role
//! checks, OAuth2 URLs and password-reset tokens.
use vstd::prelude::*;
use jsonwebtoken::{DecodingKey, EncodingKey};
use ring::rand::SecureRandom;
use crate::headers::{lookup, strings_pairs};
use vstd::utf8::*;
use crate::request::{hex_pair, hex_value, pct, pct_bytes, Request};
use crate::text::{push_char, push_str, split_on, str_eq, strings_view, to_string};

verus! {

// ─── JWT ─────────────────────────────────────────────────────────────────────

/// Why signing or verifying a token failed, with the reason given.
#[derive(Debug)]
pub enum JwtError {
    Sign(String),
    Verify(String),
}

/// The message of a JWT error.
pub open spec fn jwt_error_text(e: JwtError) -> Seq<char> {
    match e {
        JwtError::Sign(s) => "JWT sign error: "@ + s@,
        JwtError::Verify(s) => "JWT verify error: "@ + s@,
    }
}

impl JwtError {
    /// The error's message.
    pub fn message(&self) -> (r: String)
        ensures
            r@ == jwt_error_text(*self),
    {
        let (head, body) = match self {
            JwtError::Sign(s) => ("JWT sign error: ", s),
            JwtError::Verify(s) => ("JWT verify error: ", s),
        };
        let mut m = to_string(head);
        push_str(&mut m, body.as_str());
        m
    }
}

/// Settings of the JWT middleware.
#[derive(Debug, Clone)]
pub struct JwtConfig {
    /// The HS256 secret tokens are verified with.
    pub secret: String,
    /// The header the token is read from.
    pub header_name: String,
    /// The prefix before the token in that header.
    pub prefix: String,
    /// Paths served without a token.
    pub public_paths: Vec<String>,
}

impl JwtConfig {
    /// Settings with `secret`, the `authorization` header, the `Bearer `
    /// prefix and no public paths.
    pub fn new(secret: &str) -> (r: JwtConfig)
        ensures
            r.secret@ == secret@,
            r.header_name@ == "authorization"@,
            r.prefix@ == "Bearer "@,
            r.public_paths@.len() == 0,
    {
        JwtConfig {
            secret: to_string(secret),
            header_name: to_string("authorization"),
            prefix: to_string("Bearer "),
            public_paths: Vec::new(),
        }
    }

    /// The same settings with `path` served without a token.
    pub fn public_path(self, path: &str) -> (r: JwtConfig)
        ensures
            r.secret == self.secret,
            r.header_name == self.header_name,
            r.prefix == self.prefix,
            strings_view(r.public_paths@) == strings_view(self.public_paths@).push(path@),
    {
        let mut c = self;
        let ghost before = c.public_paths@;
        c.public_paths.push(to_string(path));
        assert(strings_view(c.public_paths@) =~= strings_view(before).push(path@));
        c
    }
}

/// What the JWT middleware does with a request before any token is checked.
pub enum JwtGate {
    /// The path is public: pass it on.
    Public,
    /// The token header is missing: answer 401 with this detail.
    Missing(String),
    /// Verify this token.
    Check(String),
}

/// `s` with `p` removed from its start, if it starts with `p`.
pub open spec fn without_prefix(s: Seq<char>, p: Seq<char>) -> Option<Seq<char>> {
    if crate::text::starts_with(s, p) {
        Some(s.subrange(p.len() as int, s.len() as int))
    } else {
        None
    }
}

/// How the JWT middleware treats a request for `path` whose headers are
/// `headers`: public paths pass; a missing header is refused with a detail
/// naming the header and prefix expected; otherwise the header value, less
/// the prefix and trimmed (or whole, without the prefix), is the token.
pub open spec fn jwt_gate(c: JwtConfig, path: Seq<char>, headers: Seq<(String, String)>) -> JwtGateView {
    if strings_view(c.public_paths@).contains(path) {
        JwtGateView::Public
    } else {
        match lookup(strings_pairs(headers), c.header_name@) {
            None => JwtGateView::Missing(
                "Expected: "@ + c.header_name@ + ": "@ + c.prefix@ + "<token>"@,
            ),
            Some(v) => match without_prefix(v, c.prefix@) {
                Some(t) => JwtGateView::Check(crate::text::trim(t)),
                None => JwtGateView::Check(v),
            },
        }
    }
}

/// A gate decision as text.
pub enum JwtGateView {
    Public,
    Missing(Seq<char>),
    Check(Seq<char>),
}

/// A gate decision read as text.
pub open spec fn gate_view(g: JwtGate) -> JwtGateView {
    match g {
        JwtGate::Public => JwtGateView::Public,
        JwtGate::Missing(s) => JwtGateView::Missing(s@),
        JwtGate::Check(s) => JwtGateView::Check(s@),
    }
}

impl JwtConfig {
    /// What the middleware does with `req` before checking a token.
    pub fn gate(&self, req: &Request) -> (r: JwtGate)
        ensures
            gate_view(r) == jwt_gate(*self, req.path@, req.headers@),
    {
        let mut i: usize = 0;
        while i < self.public_paths.len()
            invariant
                i <= self.public_paths@.len(),
                forall|k: int| 0 <= k < i ==> self.public_paths@[k]@ != req.path@,
            decreases self.public_paths.len() - i,
        {
            if str_eq(self.public_paths[i].as_str(), req.path.as_str()) {
                assert(strings_view(self.public_paths@)[i as int] == req.path@);
                return JwtGate::Public;
            }
            i = i + 1;
        }
        assert(!strings_view(self.public_paths@).contains(req.path@)) by {
            assert forall|k: int| 0 <= k < strings_view(self.public_paths@).len() implies strings_view(
                self.public_paths@,
            )[k] != req.path@ by {
                assert(strings_view(self.public_paths@)[k] == self.public_paths@[k]@);
            }
        }
        match req.header(self.header_name.as_str()) {
            None => {
                let mut d = to_string("Expected: ");
                push_str(&mut d, self.header_name.as_str());
                push_str(&mut d, ": ");
                push_str(&mut d, self.prefix.as_str());
                push_str(&mut d, "<token>");
                JwtGate::Missing(d)
            },
            Some(v) => {
                let vc = crate::text::chars_of(v);
                let pc = crate::text::chars_of(self.prefix.as_str());
                if crate::text::chars_start_with(&vc, &pc) {
                    let n = vc.len();
                    JwtGate::Check(crate::text::trimmed_range(&vc, pc.len(), n))
                } else {
                    JwtGate::Check(to_string(v))
                }
            },
        }
    }
}

#[verifier::external_type_specification]
#[verifier::external_body]
pub struct ExEncodingKey(EncodingKey);

#[verifier::external_type_specification]
#[verifier::external_body]
pub struct ExDecodingKey(DecodingKey);

/// The signing algorithms the services here use.
#[derive(Clone, Copy, Debug, PartialEq, Eq, Structural)]
pub enum JwtAlgorithm {
    Hs256,
    Rs256,
    Es256,
}

/// The number of `.` characters in a text.
pub open spec fn dot_count(t: Seq<char>) -> nat
    decreases t.len(),
{
    if t.len() == 0 {
        0
    } else {
        dot_count(t.drop_last()) + if t.last() == '.' {
            1nat
        } else {
            0nat
        }
    }
}

/// Whether the last `.`-separated part of `token` is the HS256 signature
/// under `secret` (HMAC-SHA256, base64url without padding) of the text
/// before its last `.`.
pub uninterp spec fn hs256_signed(token: Seq<char>, secret: Seq<char>) -> bool;

/// The middle one of the `.`-separated parts of a token: its claims part.
pub open spec fn claims_part(token: Seq<char>) -> Seq<char> {
    split_on(token, seq!['.'])[1]
}

/// The claims part that `jsonwebtoken::encode` writes for these claims:
/// their JSON serialisation in base64url without padding.
pub uninterp spec fn encoded_claims(claims: serde_json::Value) -> Seq<char>;

/// The claims `jsonwebtoken::decode` reads from a token it accepts: its
/// claims part decoded from base64url and parsed as JSON.
pub uninterp spec fn token_claims(token: Seq<char>) -> serde_json::Value;

/// `jsonwebtoken::encode` with a header that names `alg` and no key id: the
/// signed token for the claims, or the text of the error. A token is three
/// base64url parts joined by `.`, so it holds exactly two dots, and its
/// middle part is the encoding of the claims; the signature (random for
/// ES256) and whether the key fits `alg` are not described.
#[verifier::external_body]
fn jwt_encode(alg: JwtAlgorithm, claims: &serde_json::Value, key: &EncodingKey) -> (r: Result<String, String>)
    ensures
        r matches Ok(t) ==> dot_count(t@) == 2 && claims_part(t@) == encoded_claims(*claims),
{
    let a = match alg {
        JwtAlgorithm::Hs256 => jsonwebtoken::Algorithm::HS256,
        JwtAlgorithm::Rs256 => jsonwebtoken::Algorithm::RS256,
        JwtAlgorithm::Es256 => jsonwebtoken::Algorithm::ES256,
    };
    match jsonwebtoken::encode(&jsonwebtoken::Header::new(a), claims, key) {
        Ok(t) => Ok(t),
        Err(e) => Err(e.to_string()),
    }
}

/// `jsonwebtoken::decode` into a JSON value with the validation for `alg`
/// (`exp` required and checked against the clock): the claims, or the text
/// of the error. A token is only read when it splits into three parts whose
/// header decodes, so an accepted token holds exactly two dots, and the
/// claims given back are those its middle part holds; whether it is
/// accepted depends on the key and the time and is not described.
#[verifier::external_body]
fn jwt_decode(alg: JwtAlgorithm, token: &str, key: &DecodingKey) -> (r: Result<serde_json::Value, String>)
    ensures
        r is Ok ==> dot_count(token@) == 2,
        r matches Ok(v) ==> v == token_claims(token@),
{
    let a = match alg {
        JwtAlgorithm::Hs256 => jsonwebtoken::Algorithm::HS256,
        JwtAlgorithm::Rs256 => jsonwebtoken::Algorithm::RS256,
        JwtAlgorithm::Es256 => jsonwebtoken::Algorithm::ES256,
    };
    match jsonwebtoken::decode::<serde_json::Value>(token, key, &jsonwebtoken::Validation::new(a)) {
        Ok(d) => Ok(d.claims),
        Err(e) => Err(e.to_string()),
    }
}

/// `jsonwebtoken::encode` with an HS256 header and the HMAC key made from
/// the secret's bytes (`EncodingKey::from_secret`). The key's family is
/// HMAC, which HS256 asks for; a JSON value always serialises and HMAC
/// signing cannot fail, so a token always comes back: three base64url parts,
/// the middle one the encoding of the claims, the last the HS256 signature
/// of the first two under the secret.
#[verifier::external_body]
fn jwt_encode_hs256(claims: &serde_json::Value, secret: &str) -> (r: Result<String, String>)
    ensures
        r is Ok,
        r matches Ok(t) ==> (dot_count(t@) == 2 && hs256_signed(t@, secret@) && claims_part(t@)
            == encoded_claims(*claims)),
{
    let key = EncodingKey::from_secret(secret.as_bytes());
    match jsonwebtoken::encode(&jsonwebtoken::Header::new(jsonwebtoken::Algorithm::HS256), claims, &key) {
        Ok(t) => Ok(t),
        Err(e) => Err(e.to_string()),
    }
}

/// `jsonwebtoken::decode` into a JSON value with the HS256 validation and
/// the HMAC key made from the secret's bytes (`DecodingKey::from_secret`):
/// the claims, or the text of the error. A token is accepted only when it
/// holds three parts and its signature is the HS256 signature under the
/// secret, and then gives back the claims its middle part holds; whether
/// `exp` has passed depends on the clock.
#[verifier::external_body]
fn jwt_decode_hs256(token: &str, secret: &str) -> (r: Result<serde_json::Value, String>)
    ensures
        r is Ok ==> (dot_count(token@) == 2 && hs256_signed(token@, secret@)),
        r matches Ok(v) ==> v == token_claims(token@),
{
    let key = DecodingKey::from_secret(secret.as_bytes());
    let validation = jsonwebtoken::Validation::new(jsonwebtoken::Algorithm::HS256);
    match jsonwebtoken::decode::<serde_json::Value>(token, &key, &validation) {
        Ok(d) => Ok(d.claims),
        Err(e) => Err(e.to_string()),
    }
}

/// Signs and verifies HS256 tokens with one secret.
pub struct JwtService {
    secret: String,
}

impl JwtService {
    /// The secret the service was made with.
    pub closed spec fn secret_text(&self) -> Seq<char> {
        self.secret@
    }

    /// A service for the HS256 secret `secret`.
    pub fn new(secret: &str) -> (r: JwtService)
        ensures
            r.secret_text() == secret@,
    {
        JwtService { secret: to_string(secret) }
    }

    /// Signs the claims: always a token of three parts, signed with HS256
    /// under the service's secret.
    pub fn sign(&self, claims: &serde_json::Value) -> (r: Result<String, JwtError>)
        ensures
            r matches Ok(t) && dot_count(t@) == 2 && hs256_signed(t@, self.secret_text())
                && claims_part(t@) == encoded_claims(*claims),
    {
        match jwt_encode_hs256(claims, self.secret.as_str()) {
            Ok(t) => Ok(t),
            Err(m) => Err(JwtError::Sign(m)),
        }
    }

    /// Verifies a token and returns its claims; a failure is reported as
    /// `Verify`. Only a token of three parts signed with HS256 under the
    /// service's secret is accepted.
    pub fn verify_value(&self, token: &str) -> (r: Result<serde_json::Value, JwtError>)
        ensures
            r matches Err(e) ==> e is Verify,
            r is Ok ==> dot_count(token@) == 2 && hs256_signed(token@, self.secret_text()),
            r matches Ok(v) ==> v == token_claims(token@),
    {
        match jwt_decode_hs256(token, self.secret.as_str()) {
            Ok(v) => Ok(v),
            Err(m) => Err(JwtError::Verify(m)),
        }
    }

    /// The secret the service was made with.
    pub fn secret(&self) -> (r: &str)
        ensures
            r@ == self.secret_text(),
    {
        self.secret.as_str()
    }
}

/// The claims of a token as compact JSON text: its payload part decoded
/// into a `serde_json::Value` and written out by the value's `Display`.
/// This depends on the token alone.
pub uninterp spec fn claims_json(token: Seq<char>) -> Seq<char>;

/// `jsonwebtoken::decode` with the HS256 validation and the HMAC key made
/// from the secret's bytes, the claims written out by `Display` of
/// `serde_json::Value`; or the text of the error. A token is accepted only
/// when it holds three parts and is signed with HS256 under the secret;
/// whether `exp` has passed depends on the clock.
#[verifier::external_body]
fn jwt_claims_hs256(token: &str, secret: &str) -> (r: Result<String, String>)
    ensures
        r matches Ok(c) ==> (c@ == claims_json(token@) && dot_count(token@) == 2 && hs256_signed(
            token@,
            secret@,
        )),
{
    let key = DecodingKey::from_secret(secret.as_bytes());
    let validation = jsonwebtoken::Validation::new(jsonwebtoken::Algorithm::HS256);
    match jsonwebtoken::decode::<serde_json::Value>(token, &key, &validation) {
        Ok(d) => Ok(d.claims.to_string()),
        Err(e) => Err(e.to_string()),
    }
}

/// What the JWT middleware answers a request with.
pub enum JwtAnswer {
    /// Pass the request on (a public path).
    Pass,
    /// Pass the request on, and attach these verified claims (as JSON text)
    /// to the response as `x-jwt-claims`.
    PassWithClaims(String),
    /// Answer 401 with this message, detail and suggestion.
    Unauthorized { message: String, detail: String, suggestion: String },
}

/// The answer to a token once it has been checked: a token whose claims
/// came back passes with those claims; a refused one gets 401 with the
/// verification error as detail.
pub fn jwt_answer(v: Result<String, String>) -> (r: JwtAnswer)
    ensures
        v matches Ok(c) ==> (r matches JwtAnswer::PassWithClaims(x) && x@ == c@),
        v matches Err(e) ==> (r matches JwtAnswer::Unauthorized { message, detail, suggestion }
            && message@ == "Invalid or expired JWT"@ && detail@ == "JWT verify error: "@ + e@
            && suggestion@ == "Ensure your token is valid and not expired."@),
{
    match v {
        Ok(c) => JwtAnswer::PassWithClaims(c),
        Err(e) => JwtAnswer::Unauthorized {
            message: to_string("Invalid or expired JWT"),
            detail: JwtError::Verify(e).message(),
            suggestion: to_string("Ensure your token is valid and not expired."),
        },
    }
}

impl JwtConfig {
    /// The middleware's decision for `req`: public paths pass; a missing
    /// token header is refused; otherwise the token is checked against the
    /// configured secret (and the clock) and answered by `jwt_answer`: it
    /// passes with its claims exactly when it is a token of three parts
    /// signed with HS256 under the secret that has not expired.
    pub fn check(&self, req: &Request) -> (r: JwtAnswer)
        ensures
            jwt_gate(*self, req.path@, req.headers@) is Public ==> r is Pass,
            jwt_gate(*self, req.path@, req.headers@) matches JwtGateView::Missing(d) ==> (r matches
                JwtAnswer::Unauthorized { message, detail, suggestion } && message@
                == "Missing Authorization header"@ && detail@ == d && suggestion@
                == "Include a valid JWT in the Authorization header."@),
            jwt_gate(*self, req.path@, req.headers@) matches JwtGateView::Check(t) ==> (!(r is Pass)
                && (r matches JwtAnswer::PassWithClaims(c) ==> c@ == claims_json(t) && dot_count(t) == 2
                && hs256_signed(t, self.secret@)) && (r matches JwtAnswer::Unauthorized {
                message,
                detail,
                suggestion,
            } ==> message@ == "Invalid or expired JWT"@ && suggestion@
                == "Ensure your token is valid and not expired."@)),
    {
        match self.gate(req) {
            JwtGate::Public => JwtAnswer::Pass,
            JwtGate::Missing(detail) => JwtAnswer::Unauthorized {
                message: to_string("Missing Authorization header"),
                detail,
                suggestion: to_string("Include a valid JWT in the Authorization header."),
            },
            JwtGate::Check(token) => jwt_answer(jwt_claims_hs256(token.as_str(), self.secret.as_str())),
        }
    }
}

/// Whether `EncodingKey::from_rsa_pem` accepts these PEM bytes.
pub uninterp spec fn rsa_private_accepted(pem: Seq<char>) -> bool;

/// Whether `DecodingKey::from_rsa_pem` accepts these PEM bytes.
pub uninterp spec fn rsa_public_accepted(pem: Seq<char>) -> bool;

/// Whether `EncodingKey::from_ec_pem` accepts these PEM bytes.
pub uninterp spec fn ec_private_accepted(pem: Seq<char>) -> bool;

/// Whether `DecodingKey::from_ec_pem` accepts these PEM bytes.
pub uninterp spec fn ec_public_accepted(pem: Seq<char>) -> bool;

/// `jsonwebtoken::EncodingKey::from_rsa_pem` on the text's bytes: a key when
/// the PEM is accepted, else the text of the error.
#[verifier::external_body]
fn rsa_encoding_key(pem: &str) -> (r: Result<EncodingKey, String>)
    ensures
        r is Ok <==> rsa_private_accepted(pem@),
{
    match EncodingKey::from_rsa_pem(pem.as_bytes()) {
        Ok(k) => Ok(k),
        Err(e) => Err(e.to_string()),
    }
}

/// `jsonwebtoken::DecodingKey::from_rsa_pem` on the text's bytes: a key when
/// the PEM is accepted, else the text of the error.
#[verifier::external_body]
fn rsa_decoding_key(pem: &str) -> (r: Result<DecodingKey, String>)
    ensures
        r is Ok <==> rsa_public_accepted(pem@),
{
    match DecodingKey::from_rsa_pem(pem.as_bytes()) {
        Ok(k) => Ok(k),
        Err(e) => Err(e.to_string()),
    }
}

/// `jsonwebtoken::EncodingKey::from_ec_pem` on the text's bytes: a key when
/// the PEM is accepted, else the text of the error.
#[verifier::external_body]
fn ec_encoding_key(pem: &str) -> (r: Result<EncodingKey, String>)
    ensures
        r is Ok <==> ec_private_accepted(pem@),
{
    match EncodingKey::from_ec_pem(pem.as_bytes()) {
        Ok(k) => Ok(k),
        Err(e) => Err(e.to_string()),
    }
}

/// `jsonwebtoken::DecodingKey::from_ec_pem` on the text's bytes: a key when
/// the PEM is accepted, else the text of the error.
#[verifier::external_body]
fn ec_decoding_key(pem: &str) -> (r: Result<DecodingKey, String>)
    ensures
        r is Ok <==> ec_public_accepted(pem@),
{
    match DecodingKey::from_ec_pem(pem.as_bytes()) {
        Ok(k) => Ok(k),
        Err(e) => Err(e.to_string()),
    }
}

/// Signs and verifies tokens with HS256, RS256 or ES256 keys.
pub struct JwtServiceMulti {
    algorithm: JwtAlgorithm,
    /// The HMAC secret of an HS256 service.
    secret: Option<String>,
    /// The key pair of an RS256 or ES256 service.
    keys: Option<(EncodingKey, DecodingKey)>,
}

impl JwtServiceMulti {
    #[verifier::type_invariant]
    spec fn inv(self) -> bool {
        &&& (self.algorithm == JwtAlgorithm::Hs256) == (self.secret is Some)
        &&& (self.secret is Some) != (self.keys is Some)
    }

    /// The algorithm the service signs and verifies with.
    pub closed spec fn alg(&self) -> JwtAlgorithm {
        self.algorithm
    }

    /// The HMAC secret of an HS256 service (empty for the others).
    pub closed spec fn hmac_secret(&self) -> Seq<char> {
        match self.secret {
            Some(s) => s@,
            None => seq![],
        }
    }

    /// An HS256 service for `secret`.
    pub fn hs256(secret: &str) -> (r: JwtServiceMulti)
        ensures
            r.alg() == JwtAlgorithm::Hs256,
            r.hmac_secret() == secret@,
    {
        JwtServiceMulti { algorithm: JwtAlgorithm::Hs256, secret: Some(to_string(secret)), keys: None }
    }

    /// An RS256 service from an RSA private key and public key in PEM; the
    /// error of the first key that is refused otherwise.
    pub fn rs256(private_pem: &str, public_pem: &str) -> (r: Result<JwtServiceMulti, String>)
        ensures
            r is Ok <==> rsa_private_accepted(private_pem@) && rsa_public_accepted(public_pem@),
            r matches Ok(s) ==> s.alg() == JwtAlgorithm::Rs256,
    {
        let enc = match rsa_encoding_key(private_pem) {
            Ok(k) => k,
            Err(e) => {
                return Err(e);
            },
        };
        let dec = match rsa_decoding_key(public_pem) {
            Ok(k) => k,
            Err(e) => {
                return Err(e);
            },
        };
        Ok(JwtServiceMulti { algorithm: JwtAlgorithm::Rs256, secret: None, keys: Some((enc, dec)) })
    }

    /// An ES256 service from an EC private key and public key in PEM; the
    /// error of the first key that is refused otherwise.
    pub fn es256(private_pem: &str, public_pem: &str) -> (r: Result<JwtServiceMulti, String>)
        ensures
            r is Ok <==> ec_private_accepted(private_pem@) && ec_public_accepted(public_pem@),
            r matches Ok(s) ==> s.alg() == JwtAlgorithm::Es256,
    {
        let enc = match ec_encoding_key(private_pem) {
            Ok(k) => k,
            Err(e) => {
                return Err(e);
            },
        };
        let dec = match ec_decoding_key(public_pem) {
            Ok(k) => k,
            Err(e) => {
                return Err(e);
            },
        };
        Ok(JwtServiceMulti { algorithm: JwtAlgorithm::Es256, secret: None, keys: Some((enc, dec)) })
    }

    /// Signs the claims with the service's algorithm and key. A token has
    /// three parts; an HS256 service always signs, under its secret.
    pub fn sign(&self, claims: &serde_json::Value) -> (r: Result<String, String>)
        ensures
            r matches Ok(t) ==> dot_count(t@) == 2 && claims_part(t@) == encoded_claims(*claims),
            self.alg() == JwtAlgorithm::Hs256 ==> (r matches Ok(t) && hs256_signed(t@, self.hmac_secret())),
    {
        proof {
            use_type_invariant(self);
        }
        match &self.secret {
            Some(s) => jwt_encode_hs256(claims, s.as_str()),
            None => match &self.keys {
                Some((enc, _)) => jwt_encode(self.algorithm, claims, enc),
                None => Err(to_string("no signing key")),
            },
        }
    }

    /// Verifies a token with the service's algorithm and key, `exp`
    /// included, and returns its claims. An accepted token has three parts;
    /// an HS256 service accepts only tokens signed under its secret.
    pub fn verify_value(&self, token: &str) -> (r: Result<serde_json::Value, String>)
        ensures
            r is Ok ==> dot_count(token@) == 2,
            r matches Ok(v) ==> v == token_claims(token@),
            self.alg() == JwtAlgorithm::Hs256 && r is Ok ==> hs256_signed(token@, self.hmac_secret()),
    {
        proof {
            use_type_invariant(self);
        }
        match &self.secret {
            Some(s) => jwt_decode_hs256(token, s.as_str()),
            None => match &self.keys {
                Some((_, dec)) => jwt_decode(self.algorithm, token, dec),
                None => Err(to_string("no verifying key")),
            },
        }
    }
}

// ─── Roles ───────────────────────────────────────────────────────────────────

/// The `role` string of the JSON object `claims`, if it is one.
pub uninterp spec fn role_claim(claims: Seq<char>) -> Option<Seq<char>>;

/// Reads `claims` as JSON with `serde_json::from_str` and takes its `role`
/// member when that is a string; `None` when the text is not JSON or there
/// is no such string.
#[verifier::external_body]
fn claims_role(claims: &str) -> (r: Option<String>)
    ensures
        crate::multipart::opt_text(r) == role_claim(claims@),
{
    match serde_json::from_str::<serde_json::Value>(claims) {
        Ok(v) => match v.get("role") {
            Some(serde_json::Value::String(s)) => Some(s.clone()),
            _ => None,
        },
        Err(_) => None,
    }
}

/// The role recorded in a request's `x-jwt-claims` header.
pub open spec fn request_role(headers: Seq<(String, String)>) -> Option<Seq<char>> {
    match lookup(strings_pairs(headers), "x-jwt-claims"@) {
        Some(c) => role_claim(c),
        None => None,
    }
}

/// The role recorded in the request's `x-jwt-claims` header.
pub fn role_of(req: &Request) -> (r: Option<String>)
    ensures
        crate::multipart::opt_text(r) == request_role(req.headers@),
{
    match req.header("x-jwt-claims") {
        Some(c) => claims_role(c),
        None => None,
    }
}

/// A user with role `user_role` may pass a check for `required`: the same
/// role, or `admin`.
pub open spec fn role_passes(user_role: Seq<char>, required: Seq<char>) -> bool {
    user_role == required || user_role == "admin"@
}

/// Whether a user with `user_role` passes a check for `required`.
pub fn role_allows(user_role: &str, required: &str) -> (r: bool)
    ensures
        r == role_passes(user_role@, required@),
{
    str_eq(user_role, required) || str_eq(user_role, "admin")
}

/// Whether a user with `user_role` passes a check for any of `roles`.
pub fn any_role_allows(user_role: &str, roles: &Vec<String>) -> (r: bool)
    ensures
        r == (strings_view(roles@).contains(user_role@) || user_role@ == "admin"@),
{
    let mut i: usize = 0;
    while i < roles.len()
        invariant
            i <= roles@.len(),
            forall|k: int| 0 <= k < i ==> roles@[k]@ != user_role@,
        decreases roles.len() - i,
    {
        if str_eq(roles[i].as_str(), user_role) {
            assert(strings_view(roles@)[i as int] == user_role@);
            return true;
        }
        i = i + 1;
    }
    assert(!strings_view(roles@).contains(user_role@)) by {
        assert forall|k: int| 0 <= k < strings_view(roles@).len() implies strings_view(roles@)[k]
            != user_role@ by {
            assert(strings_view(roles@)[k] == roles@[k]@);
        }
    }
    str_eq(user_role, "admin")
}

// ─── Encoding ────────────────────────────────────────────────────────────────

/// The lower-case hex digit of `d` (below 16).
pub open spec fn hex_lower(d: int) -> char {
    if d < 10 {
        (48 + d) as char
    } else {
        (87 + d) as char
    }
}

/// The upper-case hex digit of `d` (below 16).
pub open spec fn hex_upper(d: int) -> char {
    if d < 10 {
        (48 + d) as char
    } else {
        (55 + d) as char
    }
}

/// Each byte as two lower-case hex digits.
pub open spec fn hex_text(b: Seq<u8>) -> Seq<char>
    decreases b.len(),
{
    if b.len() == 0 {
        seq![]
    } else {
        hex_text(b.drop_last()) + seq![hex_lower((b.last() / 16) as int), hex_lower((b.last() % 16) as int)]
    }
}

fn lower_digit(d: u8) -> (r: char)
    requires
        d < 16,
    ensures
        r == hex_lower(d as int),
{
    if d < 10 {
        (48 + d) as char
    } else {
        (87 + d) as char
    }
}

fn upper_digit(d: u8) -> (r: char)
    requires
        d < 16,
    ensures
        r == hex_upper(d as int),
{
    if d < 10 {
        (48 + d) as char
    } else {
        (55 + d) as char
    }
}

/// The bytes as lower-case hex, two digits each.
pub fn hex_encode(bytes: &[u8]) -> (r: String)
    ensures
        r@ == hex_text(bytes@),
{
    let mut out = String::new();
    let mut i: usize = 0;
    while i < bytes.len()
        invariant
            i <= bytes@.len(),
            out@ == hex_text(bytes@.subrange(0, i as int)),
        decreases bytes.len() - i,
    {
        let b = bytes[i];
        push_char(&mut out, lower_digit(b / 16));
        push_char(&mut out, lower_digit(b % 16));
        proof {
            let pre = bytes@.subrange(0, i + 1);
            assert(pre.drop_last() =~= bytes@.subrange(0, i as int));
            assert(out@ =~= hex_text(pre));
        }
        i = i + 1;
    }
    assert(bytes@.subrange(0, bytes@.len() as int) =~= bytes@);
    out
}

/// Whether a character is alphabetic or numeric in Unicode, as
/// `char::is_alphanumeric` decides it.
pub uninterp spec fn alphanumeric(c: char) -> bool;

/// `char::is_alphanumeric`, asked here only of characters beyond ASCII,
/// where which letters and digits count is left to std.
#[verifier::external_body]
fn is_alphanumeric(c: char) -> (r: bool)
    ensures
        r == alphanumeric(c),
{
    c.is_alphanumeric()
}

/// An ASCII letter or digit.
pub open spec fn ascii_alphanumeric(c: char) -> bool {
    'a' <= c <= 'z' || 'A' <= c <= 'Z' || '0' <= c <= '9'
}

/// A character that URL encoding leaves as it is: an ASCII letter or
/// digit, one of `-_.~`, or a letter or digit beyond ASCII.
pub open spec fn url_unreserved(c: char) -> bool {
    ||| ascii_alphanumeric(c)
    ||| c == '-' || c == '_' || c == '.' || c == '~'
    ||| ((c as u32) >= 128 && alphanumeric(c))
}

/// The URL encoding of one character: space is `+`; letters, digits and
/// `-_.~` stay; anything else is `%` and two upper-case hex digits of the
/// low byte of its code point.
pub open spec fn url_char(c: char) -> Seq<char> {
    if c == ' ' {
        seq!['+']
    } else if url_unreserved(c) {
        seq![c]
    } else {
        let b = (c as u32) % 256;
        seq!['%', hex_upper((b / 16) as int), hex_upper((b % 16) as int)]
    }
}

/// The URL encoding of a string, character by character.
pub open spec fn url_text(s: Seq<char>) -> Seq<char>
    decreases s.len(),
{
    if s.len() == 0 {
        seq![]
    } else {
        url_text(s.drop_last()) + url_char(s.last())
    }
}

/// URL-encodes a string for a query parameter (`hello world` →
/// `hello+world`, `a@b.com` → `a%40b.com`). On ASCII text `percent_decode`
/// gives the text back (`lemma_percent_decode_url_encode`).
pub fn url_encode(s: &str) -> (r: String)
    ensures
        r@ == url_text(s@),
{
    let cs = crate::text::chars_of(s);
    let mut out = String::new();
    let mut i: usize = 0;
    while i < cs.len()
        invariant
            i <= cs@.len(),
            cs@ == s@,
            out@ == url_text(cs@.subrange(0, i as int)),
        decreases cs.len() - i,
    {
        let c = cs[i];
        let ghost before = out@;
        if c == ' ' {
            push_char(&mut out, '+');
        } else if ('a' <= c && c <= 'z') || ('A' <= c && c <= 'Z') || ('0' <= c && c <= '9') || c
            == '-' || c == '_' || c == '.' || c == '~' {
            push_char(&mut out, c);
        } else if (c as u32) >= 128 && is_alphanumeric(c) {
            push_char(&mut out, c);
        } else {
            let code: u32 = c as u32;
            let b: u32 = code % 256;
            let byte: u8 = b as u8;
            push_char(&mut out, '%');
            push_char(&mut out, upper_digit(byte / 16));
            push_char(&mut out, upper_digit(byte % 16));
        }
        proof {
            let pre = cs@.subrange(0, i + 1);
            assert(pre.drop_last() =~= cs@.subrange(0, i as int));
            assert(out@ =~= before + url_char(c));
        }
        i = i + 1;
    }
    assert(cs@.subrange(0, cs@.len() as int) =~= cs@);
    out
}

/// Every character of `s` is ASCII.
pub open spec fn all_ascii(s: Seq<char>) -> bool {
    forall|i: int| 0 <= i < s.len() ==> (s[i] as u32) < 128
}

/// `url_text` read from the front: the first character's encoding, then
/// the rest's.
#[verifier::spinoff_prover]
proof fn lemma_url_text_first(s: Seq<char>)
    requires
        s.len() > 0,
    ensures
        url_text(s) == url_char(s[0]) + url_text(s.drop_first()),
    decreases s.len(),
{
    if s.len() == 1 {
        assert(s.drop_last() =~= Seq::<char>::empty());
        assert(s.drop_first() =~= Seq::<char>::empty());
        assert(url_text(s.drop_last()) =~= Seq::<char>::empty());
        assert(url_text(s) == url_text(s.drop_last()) + url_char(s.last()));
        assert(url_text(s) =~= url_char(s[0]));
    } else {
        lemma_url_text_first(s.drop_last());
        assert(s.drop_first().drop_last() =~= s.drop_last().drop_first());
        assert(s.drop_first().last() == s.last());
    }
}

proof fn lemma_encode_append(a: Seq<char>, b: Seq<char>)
    ensures
        encode_utf8(a + b) == encode_utf8(a) + encode_utf8(b),
    decreases a.len(),
{
    if a.len() == 0 {
        assert(a + b =~= b);
    } else {
        assert((a + b).drop_first() =~= a.drop_first() + b);
        lemma_encode_append(a.drop_first(), b);
    }
}

/// An ASCII character is encoded as the one byte of its code.
proof fn lemma_encode_ascii_char(c: char)
    requires
        (c as u32) < 128,
    ensures
        encode_utf8(seq![c]) == seq![(c as u32) as u8],
        ((c as u32) as u8) as int == c as u32,
{
    let v = c as u32;
    assert(seq![c].drop_first() =~= Seq::<char>::empty());
    assert((v & 0x7f) as u8 == v) by (bit_vector)
        requires
            v < 128,
    ;
    assert(v as u8 == v) by (bit_vector)
        requires
            v < 128,
    ;
    assert(seq![c][0] == c);
    assert(encode_scalar(v) =~= seq![v as u8]);
    assert(encode_utf8(Seq::<char>::empty()) =~= Seq::<u8>::empty());
    assert(encode_utf8(seq![c]) =~= encode_scalar(v) + encode_utf8(Seq::<char>::empty()));
}

/// Percent-decoding the bytes of the URL encoding of ASCII text gives the
/// bytes of the text back.
#[verifier::spinoff_prover]
#[verifier::rlimit(30)]
proof fn lemma_pct_bytes_url_text(s: Seq<char>)
    requires
        all_ascii(s),
    ensures
        pct_bytes(encode_utf8(url_text(s))) == encode_utf8(s),
    decreases s.len(),
{
    if s.len() == 0 {
        assert(url_text(s) =~= Seq::<char>::empty());
        assert(encode_utf8(url_text(s)) =~= Seq::<u8>::empty());
    } else {
        let c = s[0];
        let rest = s.drop_first();
        assert(all_ascii(rest)) by {
            assert forall|i: int| 0 <= i < rest.len() implies (rest[i] as u32) < 128 by {
                assert(rest[i] == s[i + 1]);
            }
        }
        lemma_url_text_first(s);
        lemma_encode_append(url_char(c), url_text(rest));
        lemma_pct_bytes_url_text(rest);
        lemma_encode_ascii_char(c);
        assert(s =~= seq![c] + rest);
        lemma_encode_append(seq![c], rest);
        let tail = encode_utf8(url_text(rest));
        let bs = encode_utf8(url_char(c)) + tail;
        let v = c as u32;
        if c == ' ' {
            lemma_encode_ascii_char('+');
            assert(bs.drop_first() =~= tail);
        } else if url_unreserved(c) {
            assert(bs.drop_first() =~= tail);
        } else {
            let b = v % 256;
            let hi = hex_upper((b / 16) as int);
            let lo = hex_upper((b % 16) as int);
            assert(b == v);
            assert((hi as u32) == 48 + b / 16);
            assert((lo as u32) == (if b % 16 < 10 { 48 + b % 16 } else { 55 + b % 16 }));
            lemma_encode_ascii_char('%');
            lemma_encode_ascii_char(hi);
            lemma_encode_ascii_char(lo);
            assert(url_char(c) =~= seq!['%'] + seq![hi] + seq![lo]);
            lemma_encode_append(seq!['%'] + seq![hi], seq![lo]);
            lemma_encode_append(seq!['%'], seq![hi]);
            let hb = (hi as u32) as u8;
            let lb = (lo as u32) as u8;
            assert(hex_value(hb) == Some((b / 16) as u8));
            assert(hex_value(lb) == Some((b % 16) as u8));
            assert(hex_pair(hb, lb) == Some(v as u8));
            assert(bs.subrange(3, bs.len() as int) =~= tail);
        }
    }
}

/// Percent-decoding the URL encoding of ASCII text gives the text back:
/// for ASCII `s`, `percent_decode(&url_encode(s)) == s`.
pub proof fn lemma_percent_decode_url_encode(s: Seq<char>)
    requires
        all_ascii(s),
    ensures
        pct(url_text(s)) == s,
{
    lemma_pct_bytes_url_text(s);
    encode_utf8_valid_utf8(s);
    encode_utf8_decode_utf8(s);
}

// ─── OAuth2 ──────────────────────────────────────────────────────────────────

/// An OAuth2 provider.
#[derive(Debug, Clone)]
pub enum OAuth2Provider {
    Google,
    GitHub,
    Discord,
    Custom { auth_url: String, token_url: String, user_url: String },
}

/// A provider's authorization URL.
pub open spec fn auth_url_of(p: OAuth2Provider) -> Seq<char> {
    match p {
        OAuth2Provider::Google => "https://accounts.google.com/o/oauth2/v2/auth"@,
        OAuth2Provider::GitHub => "https://github.com/login/oauth/authorize"@,
        OAuth2Provider::Discord => "https://discord.com/api/oauth2/authorize"@,
        OAuth2Provider::Custom { auth_url, .. } => auth_url@,
    }
}

/// A provider's token exchange URL.
pub open spec fn token_url_of(p: OAuth2Provider) -> Seq<char> {
    match p {
        OAuth2Provider::Google => "https://oauth2.googleapis.com/token"@,
        OAuth2Provider::GitHub => "https://github.com/login/oauth/access_token"@,
        OAuth2Provider::Discord => "https://discord.com/api/oauth2/token"@,
        OAuth2Provider::Custom { token_url, .. } => token_url@,
    }
}

/// A provider's user information URL.
pub open spec fn user_url_of(p: OAuth2Provider) -> Seq<char> {
    match p {
        OAuth2Provider::Google => "https://www.googleapis.com/oauth2/v2/userinfo"@,
        OAuth2Provider::GitHub => "https://api.github.com/user"@,
        OAuth2Provider::Discord => "https://discord.com/api/users/@me"@,
        OAuth2Provider::Custom { user_url, .. } => user_url@,
    }
}

impl OAuth2Provider {
    /// The authorization URL.
    pub fn auth_url(&self) -> (r: &str)
        ensures
            r@ == auth_url_of(*self),
    {
        match self {
            OAuth2Provider::Google => "https://accounts.google.com/o/oauth2/v2/auth",
            OAuth2Provider::GitHub => "https://github.com/login/oauth/authorize",
            OAuth2Provider::Discord => "https://discord.com/api/oauth2/authorize",
            OAuth2Provider::Custom { auth_url, .. } => auth_url.as_str(),
        }
    }

    /// The token exchange URL.
    pub fn token_url(&self) -> (r: &str)
        ensures
            r@ == token_url_of(*self),
    {
        match self {
            OAuth2Provider::Google => "https://oauth2.googleapis.com/token",
            OAuth2Provider::GitHub => "https://github.com/login/oauth/access_token",
            OAuth2Provider::Discord => "https://discord.com/api/oauth2/token",
            OAuth2Provider::Custom { token_url, .. } => token_url.as_str(),
        }
    }

    /// The user information URL.
    pub fn user_url(&self) -> (r: &str)
        ensures
            r@ == user_url_of(*self),
    {
        match self {
            OAuth2Provider::Google => "https://www.googleapis.com/oauth2/v2/userinfo",
            OAuth2Provider::GitHub => "https://api.github.com/user",
            OAuth2Provider::Discord => "https://discord.com/api/users/@me",
            OAuth2Provider::Custom { user_url, .. } => user_url.as_str(),
        }
    }
}

/// An OAuth2 client registration.
#[derive(Debug, Clone)]
pub struct OAuth2Config {
    pub provider: OAuth2Provider,
    pub client_id: String,
    pub client_secret: String,
    pub redirect_uri: String,
    pub scopes: Vec<String>,
}

/// Strings joined with single spaces.
pub open spec fn space_joined(v: Seq<Seq<char>>) -> Seq<char>
    decreases v.len(),
{
    if v.len() == 0 {
        seq![]
    } else if v.len() == 1 {
        v[0]
    } else {
        space_joined(v.drop_last()) + seq![' '] + v.last()
    }
}

/// The URL a user is sent to to authorize the client, with `state`.
pub open spec fn authorization_text(c: OAuth2Config, state: Seq<char>) -> Seq<char> {
    auth_url_of(c.provider) + "?response_type=code&client_id="@ + url_text(c.client_id@)
        + "&redirect_uri="@ + url_text(c.redirect_uri@) + "&scope="@ + url_text(
        space_joined(strings_view(c.scopes@)),
    ) + "&state="@ + url_text(state)
}

impl OAuth2Config {
    /// The URL to send the user to, carrying `state`.
    pub fn authorization_url(&self, state: &str) -> (r: String)
        ensures
            r@ == authorization_text(*self, state@),
    {
        let ghost sv = strings_view(self.scopes@);
        let mut scope = String::new();
        let mut i: usize = 0;
        while i < self.scopes.len()
            invariant
                i <= self.scopes@.len(),
                sv == strings_view(self.scopes@),
                scope@ == space_joined(sv.subrange(0, i as int)),
            decreases self.scopes.len() - i,
        {
            let ghost before = scope@;
            if i > 0 {
                push_char(&mut scope, ' ');
            }
            push_str(&mut scope, self.scopes[i].as_str());
            proof {
                let pre = sv.subrange(0, i + 1);
                assert(pre.drop_last() =~= sv.subrange(0, i as int));
                if i == 0 {
                    assert(scope@ =~= pre[0]);
                } else {
                    assert(scope@ =~= space_joined(pre));
                }
            }
            i = i + 1;
        }
        assert(sv.subrange(0, sv.len() as int) =~= sv);
        let mut out = to_string(self.provider.auth_url());
        push_str(&mut out, "?response_type=code&client_id=");
        push_str(&mut out, url_encode(self.client_id.as_str()).as_str());
        push_str(&mut out, "&redirect_uri=");
        push_str(&mut out, url_encode(self.redirect_uri.as_str()).as_str());
        push_str(&mut out, "&scope=");
        push_str(&mut out, url_encode(scope.as_str()).as_str());
        push_str(&mut out, "&state=");
        push_str(&mut out, url_encode(state).as_str());
        out
    }
}

// ─── Random identifiers and time ─────────────────────────────────────────────

/// Fills the buffer from `ring::rand::SystemRandom` (the operating system's
/// random source). The bytes are chance; a failed fill leaves the buffer as
/// it was.
#[verifier::external_body]
fn fill_random(buf: &mut [u8; 32]) {
    let rng = ring::rand::SystemRandom::new();
    let _ = SecureRandom::fill(&rng, buf);
}

/// A fresh random identifier: 32 random bytes as 64 lower-case hex digits.
pub fn generate_session_id() -> (r: String)
    ensures
        r@.len() == 64,
        exists|b: Seq<u8>| b.len() == 32 && r@ == hex_text(b),
{
    let mut bytes = [0u8; 32];
    fill_random(&mut bytes);
    let r = hex_encode(&bytes);
    proof {
        lemma_hex_len(bytes@);
    }
    r
}

proof fn lemma_hex_len(b: Seq<u8>)
    ensures
        hex_text(b).len() == 2 * b.len(),
    decreases b.len(),
{
    if b.len() > 0 {
        lemma_hex_len(b.drop_last());
    }
}

/// The system clock, read with `SystemTime::now()`, as whole seconds since
/// the Unix epoch (0 for a clock set before it). The value is the clock's.
#[verifier::external_body]
pub(crate) fn current_timestamp() -> (r: u64) {
    match std::time::SystemTime::now().duration_since(std::time::UNIX_EPOCH) {
        Ok(d) => d.as_secs(),
        Err(_) => 0,
    }
}

// ─── Sessions ────────────────────────────────────────────────────────────────

/// A user session.
#[derive(Debug)]
pub struct Session {
    pub session_id: String,
    pub user_id: String,
    pub data: serde_json::Value,
    /// Seconds since the Unix epoch after which the session is expired.
    pub expires_at: u64,
}

/// What a session records.
pub struct SessionView {
    pub id: Seq<char>,
    pub user: Seq<char>,
    pub data: serde_json::Value,
    pub expires_at: u64,
}

impl View for Session {
    type V = SessionView;

    open spec fn view(&self) -> SessionView {
        SessionView { id: self.session_id@, user: self.user_id@, data: self.data, expires_at: self.expires_at }
    }
}

impl Clone for Session {
    fn clone(&self) -> (r: Session)
        ensures
            r@ == self@,
    {
        Session {
            session_id: self.session_id.clone(),
            user_id: self.user_id.clone(),
            data: self.data.clone(),
            expires_at: self.expires_at,
        }
    }
}

/// The views of a list of sessions.
pub open spec fn sessions_view(v: Seq<Session>) -> Seq<SessionView> {
    v.map_values(|s: Session| s@)
}

/// The position of the session with id `id`, from `i` on.
pub open spec fn session_index(v: Seq<SessionView>, id: Seq<char>, i: int) -> Option<int>
    decreases v.len() - i,
{
    if i < 0 || i >= v.len() {
        None
    } else if v[i].id == id {
        Some(i)
    } else {
        session_index(v, id, i + 1)
    }
}

/// No two sessions share an id.
pub open spec fn ids_unique(v: Seq<SessionView>) -> bool {
    forall|a: int, b: int| 0 <= a < b < v.len() ==> #[trigger] v[a].id != #[trigger] v[b].id
}

/// The live session with id `id` at time `now`: present and not past its
/// expiry.
pub open spec fn live_session(v: Seq<SessionView>, id: Seq<char>, now: u64) -> Option<SessionView> {
    match session_index(v, id, 0) {
        Some(i) => if now > v[i].expires_at {
            None
        } else {
            Some(v[i])
        },
        None => None,
    }
}

proof fn lemma_session_index(v: Seq<SessionView>, id: Seq<char>, i: int)
    requires
        0 <= i,
    ensures
        session_index(v, id, i) matches Some(j) ==> i <= j < v.len() && v[j].id == id && forall|
            l: int,
        |
            i <= l < j ==> v[l].id != id,
        session_index(v, id, i) is None ==> forall|l: int| i <= l < v.len() ==> v[l].id != id,
    decreases v.len() - i,
{
    if i < v.len() && v[i].id != id {
        lemma_session_index(v, id, i + 1);
    }
}

/// The records after storing `s`: it replaces the record with its id, or
/// comes last.
pub open spec fn session_stored(v: Seq<SessionView>, s: SessionView) -> Seq<SessionView> {
    match session_index(v, s.id, 0) {
        Some(i) => v.update(i, s),
        None => v.push(s),
    }
}

/// The records after removing the one with id `id`, if any.
pub open spec fn session_dropped(v: Seq<SessionView>, id: Seq<char>) -> Seq<SessionView> {
    match session_index(v, id, 0) {
        Some(i) => v.remove(i),
        None => v,
    }
}

/// The first record with id `s.id` after storing `s` is `s` itself, and
/// other ids are found where they were.
proof fn lemma_session_stored_index(v: Seq<SessionView>, s: SessionView, id: Seq<char>)
    ensures
        id == s.id ==> (session_index(session_stored(v, s), id, 0) matches Some(k) && session_stored(
            v,
            s,
        )[k] == s),
        id != s.id ==> session_index(session_stored(v, s), id, 0) == session_index(v, id, 0),
        id != s.id ==> (session_index(v, id, 0) matches Some(k) ==> session_stored(v, s)[k] == v[k]),
{
    let u = session_stored(v, s);
    lemma_session_index(v, s.id, 0);
    lemma_session_index(v, id, 0);
    lemma_session_index(u, id, 0);
    assert(forall|l: int| 0 <= l < v.len() && v[l].id != s.id ==> #[trigger] u[l] == v[l]);
    if id == s.id {
        match session_index(v, s.id, 0) {
            Some(i) => {
                assert(u[i] == s);
            },
            None => {
                assert(u[v.len() as int] == s);
            },
        }
    } else {
        match session_index(v, id, 0) {
            Some(j) => {
                assert(u[j] == v[j]);
            },
            None => {
                assert(forall|l: int| 0 <= l < u.len() ==> #[trigger] u[l].id != id);
            },
        }
    }
}

/// Reading a session back: right after `s` is stored, it is found under its
/// id at any time up to its expiry.
pub proof fn law_session_stored_then_found(v: Seq<SessionView>, s: SessionView, now: u64)
    requires
        now <= s.expires_at,
    ensures
        live_session(session_stored(v, s), s.id, now) == Some(s),
{
    lemma_session_stored_index(v, s, s.id);
}

/// Storing a session leaves what every other id finds unchanged.
pub proof fn law_session_store_keeps_others(v: Seq<SessionView>, s: SessionView, id: Seq<char>, now: u64)
    requires
        id != s.id,
    ensures
        live_session(session_stored(v, s), id, now) == live_session(v, id, now),
{
    lemma_session_stored_index(v, s, id);
}

/// Logging out: once the session with id `id` is removed, nothing is found
/// under that id, at any time.
pub proof fn law_session_dropped_not_found(v: Seq<SessionView>, id: Seq<char>, now: u64)
    requires
        ids_unique(v),
    ensures
        live_session(session_dropped(v, id), id, now) is None,
{
    let u = session_dropped(v, id);
    lemma_session_index(v, id, 0);
    lemma_session_index(u, id, 0);
    match session_index(v, id, 0) {
        Some(i) => {
            assert forall|l: int| 0 <= l < u.len() implies #[trigger] u[l].id != id by {
                let l2 = if l < i { l } else { l + 1 };
                if l2 < i {
                    assert(v[l2].id != v[i].id);
                } else {
                    assert(v[i].id != v[l2].id);
                }
            }
        },
        None => {},
    }
}

/// Server-side sessions, each under a distinct id.
pub struct SessionStore {
    sessions: Vec<Session>,
}

impl SessionStore {
    #[verifier::type_invariant]
    spec fn inv(self) -> bool {
        ids_unique(sessions_view(self.sessions@))
    }

    /// The sessions held, in the order they were created.
    pub closed spec fn records(&self) -> Seq<SessionView> {
        sessions_view(self.sessions@)
    }

    /// An empty store.
    pub fn new() -> (r: SessionStore)
        ensures
            r.records().len() == 0,
    {
        SessionStore { sessions: Vec::new() }
    }

    fn position(&self, id: &str) -> (r: Option<usize>)
        ensures
            crate::strmap::opt_index(r) == session_index(self.records(), id@, 0),
            r matches Some(i) ==> i < self.records().len(),
    {
        let mut i: usize = 0;
        while i < self.sessions.len()
            invariant
                i <= self.sessions@.len(),
                session_index(self.records(), id@, 0) == session_index(self.records(), id@, i as int),
            decreases self.sessions.len() - i,
        {
            if str_eq(self.sessions[i].session_id.as_str(), id) {
                return Some(i);
            }
            i = i + 1;
        }
        None
    }

    /// Stores `session`, replacing any session with its id.
    pub fn insert(&mut self, session: Session)
        ensures
            final(self).records() == session_stored(old(self).records(), session@),
    {
        proof {
            use_type_invariant(&*self);
            lemma_session_index(self.records(), session.session_id@, 0);
        }
        let ghost sv = session@;
        let pos = self.position(session.session_id.as_str());
        let mut v: Vec<Session> = Vec::new();
        std::mem::swap(&mut v, &mut self.sessions);
        let ghost before = sessions_view(v@);
        match pos {
            Some(i) => {
                assert(session_index(before, sv.id, 0) == Some(i as int));
                v.set(i, session);
                assert(sessions_view(v@) =~= before.update(i as int, sv));
                assert(ids_unique(sessions_view(v@))) by {
                    assert forall|a: int, b: int| 0 <= a < b < sessions_view(v@).len() implies #[trigger] sessions_view(
                        v@,
                    )[a].id != #[trigger] sessions_view(v@)[b].id by {
                        assert(before[a].id != before[b].id);
                    }
                }
            },
            None => {
                assert(session_index(before, sv.id, 0) is None);
                v.push(session);
                assert(sessions_view(v@) =~= before.push(sv));
                assert(ids_unique(sessions_view(v@))) by {
                    assert forall|a: int, b: int| 0 <= a < b < sessions_view(v@).len() implies #[trigger] sessions_view(
                        v@,
                    )[a].id != #[trigger] sessions_view(v@)[b].id by {
                        if b < before.len() {
                            assert(before[a].id != before[b].id);
                        } else {
                            assert(before[a].id != sv.id);
                        }
                    }
                }
            },
        }
        self.sessions = v;
    }

    /// Creates a session for `user_id` that expires `ttl_seconds` from now,
    /// under a fresh random id, and returns the id. The expiry is computed
    /// with wrapping arithmetic.
    pub fn create(&mut self, user_id: &str, data: serde_json::Value, ttl_seconds: u64) -> (r: String)
        ensures
            r@.len() == 64,
            exists|now: u64|
                #![trigger now.wrapping_add(ttl_seconds)]
                final(self).records() == session_stored(
                    old(self).records(),
                    SessionView { id: r@, user: user_id@, data: data, expires_at: now.wrapping_add(ttl_seconds) },
                ),
    {
        let session_id = generate_session_id();
        let now = current_timestamp();
        let expires_at = now.wrapping_add(ttl_seconds);
        let id2 = session_id.clone();
        assert(expires_at == now.wrapping_add(ttl_seconds));
        self.insert(Session { session_id, user_id: to_string(user_id), data, expires_at });
        id2
    }

    /// The session with id `session_id` if it has not expired at time `now`.
    pub fn get_at(&self, session_id: &str, now: u64) -> (r: Option<Session>)
        ensures
            match r {
                Some(s) => live_session(self.records(), session_id@, now) == Some(s@),
                None => live_session(self.records(), session_id@, now) is None,
            },
    {
        match self.position(session_id) {
            Some(i) => {
                if now > self.sessions[i].expires_at {
                    None
                } else {
                    Some(self.sessions[i].clone())
                }
            },
            None => None,
        }
    }

    /// The session with id `session_id` if it has not expired by the clock:
    /// what `get_at` gives at the time read from the clock.
    pub fn get(&self, session_id: &str) -> (r: Option<Session>)
        ensures
            exists|now: u64|
                #![trigger live_session(self.records(), session_id@, now)]
                match r {
                    Some(s) => live_session(self.records(), session_id@, now) == Some(s@),
                    None => live_session(self.records(), session_id@, now) is None,
                },
            session_index(self.records(), session_id@, 0) is None ==> r is None,
            r matches Some(s) ==> s@ == self.records()[session_index(self.records(), session_id@, 0)->0],
    {
        self.get_at(session_id, current_timestamp())
    }

    /// Removes the session with id `session_id` (logout).
    pub fn delete(&mut self, session_id: &str)
        ensures
            final(self).records() == session_dropped(old(self).records(), session_id@),
            session_index(final(self).records(), session_id@, 0) is None,
    {
        proof {
            use_type_invariant(&*self);
            lemma_session_index(self.records(), session_id@, 0);
        }
        match self.position(session_id) {
            Some(i) => {
                let mut v: Vec<Session> = Vec::new();
                std::mem::swap(&mut v, &mut self.sessions);
                let ghost before = sessions_view(v@);
                let _ = v.remove(i);
                assert(sessions_view(v@) =~= before.remove(i as int));
                proof {
                    assert forall|a: int, b: int| 0 <= a < b < sessions_view(v@).len() implies #[trigger] sessions_view(
                        v@,
                    )[a].id != #[trigger] sessions_view(v@)[b].id by {
                        let a2 = if a < i { a } else { a + 1 };
                        let b2 = if b < i { b } else { b + 1 };
                        assert(before[a2].id != before[b2].id);
                    }
                    lemma_session_index(sessions_view(v@), session_id@, 0);
                    assert forall|l: int| 0 <= l < sessions_view(v@).len() implies sessions_view(v@)[l].id
                        != session_id@ by {
                        let l2 = if l < i { l } else { l + 1 };
                        if l2 < i {
                            assert(before[l2].id != before[i as int].id);
                        } else {
                            assert(before[i as int].id != before[l2].id);
                        }
                    }
                }
                self.sessions = v;
            },
            None => {},
        }
    }

    /// Drops the sessions that have expired at time `now`.
    #[verifier::spinoff_prover]
    pub fn cleanup_at(&mut self, now: u64)
        ensures
            final(self).records() == unexpired(old(self).records(), now),
    {
        proof {
            use_type_invariant(&*self);
        }
        let mut v: Vec<Session> = Vec::new();
        std::mem::swap(&mut v, &mut self.sessions);
        let ghost before = sessions_view(v@);
        let mut kept: Vec<Session> = Vec::new();
        let mut i: usize = 0;
        while i < v.len()
            invariant
                i <= v@.len(),
                before == sessions_view(v@),
                ids_unique(before),
                sessions_view(kept@) == unexpired(before.subrange(0, i as int), now),
                ids_unique(sessions_view(kept@)),
                forall|j: int|
                    0 <= j < kept@.len() ==> #[trigger] id_among(before, i as int, kept@[j].session_id@),
            decreases v.len() - i,
        {
            let ghost pre = before.subrange(0, i + 1);
            assert(pre.drop_last() =~= before.subrange(0, i as int));
            if v[i].expires_at > now {
                let s = v[i].clone();
                let ghost old_kept = sessions_view(kept@);
                kept.push(s);
                assert(sessions_view(kept@) =~= old_kept.push(before[i as int]));
                assert forall|a: int, b: int| 0 <= a < b < sessions_view(kept@).len() implies #[trigger] sessions_view(
                    kept@,
                )[a].id != #[trigger] sessions_view(kept@)[b].id by {
                    if b == old_kept.len() {
                        assert(sessions_view(kept@)[a].id == kept@[a].session_id@);
                        assert(id_among(before, i as int, kept@[a].session_id@));
                        let k = choose|k: int| 0 <= k < i && #[trigger] before[k].id == kept@[a].session_id@;
                        assert(before[k].id != before[i as int].id);
                    } else {
                        assert(old_kept[a].id != old_kept[b].id);
                    }
                }
                assert forall|j: int| 0 <= j < kept@.len() implies #[trigger] id_among(
                    before,
                    i + 1,
                    kept@[j].session_id@,
                ) by {
                    if j == kept@.len() - 1 {
                        assert(before[i as int].id == kept@[j].session_id@);
                    } else {
                        assert(id_among(before, i as int, kept@[j].session_id@));
                        let k = choose|k: int| 0 <= k < i && #[trigger] before[k].id == kept@[j].session_id@;
                        assert(before[k].id == kept@[j].session_id@);
                    }
                }
            } else {
                assert forall|j: int| 0 <= j < kept@.len() implies #[trigger] id_among(
                    before,
                    i + 1,
                    kept@[j].session_id@,
                ) by {
                    assert(id_among(before, i as int, kept@[j].session_id@));
                    let k = choose|k: int| 0 <= k < i && #[trigger] before[k].id == kept@[j].session_id@;
                    assert(before[k].id == kept@[j].session_id@);
                }
            }
            i = i + 1;
        }
        assert(before.subrange(0, before.len() as int) =~= before);
        self.sessions = kept;
    }

    /// Drops the sessions that have expired by the clock.
    pub fn cleanup(&mut self)
        ensures
            exists|now: u64| final(self).records() == #[trigger] unexpired(old(self).records(), now),
    {
        let now = current_timestamp();
        self.cleanup_at(now);
    }
}

/// Some session of `v` before position `i` has id `id`.
pub open spec fn id_among(v: Seq<SessionView>, i: int, id: Seq<char>) -> bool {
    exists|k: int| 0 <= k < i && #[trigger] v[k].id == id
}

/// The sessions of `v` that have not expired at time `now`, in order.
pub open spec fn unexpired(v: Seq<SessionView>, now: u64) -> Seq<SessionView>
    decreases v.len(),
{
    if v.len() == 0 {
        seq![]
    } else if v.last().expires_at > now {
        unexpired(v.drop_last(), now).push(v.last())
    } else {
        unexpired(v.drop_last(), now)
    }
}

impl Default for SessionStore {
    fn default() -> (r: SessionStore)
        ensures
            r.records().len() == 0,
    {
        SessionStore::new()
    }
}

// ─── Password reset ──────────────────────────────────────────────────────────

/// An issued reset token.
#[derive(Debug, Clone)]
struct ResetToken {
    token: String,
    user_id: String,
    expires_at: u64,
}

/// What a reset token records: (token, user id, expiry).
spec fn reset_view(t: ResetToken) -> (Seq<char>, Seq<char>, u64) {
    (t.token@, t.user_id@, t.expires_at)
}

/// The views of issued reset tokens.
spec fn resets_view(v: Seq<ResetToken>) -> Seq<(Seq<char>, Seq<char>, u64)> {
    v.map_values(|t: ResetToken| reset_view(t))
}

/// The position of `token` among the issued tokens, from `i` on.
pub open spec fn token_index(v: Seq<(Seq<char>, Seq<char>, u64)>, token: Seq<char>, i: int) -> Option<int>
    decreases v.len() - i,
{
    if i < 0 || i >= v.len() {
        None
    } else if v[i].0 == token {
        Some(i)
    } else {
        token_index(v, token, i + 1)
    }
}

/// The user a token resets at time `now`: issued and not past its expiry.
pub open spec fn reset_user(v: Seq<(Seq<char>, Seq<char>, u64)>, token: Seq<char>, now: u64) -> Option<Seq<char>> {
    match token_index(v, token, 0) {
        Some(i) => if now > v[i].2 {
            None
        } else {
            Some(v[i].1)
        },
        None => None,
    }
}

proof fn lemma_token_index(v: Seq<(Seq<char>, Seq<char>, u64)>, token: Seq<char>, i: int)
    requires
        0 <= i,
    ensures
        token_index(v, token, i) matches Some(j) ==> i <= j < v.len() && v[j].0 == token && forall|
            l: int,
        |
            i <= l < j ==> v[l].0 != token,
        token_index(v, token, i) is None ==> forall|l: int| i <= l < v.len() ==> v[l].0 != token,
    decreases v.len() - i,
{
    if i < v.len() && v[i].0 != token {
        lemma_token_index(v, token, i + 1);
    }
}

/// The issued tokens after recording `t`: it replaces the entry for its
/// token, or comes last.
pub open spec fn reset_recorded(
    v: Seq<(Seq<char>, Seq<char>, u64)>,
    t: (Seq<char>, Seq<char>, u64),
) -> Seq<(Seq<char>, Seq<char>, u64)> {
    match token_index(v, t.0, 0) {
        Some(i) => v.update(i, t),
        None => v.push(t),
    }
}

/// The issued tokens after withdrawing `token`, if it was issued.
pub open spec fn reset_withdrawn(v: Seq<(Seq<char>, Seq<char>, u64)>, token: Seq<char>) -> Seq<
    (Seq<char>, Seq<char>, u64),
> {
    match token_index(v, token, 0) {
        Some(i) => v.remove(i),
        None => v,
    }
}

/// A token just issued for `user` resets that user until it expires.
pub proof fn law_reset_issued_then_verified(
    v: Seq<(Seq<char>, Seq<char>, u64)>,
    token: Seq<char>,
    user: Seq<char>,
    expires_at: u64,
    now: u64,
)
    requires
        now <= expires_at,
    ensures
        reset_user(reset_recorded(v, (token, user, expires_at)), token, now) == Some(user),
{
    let t = (token, user, expires_at);
    let u = reset_recorded(v, t);
    lemma_token_index(v, token, 0);
    lemma_token_index(u, token, 0);
    assert(forall|l: int| 0 <= l < v.len() && v[l].0 != token ==> #[trigger] u[l] == v[l]);
    match token_index(v, token, 0) {
        Some(i) => {
            assert(u[i] == t);
        },
        None => {
            assert(u[v.len() as int] == t);
        },
    }
}

/// A reset token is good once: after it is withdrawn, it resets nobody, at
/// any time.
pub proof fn law_reset_withdrawn_not_verified(v: Seq<(Seq<char>, Seq<char>, u64)>, token: Seq<char>, now: u64)
    requires
        tokens_unique(v),
    ensures
        reset_user(reset_withdrawn(v, token), token, now) is None,
{
    let u = reset_withdrawn(v, token);
    lemma_token_index(v, token, 0);
    lemma_token_index(u, token, 0);
    match token_index(v, token, 0) {
        Some(i) => {
            assert forall|l: int| 0 <= l < u.len() implies #[trigger] u[l].0 != token by {
                let l2 = if l < i { l } else { l + 1 };
                if l2 < i {
                    assert(v[l2].0 != v[i].0);
                } else {
                    assert(v[i].0 != v[l2].0);
                }
            }
        },
        None => {},
    }
}

/// No two issued tokens are equal.
pub open spec fn tokens_unique(v: Seq<(Seq<char>, Seq<char>, u64)>) -> bool {
    forall|a: int, b: int| 0 <= a < b < v.len() ==> #[trigger] v[a].0 != #[trigger] v[b].0
}

/// Time-limited, one-time password-reset tokens.
pub struct PasswordReset {
    secret: String,
    tokens: Vec<ResetToken>,
}

impl PasswordReset {
    #[verifier::type_invariant]
    spec fn inv(self) -> bool {
        tokens_unique(resets_view(self.tokens@))
    }

    /// The tokens issued and not consumed, in order: (token, user, expiry).
    pub closed spec fn issued(&self) -> Seq<(Seq<char>, Seq<char>, u64)> {
        resets_view(self.tokens@)
    }

    /// The secret the manager was made with.
    pub closed spec fn secret_text(&self) -> Seq<char> {
        self.secret@
    }

    /// A manager with no tokens issued.
    pub fn new(secret: &str) -> (r: PasswordReset)
        ensures
            r.issued().len() == 0,
            r.secret_text() == secret@,
    {
        PasswordReset { secret: to_string(secret), tokens: Vec::new() }
    }

    fn position(&self, token: &str) -> (r: Option<usize>)
        ensures
            crate::strmap::opt_index(r) == token_index(self.issued(), token@, 0),
            r matches Some(i) ==> i < self.issued().len(),
    {
        let mut i: usize = 0;
        while i < self.tokens.len()
            invariant
                i <= self.tokens@.len(),
                token_index(self.issued(), token@, 0) == token_index(self.issued(), token@, i as int),
            decreases self.tokens.len() - i,
        {
            if str_eq(self.tokens[i].token.as_str(), token) {
                return Some(i);
            }
            i = i + 1;
        }
        None
    }

    fn record(&mut self, t: ResetToken)
        ensures
            final(self).issued() == reset_recorded(old(self).issued(), reset_view(t)),
            final(self).secret_text() == old(self).secret_text(),
    {
        proof {
            use_type_invariant(&*self);
            lemma_token_index(self.issued(), t.token@, 0);
        }
        let ghost tv = reset_view(t);
        let pos = self.position(t.token.as_str());
        let mut v: Vec<ResetToken> = Vec::new();
        std::mem::swap(&mut v, &mut self.tokens);
        let ghost before = resets_view(v@);
        match pos {
            Some(i) => {
                v.set(i, t);
                assert(resets_view(v@) =~= before.update(i as int, tv));
                assert forall|a: int, b: int| 0 <= a < b < resets_view(v@).len() implies #[trigger] resets_view(
                    v@,
                )[a].0 != #[trigger] resets_view(v@)[b].0 by {
                    assert(before[a].0 != before[b].0);
                }
            },
            None => {
                v.push(t);
                assert(resets_view(v@) =~= before.push(tv));
                assert forall|a: int, b: int| 0 <= a < b < resets_view(v@).len() implies #[trigger] resets_view(
                    v@,
                )[a].0 != #[trigger] resets_view(v@)[b].0 by {
                    if b < before.len() {
                        assert(before[a].0 != before[b].0);
                    } else {
                        assert(before[a].0 != tv.0);
                    }
                }
            },
        }
        self.tokens = v;
    }

    /// Issues a token for `user_id`, valid for `ttl_seconds` from now (the
    /// expiry computed with wrapping arithmetic), and returns it.
    pub fn generate(&mut self, user_id: &str, ttl_seconds: u64) -> (r: String)
        ensures
            r@.len() == 64,
            exists|now: u64|
                #![trigger now.wrapping_add(ttl_seconds)]
                final(self).issued() == reset_recorded(
                    old(self).issued(),
                    (r@, user_id@, now.wrapping_add(ttl_seconds)),
                ),
            final(self).secret_text() == old(self).secret_text(),
    {
        let token = generate_session_id();
        let now = current_timestamp();
        let expires_at = now.wrapping_add(ttl_seconds);
        let out = token.clone();
        assert(expires_at == now.wrapping_add(ttl_seconds));
        self.record(ResetToken { token, user_id: to_string(user_id), expires_at });
        out
    }

    /// The user `token` resets, if it was issued and has not expired at time
    /// `now`.
    pub fn verify_at(&self, token: &str, now: u64) -> (r: Option<String>)
        ensures
            crate::multipart::opt_text(r) == reset_user(self.issued(), token@, now),
    {
        match self.position(token) {
            Some(i) => {
                if now > self.tokens[i].expires_at {
                    None
                } else {
                    Some(self.tokens[i].user_id.clone())
                }
            },
            None => None,
        }
    }

    /// The user `token` resets, if it was issued and has not expired by the
    /// clock: what `verify_at` gives at the time read from the clock.
    pub fn verify(&self, token: &str) -> (r: Option<String>)
        ensures
            exists|now: u64|
                #![trigger reset_user(self.issued(), token@, now)]
                crate::multipart::opt_text(r) == reset_user(self.issued(), token@, now),
            token_index(self.issued(), token@, 0) is None ==> r is None,
            r matches Some(u) ==> u@ == self.issued()[token_index(self.issued(), token@, 0)->0].1,
    {
        self.verify_at(token, current_timestamp())
    }

    /// Uses `token` at time `now`: when it is valid, it is withdrawn and its
    /// user returned; otherwise nothing changes.
    pub fn consume_at(&mut self, token: &str, now: u64) -> (r: Option<String>)
        ensures
            crate::multipart::opt_text(r) == reset_user(old(self).issued(), token@, now),
            r is Some ==> final(self).issued() == reset_withdrawn(old(self).issued(), token@)
                && token_index(final(self).issued(), token@, 0) is None,
            r is None ==> final(self).issued() == old(self).issued(),
            final(self).secret_text() == old(self).secret_text(),
    {
        proof {
            use_type_invariant(&*self);
            lemma_token_index(self.issued(), token@, 0);
        }
        let user = match self.verify_at(token, now) {
            Some(u) => u,
            None => {
                return None;
            },
        };
        let i = match self.position(token) {
            Some(i) => i,
            None => {
                return None;
            },
        };
        let mut v: Vec<ResetToken> = Vec::new();
        std::mem::swap(&mut v, &mut self.tokens);
        let ghost before = resets_view(v@);
        let _ = v.remove(i);
        assert(resets_view(v@) =~= before.remove(i as int));
        proof {
            assert forall|a: int, b: int| 0 <= a < b < resets_view(v@).len() implies #[trigger] resets_view(
                v@,
            )[a].0 != #[trigger] resets_view(v@)[b].0 by {
                let a2 = if a < i { a } else { a + 1 };
                let b2 = if b < i { b } else { b + 1 };
                assert(before[a2].0 != before[b2].0);
            }
            lemma_token_index(resets_view(v@), token@, 0);
            assert forall|l: int| 0 <= l < resets_view(v@).len() implies resets_view(v@)[l].0 != token@ by {
                let l2 = if l < i { l } else { l + 1 };
                if l2 < i {
                    assert(before[l2].0 != before[i as int].0);
                } else {
                    assert(before[i as int].0 != before[l2].0);
                }
            }
        }
        self.tokens = v;
        Some(user)
    }

    /// Uses `token` by the clock: when it is valid, it is withdrawn and its
    /// user returned; otherwise nothing changes. This is what `consume_at`
    /// does at the time read from the clock.
    pub fn consume(&mut self, token: &str) -> (r: Option<String>)
        ensures
            exists|now: u64|
                #![trigger reset_user(old(self).issued(), token@, now)]
                crate::multipart::opt_text(r) == reset_user(old(self).issued(), token@, now),
            r is Some ==> final(self).issued() == reset_withdrawn(old(self).issued(), token@),
            token_index(old(self).issued(), token@, 0) is None ==> r is None,
            r matches Some(u) ==> u@ == old(self).issued()[token_index(old(self).issued(), token@, 0)->0].1,
            r is Some ==> token_index(final(self).issued(), token@, 0) is None,
            r is None ==> final(self).issued() == old(self).issued(),
    {
        let now = current_timestamp();
        self.consume_at(token, now)
    }
}

} // verus!
