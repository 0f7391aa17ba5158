//! Issuance and verification of signed session tokens.
//!
//! A token is the compact form `header.payload.signature`: the base64url
//! encoding (unpadded) of a fixed JSON header and of the claims JSON,
//! joined by dots, followed by the HMAC-SHA256 signature of those two
//! parts.  Tokens are stateless: nothing is stored server-side.

use crate::util::{find_char, lemma_find_char};
use vstd::prelude::*;

verus! {

/// The decoded payload of a session token.
///
/// `sub` is the registered identity's numeric id (carried as a JSON string
/// on the wire), `exp` and `iat` are epoch seconds.
#[derive(Debug, Clone, PartialEq, Eq)]
pub struct Claims {
    pub sub: i32,
    pub username: String,
    pub exp: i64,
    pub iat: i64,
}

impl Claims {
    /// Claims the core can issue or accept: a non-negative subject id and
    /// non-negative epoch timestamps.
    pub open spec fn wf(&self) -> bool {
        self.sub >= 0 && self.exp >= 0 && self.iat >= 0
    }
}

/// Process-wide token configuration, read once at startup: the signing
/// secret (an empty secret still produces internally consistent, though
/// insecure, tokens) and the validity window in seconds.
#[derive(Debug, Clone)]
pub struct TokenConfig {
    pub secret: Vec<u8>,
    pub lifetime_s: i64,
}

impl TokenConfig {
    /// A usable configuration: a non-negative validity window.
    pub open spec fn wf(&self) -> bool {
        self.lifetime_s >= 0
    }

    /// Build the configuration, defaulting the validity window to 300
    /// seconds when none is given.
    pub fn new(secret: Vec<u8>, lifetime_s: Option<i64>) -> (cfg: TokenConfig)
        requires
            lifetime_s matches Some(l) ==> l >= 0,
        ensures
            cfg.wf(),
            cfg.secret@ == secret@,
            cfg.lifetime_s == match lifetime_s {
                Some(l) => l,
                None => 300i64,
            },
    {
        let lifetime = match lifetime_s {
            Some(l) => l,
            None => 300,
        };
        TokenConfig { secret, lifetime_s: lifetime }
    }
}


/// What the URL-safe unpadded base64 engine encodes a byte string to.
pub uninterp spec fn b64url_of(bytes: Seq<u8>) -> Seq<char>;

/// What the URL-safe unpadded base64 engine decodes a text to, if anything.
pub uninterp spec fn b64url_decoded(text: Seq<char>) -> Option<Seq<u8>>;

/// The base64url-encoded HMAC-SHA256 signature of a message under a secret.
pub uninterp spec fn hs256_sig_of(message: Seq<u8>, secret: Seq<u8>) -> Seq<char>;

/// Relies on base64's URL_SAFE_NO_PAD engine: encoding is a pure function of
/// the bytes, and the output alphabet (letters, digits, '-' and '_') never
/// contains a dot.
#[verifier::external_body]
fn b64url_encode(bytes: &[u8]) -> (r: String)
    ensures
        r@ == b64url_of(bytes@),
        forall|i: int| 0 <= i < r@.len() ==> r@[i] != '.',
{
    base64::Engine::encode(&base64::engine::general_purpose::URL_SAFE_NO_PAD, bytes)
}

/// Relies on base64's URL_SAFE_NO_PAD engine: decoding is a pure function of
/// the text and inverts the engine's own encoding.
#[verifier::external_body]
fn b64url_decode(text: &str) -> (r: Result<Vec<u8>, ()>)
    ensures
        match r {
            Ok(v) => b64url_decoded(text@) == Some(v@) && (forall|b: Seq<u8>|
                text@ == b64url_of(b) ==> v@ == b),
            Err(_) => b64url_decoded(text@) is None && (forall|b: Seq<u8>| text@ != b64url_of(b)),
        },
{
    match base64::Engine::decode(&base64::engine::general_purpose::URL_SAFE_NO_PAD, text) {
        Ok(v) => Ok(v),
        Err(_) => Err(()),
    }
}

/// Relies on jsonwebtoken's crypto::sign with HS256: for a key built by
/// EncodingKey::from_secret the algorithm family matches and HMAC accepts a
/// secret of any length, so signing cannot fail, and the base64url signature
/// text it returns is a pure function of message and secret.  The call goes
/// through jsonwebtoken's process-wide crypto provider; only the RustCrypto
/// provider feature is enabled and nothing in this program installs another,
/// so that function is fixed here.
#[verifier::external_body]
fn hs256_sign(message: &[u8], secret: &[u8]) -> (r: Result<String, ()>)
    ensures
        r matches Ok(sig) ==> sig@ == hs256_sig_of(message@, secret@),
        r is Ok,
{
    match jsonwebtoken::crypto::sign(
        message,
        &jsonwebtoken::EncodingKey::from_secret(secret),
        jsonwebtoken::Algorithm::HS256,
    ) {
        Ok(sig) => Ok(sig),
        Err(_) => Err(()),
    }
}

/// Relies on std::time::SystemTime::now: the wall clock, of which nothing
/// is promised.  A clock set before the Unix epoch reads as zero rather
/// than failing, and one beyond the representable range saturates.
#[verifier::external_body]
pub(crate) fn current_timestamp() -> i64 {
    match std::time::SystemTime::now().duration_since(std::time::UNIX_EPOCH) {
        Ok(elapsed) => i64::try_from(elapsed.as_secs()).unwrap_or(i64::MAX),
        Err(_) => 0,
    }
}

/// The fixed JSON header of every issued token.
pub open spec fn header_json() -> Seq<u8> {
    vstd::utf8::encode_utf8("{\"typ\":\"JWT\",\"alg\":\"HS256\"}"@)
}

/// The three texts an issued token is assembled from: encoded header,
/// encoded claims, and the signature over the first two joined by a dot.
pub open spec fn issued_parts(m: crate::services::claims::ClaimsModel, secret: Seq<u8>) -> (
    Seq<char>,
    Seq<char>,
    Seq<char>,
) {
    let h = b64url_of(header_json());
    let p = b64url_of(crate::services::claims::spec_claims_json(m));
    (h, p, hs256_sig_of(vstd::utf8::encode_utf8(h + seq!['.'] + p), secret))
}

/// The token issued for a claims model under a secret.
pub open spec fn spec_token(m: crate::services::claims::ClaimsModel, secret: Seq<u8>) -> Seq<
    char,
> {
    let parts = issued_parts(m, secret);
    parts.0 + seq!['.'] + parts.1 + seq!['.'] + parts.2
}

/// Split a token at its first two dots: header text, payload text, and
/// everything after the second dot.
pub open spec fn token_parts(t: Seq<char>) -> Option<(Seq<char>, Seq<char>, Seq<char>)> {
    let d1 = find_char(t, '.');
    if d1 < 0 {
        None
    } else {
        let rest = t.skip(d1 + 1);
        let d2 = find_char(rest, '.');
        if d2 < 0 {
            None
        } else {
            Some((t.take(d1), rest.take(d2), rest.skip(d2 + 1)))
        }
    }
}

/// A text assembled from dot-free header and payload parts splits back into
/// exactly those parts, whatever the signature text contains.
pub proof fn lemma_token_parts_of(h: Seq<char>, p: Seq<char>, sig: Seq<char>)
    requires
        forall|i: int| 0 <= i < h.len() ==> h[i] != '.',
        forall|i: int| 0 <= i < p.len() ==> p[i] != '.',
    ensures
        token_parts(h + seq!['.'] + p + seq!['.'] + sig) == Some((h, p, sig)),
{
    let t = h + seq!['.'] + p + seq!['.'] + sig;
    lemma_find_char(t, '.');
    let d1 = find_char(t, '.');
    assert(t[h.len() as int] == '.');
    assert(d1 >= 0);
    assert(d1 <= h.len()) by {
        if d1 > h.len() {
            assert(t[h.len() as int] != '.');
        }
    }
    assert(d1 >= h.len()) by {
        if d1 < h.len() {
            assert(t[d1] == h[d1]);
        }
    }
    let rest = t.skip(d1 + 1);
    assert(rest =~= p + seq!['.'] + sig);
    lemma_find_char(rest, '.');
    let d2 = find_char(rest, '.');
    assert(rest[p.len() as int] == '.');
    assert(d2 >= 0);
    assert(d2 <= p.len()) by {
        if d2 > p.len() {
            assert(rest[p.len() as int] != '.');
        }
    }
    assert(d2 >= p.len()) by {
        if d2 < p.len() {
            assert(rest[d2] == p[d2]);
        }
    }
    assert(t.take(d1) =~= h);
    assert(rest.take(d2) =~= p);
    assert(rest.skip(d2 + 1) =~= sig);
}

/// What verification concludes about a token text: the claims model carried
/// by a well-formed, correctly signed, unexpired token, or the specific
/// failure kind.  The signature is checked before the payload is decoded.
pub open spec fn spec_verify_token(t: Seq<char>, secret: Seq<u8>, now: i64) -> Result<
    crate::services::claims::ClaimsModel,
    crate::error::TokenError,
> {
    match token_parts(t) {
        None => Err(crate::error::TokenError::Malformed),
        Some((h, p, sig)) => {
            if sig != hs256_sig_of(vstd::utf8::encode_utf8(h + seq!['.'] + p), secret) {
                Err(crate::error::TokenError::SignatureInvalid)
            } else {
                match b64url_decoded(p) {
                    None => Err(crate::error::TokenError::Malformed),
                    Some(bytes) => match crate::services::claims::spec_parse_claims(bytes) {
                        None => Err(crate::error::TokenError::Malformed),
                        Some(m) => if now >= m.exp {
                            Err(crate::error::TokenError::Expired)
                        } else {
                            Ok(m)
                        },
                    },
                }
            }
        },
    }
}


/// Issue a signed session token for an identity: claims with the identity's
/// id as subject, its username, issue time `now` and expiry `now` plus the
/// configured lifetime, serialised, encoded and signed.  Never fatal: were
/// signing to fail, an empty signature would be emitted rather than an error.
///
/// Beyond the exact token text, the contract records how the token splits
/// into header, payload and signature parts; `verify`'s round-trip clause is
/// stated over that decomposition.
pub fn generate(user: &crate::models::authenticable_users::AuthenticableUser, cfg: &TokenConfig, now: i64) -> (token:
    String)
    requires
        cfg.wf(),
        user.id >= 0,
        0 <= now,
        now + cfg.lifetime_s <= i64::MAX,
    ensures
        ({
            let m = crate::services::claims::ClaimsModel {
                sub: user.id as int,
                username: user.username@,
                exp: now + cfg.lifetime_s,
                iat: now as int,
            };
            &&& token@ == spec_token(m, cfg.secret@)
            &&& token_parts(token@) == Some(issued_parts(m, cfg.secret@))
            &&& crate::services::claims::model_ok(m)
        }),
{
    let exp = now + cfg.lifetime_s;
    let claims = Claims { sub: user.id, username: user.username.clone(), exp, iat: now };
    let ghost m = claims@;
    let payload = crate::services::claims::serialize_claims(&claims);
    let header_bytes = "{\"typ\":\"JWT\",\"alg\":\"HS256\"}".as_bytes_vec();
    let encoded_header = b64url_encode(header_bytes.as_slice());
    let encoded_payload = b64url_encode(payload.as_slice());
    let ghost h = encoded_header@;
    let ghost p = encoded_payload@;
    let mut signing_input = encoded_header;
    signing_input.append(".");
    signing_input.append(encoded_payload.as_str());
    proof {
        reveal_strlit(".");
        assert("."@ =~= seq!['.']);
        assert(signing_input@ == h + seq!['.'] + p);
    }
    let message = signing_input.as_str().as_bytes_vec();
    let signature = match hs256_sign(message.as_slice(), cfg.secret.as_slice()) {
        Ok(sig) => sig,
        // HMAC signing cannot fail; issuing stays total rather than
        // propagating an error.
        Err(_) => String::new(),
    };
    let mut token = signing_input;
    token.append(".");
    token.append(signature.as_str());
    proof {
        assert(token@ == h + seq!['.'] + p + seq!['.'] + signature@);
        assert(token@ =~= spec_token(m, cfg.secret@));
        lemma_token_parts_of(h, p, signature@);
        assert(token_parts(token@) == Some(issued_parts(m, cfg.secret@)));
    }
    token
}

/// Verify a session token: check its shape, its signature under the
/// configured secret, and its expiry against `now`, and return the carried
/// claims or the specific failure kind.
///
/// The quantified clause states the token round trip: together with
/// `generate`, which ensures the token it issues splits into exactly the
/// parts quantified over here, verifying an issued token returns claims
/// whose subject is the issuing identity's id while `now` is before the
/// expiry, and fails with precisely the expired kind from the expiry on.
pub fn verify(token: String, cfg: &TokenConfig, now: i64) -> (r: Result<
    Claims,
    crate::error::TokenError,
>)
    ensures
        match spec_verify_token(token@, cfg.secret@, now) {
            Ok(m) => r matches Ok(claims) && claims@ == m && claims.wf(),
            Err(e) => r matches Err(got) && got == e,
        },
        forall|m: crate::services::claims::ClaimsModel|
            crate::services::claims::model_ok(m) && token_parts(token@) == Some(
                issued_parts(m, cfg.secret@),
            ) ==> if now < m.exp {
                spec_verify_token(token@, cfg.secret@, now) == Ok::<_, crate::error::TokenError>(m)
            } else {
                spec_verify_token(token@, cfg.secret@, now) == Err::<
                    crate::services::claims::ClaimsModel,
                    _,
                >(crate::error::TokenError::Expired)
            },
{
    let t = token.as_str();
    let n = t.unicode_len();
    let d1 = match crate::util::find_char_in(t, 0, '.') {
        Some(i) => i,
        None => {
            proof {
                lemma_find_char(token@, '.');
                assert(find_char(token@, '.') == -1) by {
                    if find_char(token@, '.') >= 0 {
                        assert(token@[find_char(token@, '.')] == '.');
                    }
                }
            }
            return Err(crate::error::TokenError::Malformed);
        },
    };
    let d2 = match crate::util::find_char_in(t, d1 + 1, '.') {
        Some(i) => i,
        None => {
            proof {
                lemma_find_char(token@, '.');
                assert(find_char(token@, '.') == d1) by {
                    crate::util::lemma_find_char_is(token@, '.', d1 as int);
                }
                let rest = token@.skip(d1 + 1);
                lemma_find_char(rest, '.');
                assert(find_char(rest, '.') == -1) by {
                    if find_char(rest, '.') >= 0 {
                        let f = find_char(rest, '.');
                        assert(rest[f] == '.');
                        assert(rest[f] == token@[d1 + 1 + f]);
                    }
                }
            }
            return Err(crate::error::TokenError::Malformed);
        },
    };
    proof {
        crate::util::lemma_find_char_is(token@, '.', d1 as int);
        let rest = token@.skip(d1 + 1);
        assert forall|j: int| 0 <= j < d2 - d1 - 1 implies rest[j] != '.' by {
            assert(rest[j] == token@[d1 + 1 + j]);
        }
        assert(rest[d2 - d1 - 1] == token@[d2 as int]);
        crate::util::lemma_find_char_is(rest, '.', d2 - d1 - 1);
        assert(token_parts(token@) == Some(
            (token@.take(d1 as int), rest.take(d2 - d1 - 1), rest.skip(d2 - d1)),
        ));
    }
    let header_text = t.substring_char(0, d1);
    let payload_text = t.substring_char(d1 + 1, d2);
    let sig_text = t.substring_char(d2 + 1, n);
    let ghost hseq = token@.take(d1 as int);
    let ghost pseq = token@.skip(d1 + 1).take(d2 - d1 - 1);
    let ghost sigseq = token@.skip(d1 + 1).skip(d2 - d1);
    proof {
        assert(header_text@ =~= hseq);
        assert(payload_text@ =~= pseq);
        assert(sig_text@ =~= sigseq);
    }
    let mut signing_input = String::from_str(header_text);
    signing_input.append(".");
    signing_input.append(payload_text);
    proof {
        reveal_strlit(".");
        assert("."@ =~= seq!['.']);
        assert(signing_input@ == hseq + seq!['.'] + pseq);
    }
    let message = signing_input.as_str().as_bytes_vec();
    let expected = match hs256_sign(message.as_slice(), cfg.secret.as_slice()) {
        Ok(sig) => sig,
        Err(_) => String::new(),
    };
    let presented = String::from_str(sig_text);
    if !(presented == expected) {
        proof {
            assert(sigseq != hs256_sig_of(
                vstd::utf8::encode_utf8(hseq + seq!['.'] + pseq),
                cfg.secret@,
            ));
        }
        return Err(crate::error::TokenError::SignatureInvalid);
    }
    let payload_bytes = match b64url_decode(payload_text) {
        Ok(bytes) => bytes,
        Err(_) => {
            proof {
                assert(b64url_decoded(pseq) is None);
                assert forall|m: crate::services::claims::ClaimsModel|
                    crate::services::claims::model_ok(m) && token_parts(token@) == Some(
                        issued_parts(m, cfg.secret@),
                    ) implies false by {
                    assert(pseq == b64url_of(crate::services::claims::spec_claims_json(m)));
                }
            }
            return Err(crate::error::TokenError::Malformed);
        },
    };
    let claims = match crate::services::claims::parse_claims(&payload_bytes) {
        Ok(claims) => claims,
        Err(_) => {
            proof {
                assert forall|m: crate::services::claims::ClaimsModel|
                    crate::services::claims::model_ok(m) && token_parts(token@) == Some(
                        issued_parts(m, cfg.secret@),
                    ) implies false by {
                    assert(pseq == b64url_of(crate::services::claims::spec_claims_json(m)));
                    assert(payload_bytes@ == crate::services::claims::spec_claims_json(m));
                    crate::services::claims::lemma_claims_round_trip(m);
                }
            }
            return Err(crate::error::TokenError::Malformed);
        },
    };
    let expired = now >= claims.exp;
    proof {
        assert forall|m: crate::services::claims::ClaimsModel|
            crate::services::claims::model_ok(m) && token_parts(token@) == Some(
                issued_parts(m, cfg.secret@),
            ) implies crate::services::claims::spec_parse_claims(payload_bytes@) == Some(m) by {
            assert(pseq == b64url_of(crate::services::claims::spec_claims_json(m)));
            assert(payload_bytes@ == crate::services::claims::spec_claims_json(m));
            crate::services::claims::lemma_claims_round_trip(m);
        }
    }
    if expired {
        return Err(crate::error::TokenError::Expired);
    }
    Ok(claims)
}

} // verus!
