//! The authentication guard: classify the `Authorization` header and resolve
//! it to a registered identity, or refuse the request.
//!
//! The header is split on whitespace into a scheme and a payload, decoded
//! once at the boundary into a closed set of credential kinds.  A `Bearer`
//! payload is a session token verified against the signing configuration; a
//! `Basic` payload is base64 of `username:password` split at the first colon
//! (the password may itself contain colons) and checked against the stored
//! identities without minting a token.  Every failure is an authentication
//! error whose body never reveals which part was wrong.

use crate::error::CustomError;
use crate::models::authenticable_users::{AuthenticableUser, AuthUserTable, IdentityEntry};
use crate::services::jwt::{spec_verify_token, TokenConfig};
use crate::services::password::bcrypt_check_of;
use crate::util::{bytes_to_string, find_char, find_char_in, lemma_find_char_is,
    lemma_find_char_none};
use vstd::prelude::*;
use vstd::utf8::{decode_utf8, valid_utf8};

verus! {

/// What the standard (padded) base64 alphabet decodes a text to, if
/// anything.
pub uninterp spec fn b64std_decoded(text: Seq<char>) -> Option<Seq<u8>>;

/// Relies on base64's STANDARD engine: decoding is a pure function of the
/// text.
#[verifier::external_body]
fn b64_standard_decode(text: &str) -> (r: Result<Vec<u8>, ()>)
    ensures
        r matches Ok(v) ==> b64std_decoded(text@) == Some(v@),
        r is Err ==> b64std_decoded(text@) is None,
{
    match base64::Engine::decode(&base64::engine::general_purpose::STANDARD, text) {
        Ok(v) => Ok(v),
        Err(_) => Err(()),
    }
}

/// A decoded credential presentation: the closed set of schemes the guard
/// recognises, each carrying its raw payload.
#[derive(Debug)]
pub enum Credential {
    Bearer(String),
    Basic(String),
    Unrecognized,
}

/// Abstract credential: scheme kind and payload characters.
pub enum CredentialModel {
    Bearer(Seq<char>),
    Basic(Seq<char>),
    Unrecognized,
}

impl View for Credential {
    type V = CredentialModel;

    open spec fn view(&self) -> CredentialModel {
        match self {
            Credential::Bearer(payload) => CredentialModel::Bearer(payload@),
            Credential::Basic(payload) => CredentialModel::Basic(payload@),
            Credential::Unrecognized => CredentialModel::Unrecognized,
        }
    }
}

/// Header whitespace: the ASCII whitespace characters.
pub open spec fn is_ws_char(c: char) -> bool {
    c == ' ' || c == '\t' || c == '\r' || c == '\n'
}

/// The text with its leading whitespace removed.
pub open spec fn skip_ws(s: Seq<char>) -> Seq<char>
    decreases s.len(),
{
    if s.len() > 0 && is_ws_char(s[0]) {
        skip_ws(s.drop_first())
    } else {
        s
    }
}

/// The maximal run of non-whitespace characters at the front of the text.
pub open spec fn token_of(s: Seq<char>) -> Seq<char>
    decreases s.len(),
{
    if s.len() > 0 && !is_ws_char(s[0]) {
        seq![s[0]] + token_of(s.drop_first())
    } else {
        Seq::empty()
    }
}

/// The header decoded: first whitespace-separated word is the scheme,
/// matched case-sensitively, the second is the payload (empty when absent).
pub open spec fn spec_classify(s: Seq<char>) -> CredentialModel {
    let scheme = token_of(skip_ws(s));
    let payload = token_of(skip_ws(skip_ws(s).skip(scheme.len() as int)));
    if scheme == "Bearer"@ {
        CredentialModel::Bearer(payload)
    } else if scheme == "Basic"@ {
        CredentialModel::Basic(payload)
    } else {
        CredentialModel::Unrecognized
    }
}

/// End of the leading whitespace run at or after `pos`.
fn ws_end(s: &str, pos: usize) -> (end: usize)
    requires
        pos <= s@.len(),
    ensures
        pos <= end <= s@.len(),
        s@.skip(end as int) == skip_ws(s@.skip(pos as int)),
    decreases s@.len() - pos,
{
    let n = s.unicode_len();
    if pos < n {
        let c = s.get_char(pos);
        if c == ' ' || c == '\t' || c == '\r' || c == '\n' {
            let end = ws_end(s, pos + 1);
            proof {
                assert(s@.skip(pos as int).drop_first() =~= s@.skip(pos as int + 1));
            }
            return end;
        }
    }
    pos
}

/// End of the non-whitespace run at or after `pos`.
fn token_end(s: &str, pos: usize) -> (end: usize)
    requires
        pos <= s@.len(),
    ensures
        pos <= end <= s@.len(),
        s@.subrange(pos as int, end as int) == token_of(s@.skip(pos as int)),
    decreases s@.len() - pos,
{
    let n = s.unicode_len();
    if pos < n {
        let c = s.get_char(pos);
        if !(c == ' ' || c == '\t' || c == '\r' || c == '\n') {
            let end = token_end(s, pos + 1);
            proof {
                assert(s@.skip(pos as int).drop_first() =~= s@.skip(pos as int + 1));
                assert(s@.subrange(pos as int, end as int) =~= seq![s@[pos as int]]
                    + s@.subrange(pos as int + 1, end as int));
            }
            return end;
        }
    }
    proof {
        assert(s@.subrange(pos as int, pos as int) =~= Seq::<char>::empty());
    }
    pos
}

/// Decode the header once into the closed set of credential kinds.
pub fn classify_header(header: &str) -> (credential: Credential)
    ensures
        credential@ == spec_classify(header@),
{
    let scheme_start = ws_end(header, 0);
    let scheme_end = token_end(header, scheme_start);
    let scheme = header.substring_char(scheme_start, scheme_end);
    let payload_start = ws_end(header, scheme_end);
    let payload_end = token_end(header, payload_start);
    let payload = header.substring_char(payload_start, payload_end);
    proof {
        assert(header@.skip(0) =~= header@);
        assert(scheme@ =~= token_of(skip_ws(header@)));
        assert(header@.skip(scheme_end as int) =~= skip_ws(header@).skip(
            token_of(skip_ws(header@)).len() as int,
        ));
        assert(payload@ =~= token_of(skip_ws(header@.skip(scheme_end as int))));
    }
    let scheme_string = String::from_str(scheme);
    if scheme_string == String::from_str("Bearer") {
        Credential::Bearer(String::from_str(payload))
    } else if scheme_string == String::from_str("Basic") {
        Credential::Basic(String::from_str(payload))
    } else {
        Credential::Unrecognized
    }
}

/// The username and password carried by a Basic payload: base64-decoded,
/// required to be UTF-8, split at the first colon (the whole text with an
/// empty password when no colon occurs).
pub open spec fn basic_payload(data: Seq<char>) -> Option<(Seq<char>, Seq<char>)> {
    match b64std_decoded(data) {
        None => None,
        Some(bytes) => {
            if !valid_utf8(bytes) {
                None
            } else {
                let text = decode_utf8(bytes);
                let colon = find_char(text, ':');
                if colon < 0 {
                    Some((text, Seq::empty()))
                } else {
                    Some((text.take(colon), text.skip(colon + 1)))
                }
            }
        },
    }
}

/// Some stored identity carries this username and accepts this password.
pub open spec fn credential_ok(
    rows: Seq<IdentityEntry>,
    username: Seq<char>,
    password: Seq<char>,
) -> bool {
    exists|i: int|
        0 <= i < rows.len() && #[trigger] rows[i].username == username && bcrypt_check_of(
            password,
            rows[i].password_hash,
        ) == Some(true)
}

/// Resolve a Bearer payload: verify the session token and map its claims to
/// an identity shell (subject and username; the password hash is never
/// reconstructable from a token).  Every token failure yields the one
/// generic message: the specific kind is never distinguishable from the
/// returned value, only from logs.
pub fn bearer_auth(data: &str, cfg: &TokenConfig, now: i64) -> (r: Result<
    AuthenticableUser,
    CustomError,
>)
    ensures
        match spec_verify_token(data@, cfg.secret@, now) {
            Ok(m) => r matches Ok(user) && user.id as int == m.sub && user.username@ == m.username
                && user.password@ == Seq::<char>::empty(),
            Err(_) => r matches Err(e) && e is AuthenticationError && e.spec_message()
                == "Something wrong with the signature"@,
        },
{
    match crate::services::jwt::verify(String::from_str(data), cfg, now) {
        Ok(claims) => Ok(AuthenticableUser::from_jwt(claims)),
        Err(_) => Err(
            CustomError::AuthenticationError(
                String::from_str("Something wrong with the signature"),
            ),
        ),
    }
}

/// Resolve a Basic payload: decode it, split out the credentials, and check
/// them against the stored identities.  No token is minted: this
/// authenticates the single request only.  A lookup miss and a failed
/// password check yield the same public message.
pub fn basic_auth(data: &str, table: &AuthUserTable) -> (r: Result<AuthenticableUser, CustomError>)
    requires
        table.wf(),
    ensures
        match basic_payload(data@) {
            None => r matches Err(e) && e is AuthenticationError && e.spec_message()
                == "Invalid authorization payload"@,
            Some(credentials) => {
                &&& (r is Ok) == credential_ok(table@, credentials.0, credentials.1)
                &&& r matches Ok(user) ==> user.username@ == credentials.0 && exists|i: int|
                    0 <= i < table@.len() && #[trigger] table@[i] == user@
                &&& r matches Err(e) ==> e is AuthenticationError && e.spec_message()
                    == "Invalid username or password"@
            },
        },
{
    let bytes = match b64_standard_decode(data) {
        Ok(bytes) => bytes,
        Err(_) => {
            return Err(
                CustomError::AuthenticationError(
                    String::from_str("Invalid authorization payload"),
                ),
            );
        },
    };
    let text = match bytes_to_string(bytes) {
        Ok(text) => text,
        Err(_) => {
            return Err(
                CustomError::AuthenticationError(
                    String::from_str("Invalid authorization payload"),
                ),
            );
        },
    };
    let text_str = text.as_str();
    let n = text_str.unicode_len();
    let (username, password) = match find_char_in(text_str, 0, ':') {
        Some(colon) => {
            proof {
                lemma_find_char_is(text@, ':', colon as int);
            }
            (text_str.substring_char(0, colon), text_str.substring_char(colon + 1, n))
        },
        None => {
            proof {
                lemma_find_char_none(text@, ':');
            }
            (text_str.substring_char(0, n), "")
        },
    };
    proof {
        reveal_strlit("");
        assert(text@.subrange(0, text@.len() as int) =~= text@);
        let colon = find_char(text@, ':');
        if colon < 0 {
            assert(username@ =~= text@);
            assert(password@ =~= Seq::<char>::empty());
        } else {
            assert(username@ =~= text@.take(colon));
            assert(password@ =~= text@.skip(colon + 1));
        }
        assert(basic_payload(data@) matches Some(credentials) && credentials.0 == username@
            && credentials.1 == password@);
    }
    let found = match AuthenticableUser::find_by_username(table, username) {
        Ok(found) => found,
        Err(_) => {
            proof {
                if credential_ok(table@, username@, password@) {
                    let i = choose|i: int|
                        0 <= i < table@.len() && #[trigger] table@[i].username == username@
                            && bcrypt_check_of(password@, table@[i].password_hash) == Some(true);
                    assert(crate::models::authenticable_users::contains_username(
                        table@,
                        username@,
                    ));
                }
            }
            return Err(
                CustomError::AuthenticationError(
                    String::from_str("Invalid username or password"),
                ),
            );
        },
    };
    let ghost w = choose|i: int|
        {
            &&& 0 <= i < table@.len()
            &&& #[trigger] table@[i] == found@
            &&& table@[i].username == username@
            &&& forall|j: int| 0 <= j < i ==> table@[j].username != username@
        };
    proof {
        assert forall|i: int|
            0 <= i < table@.len() && #[trigger] table@[i].username == username@ implies i == w by {
            if i != w {
                if i < w {
                    assert(table@[i].username != table@[w].username);
                } else {
                    assert(table@[w].username != table@[i].username);
                }
            }
        }
    }
    let accepted = match crate::services::password::verify_password(
        password,
        found.password.as_str(),
    ) {
        Ok(matched) => matched,
        Err(_) => false,
    };
    if accepted {
        proof {
            assert(table@[w].username == username@);
            assert(bcrypt_check_of(password@, table@[w].password_hash) == Some(true));
            assert(credential_ok(table@, username@, password@));
        }
        Ok(found)
    } else {
        proof {
            if credential_ok(table@, username@, password@) {
                let i = choose|i: int|
                    0 <= i < table@.len() && #[trigger] table@[i].username == username@
                        && bcrypt_check_of(password@, table@[i].password_hash) == Some(true);
                assert(i == w);
            }
        }
        Err(CustomError::AuthenticationError(String::from_str("Invalid username or password")))
    }
}

/// The guard itself: read the `Authorization` header, classify it, and
/// resolve the credential, terminating the request with an authentication
/// error when the header is missing, the scheme unrecognised, or the
/// credential bad.
pub fn is_logged(
    header: Option<&str>,
    table: &AuthUserTable,
    cfg: &TokenConfig,
    now: i64,
) -> (r: Result<AuthenticableUser, CustomError>)
    requires
        table.wf(),
    ensures
        header is None ==> (r matches Err(e) && e is AuthenticationError && e.spec_message()
            == "Couldn't retrieve header"@),
        header matches Some(h) ==> match spec_classify(h@) {
            CredentialModel::Bearer(token) => match spec_verify_token(token, cfg.secret@, now) {
                Ok(m) => r matches Ok(user) && user.id as int == m.sub && user.username@
                    == m.username && user.password@ == Seq::<char>::empty(),
                Err(_) => r matches Err(e) && e is AuthenticationError && e.spec_message()
                    == "Something wrong with the signature"@,
            },
            CredentialModel::Basic(data) => match basic_payload(data) {
                None => r matches Err(e) && e is AuthenticationError && e.spec_message()
                    == "Invalid authorization payload"@,
                Some(credentials) => {
                    &&& (r is Ok) == credential_ok(table@, credentials.0, credentials.1)
                    &&& r matches Ok(user) ==> user.username@ == credentials.0 && exists|i: int|
                        0 <= i < table@.len() && #[trigger] table@[i] == user@
                    &&& r matches Err(e) ==> e is AuthenticationError && e.spec_message()
                        == "Invalid username or password"@
                },
            },
            CredentialModel::Unrecognized => r matches Err(e) && e is AuthenticationError
                && e.spec_message() == "Not valid authentication method"@,
        },
{
    let header_value = match header {
        Some(value) => value,
        None => {
            return Err(
                CustomError::AuthenticationError(String::from_str("Couldn't retrieve header")),
            );
        },
    };
    match classify_header(header_value) {
        Credential::Bearer(token) => bearer_auth(token.as_str(), cfg, now),
        Credential::Basic(data) => basic_auth(data.as_str(), table),
        Credential::Unrecognized => Err(
            CustomError::AuthenticationError(
                String::from_str("Not valid authentication method"),
            ),
        ),
    }
}

} // verus!
