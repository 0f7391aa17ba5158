//! Credential checking against the identity table.

use crate::error::CustomError;
use crate::models::authenticable_users::{
    contains_username, AuthData, AuthenticableUser, AuthUserTable,
};
use crate::services::claims::ClaimsModel;
use crate::services::jwt::{issued_parts, spec_token, token_parts, TokenConfig};
use crate::services::password::{bcrypt_check_of, verify_password};
use vstd::prelude::*;

verus! {

/// A credential presentation to check against the stored identities.
#[derive(Debug, Clone, PartialEq)]
pub struct AuthenticableUserData {
    pub username: String,
    pub password: String,
}

impl AuthenticableUserData {
    /// Check a username and password against the stored identities and issue
    /// a session token on success.  Behaves exactly as
    /// `AuthenticableUser::authenticate` on the equivalent form.
    pub fn authenticate(
        table: &AuthUserTable,
        username: &str,
        password: &str,
        cfg: &TokenConfig,
        now: i64,
    ) -> (r: Result<(AuthenticableUser, String), CustomError>)
        requires
            table.wf(),
            cfg.wf(),
            0 <= now,
            now + cfg.lifetime_s <= i64::MAX,
        ensures
            forall|i: int|
                0 <= i < table@.len() && #[trigger] table@[i].username == username@ ==> ((
                bcrypt_check_of(password@, table@[i].password_hash) == Some(true)) == (r is Ok)),
            !contains_username(table@, username@) ==> r is Err,
            r matches Err(e) ==> e is AuthenticationError && e.spec_message()
                == "Invalid username or password"@,
            r matches Ok(pair) ==> exists|i: int|
                {
                    &&& 0 <= i < table@.len()
                    &&& #[trigger] table@[i] == pair.0@
                    &&& table@[i].username == username@
                    &&& bcrypt_check_of(password@, table@[i].password_hash) == Some(true)
                    &&& pair.1@ == spec_token(
                        ClaimsModel {
                            sub: table@[i].id,
                            username: username@,
                            exp: now + cfg.lifetime_s,
                            iat: now as int,
                        },
                        cfg.secret@,
                    )
                    &&& token_parts(pair.1@) == Some(
                        issued_parts(
                            ClaimsModel {
                                sub: table@[i].id,
                                username: username@,
                                exp: now + cfg.lifetime_s,
                                iat: now as int,
                            },
                            cfg.secret@,
                        ),
                    )
                },
    {
        let form = AuthData {
            username: String::from_str(username),
            password: String::from_str(password),
        };
        AuthenticableUser::authenticate(table, form, cfg, now)
    }

    /// Verify a password against a stored identity's hash, failing closed:
    /// a verifier error counts as "not verified", never as "verified".
    pub fn verify(password: String, user: &AuthenticableUser) -> (r: Result<(), CustomError>)
        ensures
            (r is Ok) == (bcrypt_check_of(password@, user.password@) == Some(true)),
            r matches Err(e) ==> e is AuthenticationError && e.spec_message()
                == "Invalid username or password"@,
    {
        match verify_password(password.as_str(), user.password.as_str()) {
            Ok(true) => Ok(()),
            _ => Err(
                CustomError::AuthenticationError(
                    String::from_str("Invalid username or password"),
                ),
            ),
        }
    }
}

} // verus!
