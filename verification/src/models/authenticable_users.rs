//! Locally registered, password-authenticable identities.
//!
//! An identity is created only at registration, never updated and never
//! deleted, and can only be registered for a username present in the
//! directory mirror of workspace members.  Usernames are unique.

use crate::directory::contains_name;
use crate::error::CustomError;
use crate::models::user::{User, UserMirror};
use crate::services::claims::ClaimsModel;
use crate::services::jwt::{
    current_timestamp, generate, issued_parts, spec_token, token_parts, TokenConfig,
};
use crate::services::password::{bcrypt_check_of, hash_password, verify_password};
use vstd::prelude::*;

verus! {

/// Abstract identity row: numeric id, unique username, password hash.
pub struct IdentityEntry {
    pub id: int,
    pub username: Seq<char>,
    pub password_hash: Seq<char>,
}

/// No two identities share a username.
pub open spec fn usernames_unique(rows: Seq<IdentityEntry>) -> bool {
    forall|i: int, j: int| 0 <= i < j < rows.len() ==> rows[i].username != rows[j].username
}

/// Some identity carries this username.
pub open spec fn contains_username(rows: Seq<IdentityEntry>, name: Seq<char>) -> bool {
    exists|i: int| 0 <= i < rows.len() && rows[i].username == name
}

/// A registered identity as stored: numeric id, username, bcrypt hash of
/// the password.
#[derive(Debug, Clone, PartialEq)]
pub struct AuthenticableUser {
    pub id: i32,
    pub username: String,
    pub password: String,
}

impl View for AuthenticableUser {
    type V = IdentityEntry;

    open spec fn view(&self) -> IdentityEntry {
        IdentityEntry {
            id: self.id as int,
            username: self.username@,
            password_hash: self.password@,
        }
    }
}

impl DeepView for AuthenticableUser {
    type V = IdentityEntry;

    open spec fn deep_view(&self) -> IdentityEntry {
        self@
    }
}

/// An identity about to be registered: username and the password hash that
/// will be stored for it.
#[derive(Debug, Clone)]
pub struct NewAuthenticableUser {
    pub username: String,
    pub password: String,
}

/// A credential presentation: username and cleartext password.
#[derive(Debug, Clone, PartialEq)]
pub struct AuthData {
    pub username: String,
    pub password: String,
}

/// The stored table of registered identities.
#[derive(Debug)]
pub struct AuthUserTable {
    pub rows: Vec<AuthenticableUser>,
}

impl View for AuthUserTable {
    type V = Seq<IdentityEntry>;

    open spec fn view(&self) -> Seq<IdentityEntry> {
        self.rows.deep_view()
    }
}

impl AuthUserTable {
    /// The storage layer's constraints: unique usernames, non-negative ids.
    pub open spec fn wf(&self) -> bool {
        &&& usernames_unique(self@)
        &&& forall|i: int| 0 <= i < self@.len() ==> self@[i].id >= 0
    }

    /// An empty table.
    pub fn new() -> (table: AuthUserTable)
        ensures
            table@ =~= Seq::<IdentityEntry>::empty(),
            table.wf(),
    {
        AuthUserTable { rows: Vec::new() }
    }
}

impl AuthenticableUser {
    /// Check a credential presentation against the stored identities: look
    /// the username up, verify the password against the stored hash (failing
    /// closed on any verifier error), and issue a session token for the
    /// authenticated identity.  Every failure is the same uninformative
    /// authentication error, whether the username or the password was wrong.
    pub fn authenticate(
        table: &AuthUserTable,
        form: AuthData,
        cfg: &TokenConfig,
        now: i64,
    ) -> (r: Result<(AuthenticableUser, String), CustomError>)
        requires
            table.wf(),
            cfg.wf(),
            0 <= now,
            now + cfg.lifetime_s <= i64::MAX,
        ensures
            forall|i: int|
                0 <= i < table@.len() && #[trigger] table@[i].username == form.username@ ==> ((
                bcrypt_check_of(form.password@, table@[i].password_hash) == Some(true)) == (
                r is Ok)),
            !contains_username(table@, form.username@) ==> r is Err,
            r matches Err(e) ==> e is AuthenticationError && e.spec_message()
                == "Invalid username or password"@,
            r matches Ok(pair) ==> exists|i: int|
                {
                    &&& 0 <= i < table@.len()
                    &&& #[trigger] table@[i] == pair.0@
                    &&& table@[i].username == form.username@
                    &&& bcrypt_check_of(form.password@, table@[i].password_hash) == Some(true)
                    &&& pair.1@ == spec_token(
                        ClaimsModel {
                            sub: table@[i].id,
                            username: form.username@,
                            exp: now + cfg.lifetime_s,
                            iat: now as int,
                        },
                        cfg.secret@,
                    )
                    &&& token_parts(pair.1@) == Some(
                        issued_parts(
                            ClaimsModel {
                                sub: table@[i].id,
                                username: form.username@,
                                exp: now + cfg.lifetime_s,
                                iat: now as int,
                            },
                            cfg.secret@,
                        ),
                    )
                },
    {
        let user = match Self::find_by_username(table, form.username.as_str()) {
            Ok(user) => user,
            Err(_) => {
                return Err(
                    CustomError::AuthenticationError(
                        String::from_str("Invalid username or password"),
                    ),
                );
            },
        };
        let ghost w = choose|i: int|
            {
                &&& 0 <= i < table@.len()
                &&& #[trigger] table@[i] == user@
                &&& table@[i].username == form.username@
                &&& forall|j: int| 0 <= j < i ==> table@[j].username != form.username@
            };
        proof {
            assert forall|i: int|
                0 <= i < table@.len() && #[trigger] table@[i].username
                    == form.username@ implies i == w by {
                if i != w {
                    if i < w {
                        assert(table@[i].username != table@[w].username);
                    } else {
                        assert(table@[w].username != table@[i].username);
                    }
                }
            }
        }
        let valid = match verify_password(form.password.as_str(), user.password.as_str()) {
            Ok(matched) => matched,
            Err(_) => false,
        };
        if !valid {
            return Err(
                CustomError::AuthenticationError(
                    String::from_str("Invalid username or password"),
                ),
            );
        }
        let token = generate(&user, cfg, now);
        Ok((user, token))
    }

    /// Issue a session token for this identity, stamped with the wall clock
    /// (clamped into the representable range).
    pub fn generate_jwt(&self, cfg: &TokenConfig) -> (token: String)
        requires
            self.id >= 0,
            cfg.wf(),
        ensures
            exists|t: i64|
                {
                    &&& 0 <= t
                    &&& t + cfg.lifetime_s <= i64::MAX
                    &&& token@ == #[trigger] spec_token(
                        ClaimsModel {
                            sub: self.id as int,
                            username: self.username@,
                            exp: t + cfg.lifetime_s,
                            iat: t as int,
                        },
                        cfg.secret@,
                    )
                },
    {
        let now = current_timestamp();
        let clamped = if now < 0 {
            0
        } else if now > i64::MAX - cfg.lifetime_s {
            i64::MAX - cfg.lifetime_s
        } else {
            now
        };
        generate(self, cfg, clamped)
    }

    /// The identity shell carried by verified token claims: subject and
    /// username, with no password hash (it is never reconstructable from a
    /// token).
    pub fn from_jwt(claims: crate::services::jwt::Claims) -> (user: Self)
        ensures
            user.id == claims.sub,
            user.username@ == claims.username@,
            user.password@ == Seq::<char>::empty(),
    {
        AuthenticableUser { id: claims.sub, username: claims.username, password: String::new() }
    }

    /// Fetch the first identity carrying this username, or a storage
    /// failure when no row matches.
    pub fn find_by_username(table: &AuthUserTable, uname: &str) -> (r: Result<
        AuthenticableUser,
        CustomError,
    >)
        ensures
            (r is Ok) == contains_username(table@, uname@),
            r matches Ok(found) ==> exists|i: int|
                {
                    &&& 0 <= i < table@.len()
                    &&& #[trigger] table@[i] == found@
                    &&& table@[i].username == uname@
                    &&& forall|j: int| 0 <= j < i ==> table@[j].username != uname@
                },
            r matches Err(e) ==> e is StorageError,
    {
        let target = String::from_str(uname);
        let n = table.rows.len();
        for i in 0..n
            invariant
                n == table.rows.len(),
                target@ == uname@,
                forall|j: int| 0 <= j < i ==> table@[j].username != uname@,
        {
            if table.rows[i].username == target {
                let found = AuthenticableUser {
                    id: table.rows[i].id,
                    username: table.rows[i].username.clone(),
                    password: table.rows[i].password.clone(),
                };
                assert(table@[i as int].username == uname@);
                assert(found@ == table@[i as int]);
                assert(contains_username(table@, uname@));
                return Ok(found);
            }
        }
        Err(CustomError::StorageError(String::from_str("record not found")))
    }

    /// All registered identities, as owned copies.
    pub fn all(table: &AuthUserTable) -> (r: Result<Vec<AuthenticableUser>, CustomError>)
        ensures
            r is Ok,
            r matches Ok(rows) ==> rows.deep_view() =~= table@,
    {
        let mut out: Vec<AuthenticableUser> = Vec::new();
        let n = table.rows.len();
        for i in 0..n
            invariant
                n == table.rows.len(),
                out.deep_view() =~= table@.take(i as int),
        {
            out.push(
                AuthenticableUser {
                    id: table.rows[i].id,
                    username: table.rows[i].username.clone(),
                    password: table.rows[i].password.clone(),
                },
            );
            assert(out.deep_view() =~= table@.take(i as int).push(table@[i as int]));
            assert(table@.take(i + 1) =~= table@.take(i as int).push(table@[i as int]));
        }
        assert(table@.take(n as int) =~= table@);
        Ok(out)
    }
}

impl NewAuthenticableUser {
    /// Register a new identity: reject a username that is already taken
    /// ("User already exists") or absent from the directory mirror of
    /// workspace members ("User does not exists in slack workspace");
    /// otherwise hash the password and append the identity with the next
    /// numeric id.  The stored hash verifies against the given password.
    pub fn create(table: &mut AuthUserTable, users: &UserMirror, form: AuthData) -> (r: Result<
        AuthenticableUser,
        CustomError,
    >)
        requires
            old(table).wf(),
            old(table)@.len() < 0x7fff_ffff,
        ensures
            final(table).wf(),
            contains_username(old(table)@, form.username@) ==> {
                &&& r matches Err(e) && e is ValidationError
                &&& r matches Err(e) && e.spec_message() == "User already exists"@
                &&& final(table)@ == old(table)@
            },
            !contains_username(old(table)@, form.username@) && !contains_name(
                users@,
                form.username@,
            ) ==> {
                &&& r matches Err(e) && e is ValidationError
                &&& r matches Err(e) && e.spec_message()
                    == "User does not exists in slack workspace"@
                &&& final(table)@ == old(table)@
            },
            !contains_username(old(table)@, form.username@) && contains_name(
                users@,
                form.username@,
            ) ==> match r {
                Ok(created) => {
                    &&& final(table)@ == old(table)@.push(created@)
                    &&& created.username@ == form.username@
                    &&& created@.id == old(table)@.len() + 1
                    &&& bcrypt_check_of(form.password@, created.password@) == Some(true)
                },
                Err(e) => e is StorageError && final(table)@ == old(table)@,
            },
    {
        let ghost t0 = table@;
        match AuthenticableUser::find_by_username(table, form.username.as_str()) {
            Ok(_) => {
                return Err(CustomError::ValidationError(String::from_str("User already exists")));
            },
            Err(_) => (),
        }
        match User::find_by_username(users, form.username.as_str()) {
            Ok(_) => (),
            Err(_) => {
                return Err(
                    CustomError::ValidationError(
                        String::from_str("User does not exists in slack workspace"),
                    ),
                );
            },
        }
        let hashed = match hash_password(form.password.as_str()) {
            Ok(h) => h,
            Err(_) => {
                return Err(CustomError::StorageError(String::from_str("password hashing failed")));
            },
        };
        let id_usize = table.rows.len();
        let row = AuthenticableUser {
            id: (id_usize as i32) + 1,
            username: form.username.clone(),
            password: hashed.clone(),
        };
        let created = AuthenticableUser {
            id: row.id,
            username: row.username.clone(),
            password: row.password.clone(),
        };
        proof {
            assert(row@ == created@);
        }
        let ghost prev = table@;
        table.rows.push(row);
        proof {
            assert(table@ =~= prev.push(created@));
            assert forall|i: int, j: int| 0 <= i < j < table@.len() implies table@[i].username
                != table@[j].username by {
                if j == table@.len() - 1 {
                    assert(!contains_username(t0, form.username@));
                    assert(t0[i].username != form.username@);
                }
            }
        }
        Ok(created)
    }
}

} // verus!
