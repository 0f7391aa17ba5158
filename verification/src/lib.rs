//! Core logic of a small relay service that mirrors an external
//! team-communication workspace (members, channels, messages) into a local
//! store while proxying actions to the workspace's remote API.
//!
//! The verified core covers credential verification and the session-token
//! lifecycle, the reconciliation of externally fetched listings against the
//! local mirror, and the coordinator that ties an external message delivery
//! to a durable local record.  Network and database plumbing live outside
//! this crate and talk to it through plain values.

pub mod coordinator;
pub mod directory;
pub mod error;
pub mod middleware;
pub mod models;
pub mod services;
pub mod util;

pub use crate::error::CustomError;
pub use crate::models::authenticable_users::AuthData;
pub use crate::models::message::FormData;

use crate::models::authenticable_users::{
    contains_username, AuthenticableUser, AuthUserTable, IdentityEntry,
};
use crate::directory::contains_name;
use crate::models::message::{Message, MessageEntry, MessageLog};
use crate::models::user::{NewUser, User, UserMirror};
use vstd::prelude::*;

verus! {

/// Append a message row as given, with the timestamp assigned now and the
/// next generated id.  No reference checking happens here: callers that need
/// referential safety reconcile the mirrors first.
pub fn store_message(
    log: &mut MessageLog,
    sender: &str,
    body: &str,
    channel: &str,
    now: i64,
) -> (message: Message)
    requires
        old(log)@.len() < 0x7fffffff,
    ensures
        message@ == (MessageEntry {
            id: old(log)@.len() as int + 1,
            sender: sender@,
            body: body@,
            channel: channel@,
            time_sent: now as int,
        }),
        final(log)@ == old(log)@.push(message@),
{
    let id_usize = log.rows.len();
    let row = Message {
        id: (id_usize as i32) + 1,
        sender: String::from_str(sender),
        body: String::from_str(body),
        channel: String::from_str(channel),
        time_sent: now,
    };
    let returned = Message {
        id: row.id,
        sender: row.sender.clone(),
        body: row.body.clone(),
        channel: row.channel.clone(),
        time_sent: row.time_sent,
    };
    let ghost prev = log@;
    proof {
        assert(row@ == returned@);
    }
    log.rows.push(row);
    proof {
        assert(log@ =~= prev.push(returned@));
    }
    returned
}

/// Register a new identity storing the given password text as-is: reject a
/// username that is already taken or absent from the directory mirror,
/// otherwise append the identity with the next numeric id.
pub fn register_user(
    table: &mut AuthUserTable,
    users: &UserMirror,
    username: &str,
    password: &str,
) -> (r: Result<AuthenticableUser, CustomError>)
    requires
        old(table).wf(),
        old(table)@.len() < 0x7fffffff,
    ensures
        final(table).wf(),
        contains_username(old(table)@, username@) ==> {
            &&& r matches Err(e) && e is ValidationError
            &&& r matches Err(e) && e.spec_message() == "User already exists"@
            &&& final(table)@ == old(table)@
        },
        !contains_username(old(table)@, username@) && !contains_name(users@, username@) ==> {
            &&& r matches Err(e) && e is ValidationError
            &&& r matches Err(e) && e.spec_message() == "User does not exists in slack workspace"@
            &&& final(table)@ == old(table)@
        },
        !contains_username(old(table)@, username@) && contains_name(users@, username@) ==> {
            &&& r matches Ok(created)
            &&& r matches Ok(created) ==> {
                &&& final(table)@ == old(table)@.push(created@)
                &&& created@ == (IdentityEntry {
                    id: old(table)@.len() as int + 1,
                    username: username@,
                    password_hash: password@,
                })
            }
        },
{
    let ghost t0 = table@;
    match AuthenticableUser::find_by_username(table, username) {
        Ok(_) => {
            return Err(CustomError::ValidationError(String::from_str("User already exists")));
        },
        Err(_) => (),
    }
    match User::find_by_username(users, username) {
        Ok(_) => (),
        Err(_) => {
            return Err(
                CustomError::ValidationError(
                    String::from_str("User does not exists in slack workspace"),
                ),
            );
        },
    }
    let id_usize = table.rows.len();
    let row = AuthenticableUser {
        id: (id_usize as i32) + 1,
        username: String::from_str(username),
        password: String::from_str(password),
    };
    let created = AuthenticableUser {
        id: row.id,
        username: row.username.clone(),
        password: row.password.clone(),
    };
    proof {
        assert(row@ == created@);
    }
    let ghost prev = table@;
    table.rows.push(row);
    proof {
        assert(table@ =~= prev.push(created@));
        assert forall|i: int, j: int| 0 <= i < j < table@.len() implies table@[i].username
            != table@[j].username by {
            if j == table@.len() - 1 {
                assert(!contains_username(t0, username@));
                assert(t0[i].username != username@);
            }
        }
    }
    Ok(created)
}

/// Fetch a registered identity by username.
pub fn fetch_auth_user_by_username(table: &AuthUserTable, slack_username: &str) -> (r: Result<
    AuthenticableUser,
    CustomError,
>)
    ensures
        (r is Ok) == contains_username(table@, slack_username@),
        r matches Ok(found) ==> exists|i: int|
            0 <= i < table@.len() && #[trigger] table@[i] == found@ && table@[i].username
                == slack_username@,
        r matches Err(e) ==> e is StorageError,
{
    AuthenticableUser::find_by_username(table, slack_username)
}

/// Fetch a mirrored workspace member by display name.
pub fn fetch_slack_user_by_username(users: &UserMirror, slack_username: &str) -> (r: Result<
    User,
    CustomError,
>)
    ensures
        (r is Ok) == contains_name(users@, slack_username@),
        r matches Ok(found) ==> exists|i: int|
            0 <= i < users@.len() && #[trigger] users@[i] == found@ && users@[i].name
                == slack_username@,
        r matches Err(e) ==> e is StorageError,
{
    User::find_by_username(users, slack_username)
}

/// Fetch all mirrored workspace members.
pub fn fetch_slack_users(users: &UserMirror) -> (r: Result<Vec<User>, CustomError>)
    ensures
        r is Ok,
        r matches Ok(rows) ==> rows.deep_view() =~= users@,
{
    User::all(users)
}

/// Fetch all registered identities.
pub fn fetch_authenticable_users(table: &AuthUserTable) -> (r: Result<
    Vec<AuthenticableUser>,
    CustomError,
>)
    ensures
        r is Ok,
        r matches Ok(rows) ==> rows.deep_view() =~= table@,
{
    AuthenticableUser::all(table)
}

/// Insert a batch of member rows, subject to the uniqueness constraint on
/// external ids.
pub fn insert_slack_users(users: &mut UserMirror, slack_users: Vec<NewUser>) -> (r: Result<
    Vec<User>,
    CustomError,
>)
    ensures
        crate::directory::batch_insertable(old(users)@, slack_users.deep_view()) ==> {
            &&& r is Ok
            &&& final(users)@ == old(users)@ + slack_users.deep_view()
            &&& old(users).wf() ==> final(users).wf()
        },
        !crate::directory::batch_insertable(old(users)@, slack_users.deep_view()) ==> {
            &&& r matches Err(e) && e is StorageError
            &&& final(users)@ == old(users)@
        },
{
    NewUser::create_many(users, slack_users)
}

} // verus!
