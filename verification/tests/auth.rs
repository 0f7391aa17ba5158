use base64::Engine;
use slack_relay::middleware::auth::{basic_auth, bearer_auth, classify_header, is_logged, Credential};
use slack_relay::models::auth::AuthenticableUserData;
use slack_relay::models::authenticable_users::{
    AuthData, AuthenticableUser, AuthUserTable, NewAuthenticableUser,
};
use slack_relay::models::slack_responses::SlackUser;
use slack_relay::models::user::{User, UserMirror};
use slack_relay::services::jwt::TokenConfig;
use slack_relay::CustomError;

fn directory_with(names: &[&str]) -> UserMirror {
    let mut mirror = UserMirror::new();
    let listing: Vec<SlackUser> = names
        .iter()
        .enumerate()
        .map(|(i, name)| SlackUser {
            id: format!("U{}", i + 1),
            is_admin: false,
            name: name.to_string(),
            real_name: name.to_string(),
        })
        .collect();
    User::sync_api_users(&mut mirror, listing).unwrap();
    mirror
}

fn registered_table(pairs: &[(&str, &str)]) -> AuthUserTable {
    let names: Vec<&str> = pairs.iter().map(|p| p.0).collect();
    let directory = directory_with(&names);
    let mut table = AuthUserTable::new();
    for (username, password) in pairs {
        NewAuthenticableUser::create(
            &mut table,
            &directory,
            AuthData {
                username: username.to_string(),
                password: password.to_string(),
            },
        )
        .unwrap();
    }
    table
}

fn cfg() -> TokenConfig {
    TokenConfig::new(b"test-secret".to_vec(), Some(300))
}

#[test]
fn registered_pair_authenticates_with_matching_username() {
    let table = registered_table(&[("alice", "pw123")]);
    let result = AuthenticableUser::authenticate(
        &table,
        AuthData {
            username: "alice".to_string(),
            password: "pw123".to_string(),
        },
        &cfg(),
        1_000,
    );
    let (user, token) = result.unwrap();
    assert_eq!(user.username, "alice");
    assert!(!token.is_empty());
}

#[test]
fn wrong_password_fails_with_authentication_error() {
    let table = registered_table(&[("alice", "pw123")]);
    let result = AuthenticableUserData::authenticate(&table, "alice", "wrongpass", &cfg(), 1_000);
    match result {
        Err(CustomError::AuthenticationError(message)) => {
            assert_eq!(message, "Invalid username or password");
        }
        other => panic!("expected an authentication error, got {:?}", other),
    }
}

#[test]
fn unknown_username_fails_with_the_same_message() {
    let table = registered_table(&[("alice", "pw123")]);
    let result = AuthenticableUserData::authenticate(&table, "mallory", "pw123", &cfg(), 1_000);
    match result {
        Err(CustomError::AuthenticationError(message)) => {
            assert_eq!(message, "Invalid username or password");
        }
        other => panic!("expected an authentication error, got {:?}", other),
    }
}

#[test]
fn registration_requires_directory_membership() {
    let directory = directory_with(&["alice"]);
    let mut table = AuthUserTable::new();

    let created = NewAuthenticableUser::create(
        &mut table,
        &directory,
        AuthData {
            username: "alice".to_string(),
            password: "pw123".to_string(),
        },
    )
    .unwrap();
    assert_eq!(created.username, "alice");
    assert_eq!(created.id, 1);

    let absent = NewAuthenticableUser::create(
        &mut table,
        &directory,
        AuthData {
            username: "bob".to_string(),
            password: "pw1".to_string(),
        },
    );
    match absent {
        Err(CustomError::ValidationError(message)) => {
            assert_eq!(message, "User does not exists in slack workspace");
        }
        other => panic!("expected a validation error, got {:?}", other),
    }

    let duplicate = NewAuthenticableUser::create(
        &mut table,
        &directory,
        AuthData {
            username: "alice".to_string(),
            password: "other".to_string(),
        },
    );
    match duplicate {
        Err(CustomError::ValidationError(message)) => {
            assert_eq!(message, "User already exists");
        }
        other => panic!("expected a validation error, got {:?}", other),
    }
}

#[test]
fn stored_hash_is_not_the_password() {
    let table = registered_table(&[("alice", "pw123")]);
    assert_ne!(table.rows[0].password, "pw123");
    assert!(bcrypt::verify("pw123", &table.rows[0].password).unwrap());
}

#[test]
fn classify_recognises_schemes_case_sensitively() {
    assert!(matches!(
        classify_header("Bearer abc"),
        Credential::Bearer(payload) if payload == "abc"
    ));
    assert!(matches!(
        classify_header("Basic abc=="),
        Credential::Basic(payload) if payload == "abc=="
    ));
    assert!(matches!(
        classify_header("  Bearer   abc  "),
        Credential::Bearer(payload) if payload == "abc"
    ));
    assert!(matches!(classify_header("bearer abc"), Credential::Unrecognized));
    assert!(matches!(classify_header("Digest abc"), Credential::Unrecognized));
    assert!(matches!(
        classify_header("Bearer"),
        Credential::Bearer(payload) if payload.is_empty()
    ));
}

#[test]
fn basic_auth_with_wrong_password_yields_401_and_no_handler_call() {
    let table = registered_table(&[("alice", "pw123")]);
    let payload = base64::engine::general_purpose::STANDARD.encode("alice:wrongpass");
    let header = format!("Basic {}", payload);

    let mut handler_calls = 0;
    let outcome = is_logged(Some(&header), &table, &cfg(), 1_000);
    if outcome.is_ok() {
        handler_calls += 1;
    }

    assert_eq!(handler_calls, 0);
    match outcome {
        Err(error) => {
            assert_eq!(error.http_status(), 401);
            assert_eq!(error.message(), "Invalid username or password");
        }
        Ok(_) => panic!("the guard let a bad credential through"),
    }
}

#[test]
fn basic_auth_with_correct_password_resolves_the_identity() {
    let table = registered_table(&[("alice", "pw123")]);
    let payload = base64::engine::general_purpose::STANDARD.encode("alice:pw123");
    let user = basic_auth(&payload, &table).unwrap();
    assert_eq!(user.username, "alice");
}

#[test]
fn basic_auth_password_may_contain_colons() {
    let table = registered_table(&[("alice", "pw:with:colons")]);
    let payload = base64::engine::general_purpose::STANDARD.encode("alice:pw:with:colons");
    let user = basic_auth(&payload, &table).unwrap();
    assert_eq!(user.username, "alice");
}

#[test]
fn basic_auth_rejects_bad_base64() {
    let table = registered_table(&[("alice", "pw123")]);
    let result = basic_auth("!!!not-base64!!!", &table);
    assert!(matches!(result, Err(CustomError::AuthenticationError(_))));
}

#[test]
fn guard_rejects_missing_header_and_unknown_scheme() {
    let table = registered_table(&[("alice", "pw123")]);
    let missing = is_logged(None, &table, &cfg(), 1_000);
    match missing {
        Err(CustomError::AuthenticationError(message)) => {
            assert_eq!(message, "Couldn't retrieve header");
        }
        other => panic!("expected an authentication error, got {:?}", other),
    }

    let unknown = is_logged(Some("Digest abc"), &table, &cfg(), 1_000);
    match unknown {
        Err(error) => {
            assert_eq!(error.http_status(), 401);
            assert_eq!(error.message(), "Not valid authentication method");
        }
        Ok(_) => panic!("the guard accepted an unknown scheme"),
    }

    let undecodable = is_logged(Some("Basic !!!"), &table, &cfg(), 1_000);
    match undecodable {
        Err(CustomError::AuthenticationError(message)) => {
            assert_eq!(message, "Invalid authorization payload");
        }
        other => panic!("expected an authentication error, got {:?}", other),
    }
}

#[test]
fn bearer_path_resolves_identity_without_password() {
    let table = registered_table(&[("alice", "pw123")]);
    let configuration = cfg();
    let (user, token) = AuthenticableUser::authenticate(
        &table,
        AuthData {
            username: "alice".to_string(),
            password: "pw123".to_string(),
        },
        &configuration,
        1_000,
    )
    .unwrap();

    let header = format!("Bearer {}", token);
    let resolved = is_logged(Some(&header), &table, &configuration, 1_100).unwrap();
    assert_eq!(resolved.id, user.id);
    assert_eq!(resolved.username, "alice");
    assert_eq!(resolved.password, "");

    let garbage = bearer_auth("not-a-token", &configuration, 1_100);
    match garbage {
        Err(CustomError::AuthenticationError(message)) => {
            assert_eq!(message, "Something wrong with the signature");
        }
        other => panic!("expected an authentication error, got {:?}", other),
    }
}

#[test]
fn verify_fails_closed() {
    let user = AuthenticableUser {
        id: 1,
        username: "alice".to_string(),
        password: "not-a-bcrypt-hash".to_string(),
    };
    let result = AuthenticableUserData::verify("anything".to_string(), &user);
    assert!(matches!(result, Err(CustomError::AuthenticationError(_))));
}

#[test]
fn root_api_registers_and_fetches() {
    let directory = directory_with(&["alice"]);
    let mut table = AuthUserTable::new();

    let created =
        slack_relay::register_user(&mut table, &directory, "alice", "stored-as-given").unwrap();
    assert_eq!(created.id, 1);
    assert_eq!(table.rows[0].password, "stored-as-given");

    let fetched = slack_relay::fetch_auth_user_by_username(&table, "alice").unwrap();
    assert_eq!(fetched.username, "alice");
    assert!(slack_relay::fetch_auth_user_by_username(&table, "bob").is_err());
    assert_eq!(slack_relay::fetch_authenticable_users(&table).unwrap().len(), 1);

    let duplicate = slack_relay::register_user(&mut table, &directory, "alice", "x");
    assert!(matches!(duplicate, Err(CustomError::ValidationError(_))));
    let absent = slack_relay::register_user(&mut table, &directory, "bob", "x");
    match absent {
        Err(CustomError::ValidationError(message)) => {
            assert_eq!(message, "User does not exists in slack workspace");
        }
        other => panic!("expected a validation error, got {:?}", other),
    }
}
