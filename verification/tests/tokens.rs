use slack_relay::error::TokenError;
use slack_relay::models::authenticable_users::AuthenticableUser;
use slack_relay::services::claims::{parse_claims, serialize_claims};
use slack_relay::services::jwt::{generate, verify, Claims, TokenConfig};
use slack_relay::util::u64_to_decimal;

fn cfg() -> TokenConfig {
    TokenConfig::new(b"test-secret".to_vec(), Some(300))
}

fn user() -> AuthenticableUser {
    AuthenticableUser {
        id: 7,
        username: "alice".to_string(),
        password: String::new(),
    }
}

#[test]
fn token_round_trip_before_expiry() {
    let configuration = cfg();
    let token = generate(&user(), &configuration, 1_000);
    let claims = verify(token, &configuration, 1_100).unwrap();
    assert_eq!(claims.sub, 7);
    assert_eq!(claims.username, "alice");
    assert_eq!(claims.iat, 1_000);
    assert_eq!(claims.exp, 1_300);
}

#[test]
fn token_expires_with_the_expired_kind() {
    let configuration = cfg();
    let token = generate(&user(), &configuration, 1_000);
    assert!(verify(token.clone(), &configuration, 1_299).is_ok());
    assert_eq!(verify(token.clone(), &configuration, 1_300), Err(TokenError::Expired));
    assert_eq!(verify(token, &configuration, 2_000), Err(TokenError::Expired));
}

#[test]
fn token_with_wrong_secret_fails_signature_check() {
    let token = generate(&user(), &cfg(), 1_000);
    let other = TokenConfig::new(b"other-secret".to_vec(), Some(300));
    assert_eq!(verify(token, &other, 1_100), Err(TokenError::SignatureInvalid));
}

#[test]
fn tampered_token_fails_signature_check() {
    let configuration = cfg();
    let token = generate(&user(), &configuration, 1_000);
    let mut tampered: String = token.chars().take(token.len() - 1).collect();
    let last = token.chars().last().unwrap();
    tampered.push(if last == 'A' { 'B' } else { 'A' });
    assert_eq!(
        verify(tampered, &configuration, 1_100),
        Err(TokenError::SignatureInvalid)
    );
}

#[test]
fn garbage_tokens_are_malformed() {
    let configuration = cfg();
    assert_eq!(
        verify("no dots here".to_string(), &configuration, 0),
        Err(TokenError::Malformed)
    );
    assert_eq!(
        verify(String::new(), &configuration, 0),
        Err(TokenError::Malformed)
    );
}

#[test]
fn issued_tokens_are_standard_jwts() {
    // An independent decoder accepts the token, validates the signature
    // under the same secret, and reads back the same claims.
    let configuration = cfg();
    let now = chrono::Utc::now().timestamp();
    let token = generate(&user(), &configuration, now);

    let decoded = jsonwebtoken::decode::<serde_json::Value>(
        &token,
        &jsonwebtoken::DecodingKey::from_secret(b"test-secret"),
        &jsonwebtoken::Validation::new(jsonwebtoken::Algorithm::HS256),
    )
    .unwrap();
    assert_eq!(decoded.claims["sub"], serde_json::Value::from("7"));
    assert_eq!(decoded.claims["username"], serde_json::Value::from("alice"));
    assert_eq!(decoded.claims["iat"], serde_json::Value::from(now));
    assert_eq!(decoded.claims["exp"], serde_json::Value::from(now + 300));
}

#[test]
fn claims_serialise_to_canonical_json() {
    let claims = Claims {
        sub: 1,
        username: "alice".to_string(),
        exp: 10,
        iat: 5,
    };
    let bytes = serialize_claims(&claims);
    assert_eq!(
        String::from_utf8(bytes).unwrap(),
        "{\"sub\":\"1\",\"username\":\"alice\",\"exp\":10,\"iat\":5}"
    );
}

#[test]
fn claims_with_special_characters_survive_the_codec() {
    let claims = Claims {
        sub: 42,
        username: "we\"ird\\name\nwith\tcontrols:\u{1F600}".to_string(),
        exp: 9_999_999,
        iat: 0,
    };
    let bytes = serialize_claims(&claims);

    // Our own parser restores the claims exactly.
    let parsed = parse_claims(&bytes).unwrap();
    assert_eq!(parsed, claims);

    // An independent JSON parser agrees about the content.
    let value: serde_json::Value = serde_json::from_slice(&bytes).unwrap();
    assert_eq!(value["sub"], serde_json::Value::from("42"));
    assert_eq!(
        value["username"],
        serde_json::Value::from("we\"ird\\name\nwith\tcontrols:\u{1F600}")
    );
    assert_eq!(value["exp"], serde_json::Value::from(9_999_999));
    assert_eq!(value["iat"], serde_json::Value::from(0));
}

#[test]
fn parser_rejects_non_canonical_payloads() {
    assert!(parse_claims(&b"{}".to_vec()).is_err());
    assert!(parse_claims(&b"{\"sub\":\"x\",\"username\":\"a\",\"exp\":1,\"iat\":1}".to_vec()).is_err());
    assert!(parse_claims(&b"{\"sub\":\"1\",\"username\":\"a\",\"exp\":1,\"iat\":1".to_vec()).is_err());
    assert!(
        parse_claims(&b"{\"sub\":\"99999999999\",\"username\":\"a\",\"exp\":1,\"iat\":1}".to_vec())
            .is_err()
    );
}

#[test]
fn decimal_digits_are_exact() {
    assert_eq!(u64_to_decimal(0), b"0".to_vec());
    assert_eq!(u64_to_decimal(12345), b"12345".to_vec());
    assert_eq!(
        u64_to_decimal(u64::MAX),
        b"18446744073709551615".to_vec()
    );
}

#[test]
fn empty_secret_still_round_trips() {
    let configuration = TokenConfig::new(Vec::new(), None);
    assert_eq!(configuration.lifetime_s, 300);
    let token = generate(&user(), &configuration, 50);
    let claims = verify(token, &configuration, 100).unwrap();
    assert_eq!(claims.sub, 7);
    assert_eq!(claims.exp, 350);
}

#[test]
fn generate_jwt_stamps_the_wall_clock() {
    let configuration = cfg();
    let identity = user();
    let token = identity.generate_jwt(&configuration);
    let now = chrono::Utc::now().timestamp();
    let claims = verify(token, &configuration, now).unwrap();
    assert_eq!(claims.sub, 7);
    assert!(claims.iat <= now && now <= claims.exp);
}
