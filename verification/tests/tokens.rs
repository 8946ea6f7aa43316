use dashboard_sockets::config::Config;
use dashboard_sockets::token::{admits, authorize, judge_token, validate_token, TokenState};
use jsonwebtoken::{encode, get_current_timestamp, Algorithm, EncodingKey, Header};
use serde_json::Value;

const SECRET: &str = "a secret";

fn claims(issuer: Option<&str>, exp: Option<u64>, fingerprint: Option<&str>) -> serde_json::Map<String, Value> {
    let mut claims = serde_json::Map::new();
    if let Some(issuer) = issuer {
        claims.insert("iss".to_string(), Value::from(issuer));
    }
    if let Some(exp) = exp {
        claims.insert("exp".to_string(), Value::from(exp));
    }
    claims.insert("iat".to_string(), Value::from(get_current_timestamp()));
    if let Some(fingerprint) = fingerprint {
        claims.insert("fingerprint".to_string(), Value::from(fingerprint));
    }
    claims
}

fn sign(claims: &serde_json::Map<String, Value>, secret: &str, alg: Algorithm) -> String {
    encode(&Header::new(alg), claims, &EncodingKey::from_secret(secret.as_bytes())).unwrap()
}

fn soon() -> Option<u64> {
    Some(get_current_timestamp() + 3600)
}

fn good_token() -> String {
    sign(&claims(Some("DietPi Dashboard"), soon(), Some("abc")), SECRET, Algorithm::HS256)
}

fn config(pass: bool) -> Config {
    Config {
        pass,
        secret: SECRET.to_string(),
        terminal_user: "root".to_string(),
    }
}

#[test]
fn signed_token_with_matching_fingerprint_is_valid() {
    assert_eq!(validate_token(&good_token(), Some("abc"), SECRET), TokenState::ValidToken);
}

#[test]
fn signed_token_with_other_fingerprint_is_invalid() {
    assert_eq!(validate_token(&good_token(), Some("abd"), SECRET), TokenState::InvalidToken);
    assert_eq!(validate_token(&good_token(), Some(""), SECRET), TokenState::InvalidToken);
}

#[test]
fn signed_token_without_client_fingerprint() {
    assert_eq!(validate_token(&good_token(), None, SECRET), TokenState::NoFingerprint);
}

#[test]
fn token_of_another_secret_is_invalid() {
    assert_eq!(validate_token(&good_token(), Some("abc"), "another"), TokenState::InvalidToken);
    assert_eq!(validate_token(&good_token(), None, "another"), TokenState::InvalidToken);
}

#[test]
fn expired_token_is_invalid() {
    let past = Some(get_current_timestamp() - 3600);
    let token = sign(&claims(Some("DietPi Dashboard"), past, Some("abc")), SECRET, Algorithm::HS256);
    assert_eq!(validate_token(&token, Some("abc"), SECRET), TokenState::InvalidToken);
}

#[test]
fn token_without_expiry_is_invalid() {
    let token = sign(&claims(Some("DietPi Dashboard"), None, Some("abc")), SECRET, Algorithm::HS256);
    assert_eq!(validate_token(&token, Some("abc"), SECRET), TokenState::InvalidToken);
}

#[test]
fn token_of_another_issuer_is_invalid() {
    let token = sign(&claims(Some("Somebody"), soon(), Some("abc")), SECRET, Algorithm::HS256);
    assert_eq!(validate_token(&token, Some("abc"), SECRET), TokenState::InvalidToken);
}

#[test]
fn token_without_issuer_is_taken() {
    let token = sign(&claims(None, soon(), Some("abc")), SECRET, Algorithm::HS256);
    assert_eq!(validate_token(&token, Some("abc"), SECRET), TokenState::ValidToken);
}

#[test]
fn token_of_another_algorithm_is_invalid() {
    let token = sign(&claims(Some("DietPi Dashboard"), soon(), Some("abc")), SECRET, Algorithm::HS512);
    assert_eq!(validate_token(&token, Some("abc"), SECRET), TokenState::InvalidToken);
}

#[test]
fn token_without_fingerprint_claim_is_invalid() {
    let token = sign(&claims(Some("DietPi Dashboard"), soon(), None), SECRET, Algorithm::HS256);
    assert_eq!(validate_token(&token, Some("abc"), SECRET), TokenState::InvalidToken);
    assert_eq!(validate_token(&token, None, SECRET), TokenState::InvalidToken);
}

#[test]
fn fingerprint_claim_that_is_no_text_is_invalid() {
    let mut wrong = claims(Some("DietPi Dashboard"), soon(), None);
    wrong.insert("fingerprint".to_string(), Value::from(5));
    let token = sign(&wrong, SECRET, Algorithm::HS256);
    assert_eq!(validate_token(&token, Some("5"), SECRET), TokenState::InvalidToken);
}

#[test]
fn what_is_no_token_is_invalid() {
    for text in ["", ".", "..", "a.b.c", "token"] {
        assert_eq!(validate_token(text, Some("abc"), SECRET), TokenState::InvalidToken);
    }
}

#[test]
fn judgement_of_claims() {
    assert_eq!(judge_token(None, None), TokenState::InvalidToken);
    assert_eq!(judge_token(None, Some("a")), TokenState::InvalidToken);
    assert_eq!(judge_token(Some("a"), None), TokenState::NoFingerprint);
    assert_eq!(judge_token(Some("a"), Some("a")), TokenState::ValidToken);
    assert_eq!(judge_token(Some("a"), Some("b")), TokenState::InvalidToken);
}

#[test]
fn only_a_valid_token_counts() {
    assert!(TokenState::ValidToken.as_bool());
    assert!(!TokenState::InvalidToken.as_bool());
    assert!(!TokenState::NoFingerprint.as_bool());
    assert!(admits(false, TokenState::InvalidToken));
    assert!(admits(true, TokenState::ValidToken));
    assert!(!admits(true, TokenState::NoFingerprint));
}

#[test]
fn authorization_looks_at_the_token_only_where_login_is_needed() {
    assert!(authorize(&config(false), "", None));
    assert!(!authorize(&config(true), "", None));
    assert!(!authorize(&config(true), &good_token(), None));
    assert!(!authorize(&config(true), &good_token(), Some("abd")));
    assert!(authorize(&config(true), &good_token(), Some("abc")));
}

#[test]
fn token_that_outlasts_every_clock_is_valid() {
    let token = sign(
        &claims(Some("DietPi Dashboard"), Some(u64::MAX), Some("abc")),
        SECRET,
        Algorithm::HS256,
    );
    assert_eq!(validate_token(&token, Some("abc"), SECRET), TokenState::ValidToken);
    assert_eq!(validate_token(&token, None, SECRET), TokenState::NoFingerprint);
}
