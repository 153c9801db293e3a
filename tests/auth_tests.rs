use vstats::auth::{bearer_token, is_authorized};
use vstats::config::JWT_SECRET;

fn token(secret: &str, exp: u64) -> String {
    let mut claims = serde_json::Map::new();
    claims.insert("sub".to_string(), serde_json::Value::from("admin"));
    claims.insert("exp".to_string(), serde_json::Value::from(exp));
    jsonwebtoken::encode(
        &jsonwebtoken::Header::default(),
        &serde_json::Value::Object(claims),
        &jsonwebtoken::EncodingKey::from_secret(secret.as_bytes()),
    )
    .unwrap()
}

#[test]
fn bearer_prefix_is_stripped() {
    assert_eq!(bearer_token("Bearer abc.def"), Some("abc.def"));
    assert_eq!(bearer_token("Bearer "), Some(""));
    assert_eq!(bearer_token("bearer abc"), None);
    assert_eq!(bearer_token("Basic abc"), None);
}

#[test]
fn valid_token_is_authorized() {
    let t = token(JWT_SECRET, 4_000_000_000);
    let header = format!("Bearer {}", t);
    assert!(is_authorized(Some(&header), JWT_SECRET));
}

#[test]
fn bad_tokens_are_refused() {
    let wrong = format!("Bearer {}", token("other-key", 4_000_000_000));
    let expired = format!("Bearer {}", token(JWT_SECRET, 1_000));
    let bare = token(JWT_SECRET, 4_000_000_000);
    assert!(!is_authorized(Some(&wrong), JWT_SECRET));
    assert!(!is_authorized(Some(&expired), JWT_SECRET));
    assert!(!is_authorized(Some(&bare), JWT_SECRET));
    assert!(!is_authorized(None, JWT_SECRET));
}
