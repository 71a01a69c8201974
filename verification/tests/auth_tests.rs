use open_in_browser::auth::{auth_result, verify_auth, AUTH_HEADER, JWT_LEEWAY_SECONDS};

fn now() -> u64 {
    std::time::SystemTime::now().duration_since(std::time::UNIX_EPOCH).unwrap().as_secs()
}

fn token(key: &str, exp: u64) -> String {
    let mut map = serde_json::Map::new();
    map.insert("exp".to_string(), serde_json::Value::from(exp));
    map.insert("sub".to_string(), serde_json::Value::from("client"));
    let claims = serde_json::Value::Object(map);
    jsonwebtoken::encode(
        &jsonwebtoken::Header::new(jsonwebtoken::Algorithm::HS256),
        &claims,
        &jsonwebtoken::EncodingKey::from_secret(key.as_bytes()),
    )
    .unwrap()
}

#[test]
fn header_name_and_leeway() {
    assert_eq!(AUTH_HEADER, "x-openinbrowser-auth");
    assert_eq!(JWT_LEEWAY_SECONDS, 1);
}

#[test]
fn missing_header_is_refused() {
    assert_eq!(
        verify_auth(None, "open-in-browser"),
        Err("Missing authentication header 'x-openinbrowser-auth'".to_string())
    );
}

#[test]
fn malformed_token_is_refused() {
    assert_eq!(
        verify_auth(Some("garbage"), "open-in-browser"),
        Err("Invalid JWT authentication: InvalidToken".to_string())
    );
}

#[test]
fn valid_token_is_accepted() {
    let t = token("open-in-browser", now() + 3600);
    assert_eq!(verify_auth(Some(&t), "open-in-browser"), Ok(()));
}

#[test]
fn token_signed_with_another_key_is_refused() {
    let t = token("other-key", now() + 3600);
    assert_eq!(
        verify_auth(Some(&t), "open-in-browser"),
        Err("Invalid JWT authentication: InvalidSignature".to_string())
    );
}

#[test]
fn expired_token_is_refused() {
    let t = token("open-in-browser", now() - 3600);
    assert_eq!(
        verify_auth(Some(&t), "open-in-browser"),
        Err("Invalid JWT authentication: ExpiredSignature".to_string())
    );
}

#[test]
fn decoded_outcome_mapping() {
    assert_eq!(auth_result(Ok(())), Ok(()));
    assert_eq!(
        auth_result(Err("ExpiredSignature".to_string())),
        Err("Invalid JWT authentication: ExpiredSignature".to_string())
    );
}

#[test]
fn token_is_checked_as_given() {
    // a correctly signed token without expiry problems is accepted, and one
    // signed under the right key is never refused for its form or signature
    let t = token("k", now() + 60);
    let r = verify_auth(Some(&t), "k");
    assert_eq!(r, Ok(()));
    let truncated = &t[..t.len() - 2];
    assert!(verify_auth(Some(truncated), "k").is_err());
}
