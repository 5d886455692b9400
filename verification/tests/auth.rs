use unique::request::{Method, Request};
use unique::auth::{
    any_role_allows, jwt_answer, JwtAnswer, hex_encode, role_allows, url_encode, JwtConfig, JwtError, JwtService, JwtServiceMulti, OAuth2Config,
    OAuth2Provider, PasswordReset, SessionStore,
};

fn claims(pairs: &[(&str, serde_json::Value)]) -> serde_json::Value {
    let mut m = serde_json::Map::new();
    for (k, v) in pairs {
        m.insert(k.to_string(), v.clone());
    }
    serde_json::Value::Object(m)
}

#[test]
fn oauth2_authorization_url() {
    let config = OAuth2Config {
        provider: OAuth2Provider::GitHub,
        client_id: "test_client".into(),
        client_secret: "test_secret".into(),
        redirect_uri: "http://localhost:3000/callback".into(),
        scopes: vec!["user:email".into()],
    };
    let url = config.authorization_url("random_state");
    assert!(url.contains("github.com"));
    assert!(url.contains("test_client"));
    assert!(url.contains("user%3Aemail") || url.contains("user:email"));
}

#[test]
fn url_encode_works() {
    assert_eq!(url_encode("hello world"), "hello+world");
    assert_eq!(url_encode("a@b.com"), "a%40b.com");
}

#[test]
fn authorization_url_in_full() {
    let config = OAuth2Config {
        provider: OAuth2Provider::Custom {
            auth_url: "https://id.example/auth".into(),
            token_url: "https://id.example/token".into(),
            user_url: "https://id.example/me".into(),
        },
        client_id: "c 1".into(),
        client_secret: "s".into(),
        redirect_uri: "http://x/cb".into(),
        scopes: vec!["a".into(), "b".into()],
    };
    assert_eq!(
        config.authorization_url("st"),
        "https://id.example/auth?response_type=code&client_id=c+1&redirect_uri=http%3A%2F%2Fx%2Fcb&scope=a+b&state=st"
    );
    assert_eq!(config.provider.token_url(), "https://id.example/token");
    assert_eq!(OAuth2Provider::Discord.user_url(), "https://discord.com/api/users/@me");
}

#[test]
fn hex_encoding_is_two_lower_digits_per_byte() {
    assert_eq!(hex_encode(&[0x00, 0x0f, 0xab, 0xff]), "000fabff");
}

#[test]
fn password_reset_generate_and_verify() {
    let mut reset = PasswordReset::new("secret");
    let token = reset.generate("user123", 3600);
    assert_eq!(reset.verify(&token), Some("user123".to_string()));
    assert_eq!(reset.consume(&token), Some("user123".to_string()));
    assert_eq!(reset.verify(&token), None);
}

#[test]
fn expired_reset_token_is_not_consumed() {
    let mut reset = PasswordReset::new("secret");
    let token = reset.generate("u", 10);
    assert_eq!(reset.consume_at(&token, u64::MAX), None);
    assert_eq!(reset.verify_at(&token, 0), Some("u".to_string()));
}

#[test]
fn session_store_create_and_get() {
    let mut store = SessionStore::new();
    let id = store.create("user123", claims(&[("role", serde_json::Value::String("admin".into()))]), 3600);
    let session = store.get(&id).unwrap();
    assert_eq!(session.user_id, "user123");
    assert_eq!(session.data["role"], "admin");
    assert_eq!(id.len(), 64);
}

#[test]
fn session_store_delete() {
    let mut store = SessionStore::new();
    let id = store.create("user123", claims(&[]), 3600);
    store.delete(&id);
    assert!(store.get(&id).is_none());
}

#[test]
fn sessions_expire_and_are_cleaned_up() {
    let mut store = SessionStore::new();
    let id = store.create("u", claims(&[]), 5);
    assert!(store.get_at(&id, 0).is_some());
    assert!(store.get_at(&id, u64::MAX).is_none());
    store.cleanup_at(u64::MAX);
    assert!(store.get_at(&id, 0).is_none());
}

#[test]
fn sign_and_verify_jwt() {
    let jwt = JwtService::new("test-secret");
    let c = claims(&[
        ("sub", serde_json::Value::String("user123".into())),
        ("exp", serde_json::Value::from(9999999999u64)),
    ]);
    let token = jwt.sign(&c).unwrap();
    assert!(token.split('.').count() == 3);
    let decoded = jwt.verify_value(&token).unwrap();
    assert_eq!(decoded, c);
}

#[test]
fn rejects_tampered_token() {
    let jwt = JwtService::new("test-secret");
    let c = claims(&[
        ("sub", serde_json::Value::String("user123".into())),
        ("exp", serde_json::Value::from(9999999999u64)),
    ]);
    let token = jwt.sign(&c).unwrap();
    let wrong_jwt = JwtService::new("wrong-secret");
    let result = wrong_jwt.verify_value(&token);
    assert!(result.is_err(), "should reject token signed with different secret");
}

#[test]
fn rejects_expired_token() {
    let jwt = JwtService::new("test-secret");
    let c = claims(&[
        ("sub", serde_json::Value::String("user123".into())),
        ("exp", serde_json::Value::from(1u64)),
    ]);
    let token = jwt.sign(&c).unwrap();
    let result = jwt.verify_value(&token);
    assert!(result.is_err(), "should reject expired token");
}

#[test]
fn rejects_garbage_token() {
    let jwt = JwtService::new("test-secret");
    let result = jwt.verify_value("not.a.valid.token");
    assert!(matches!(result, Err(JwtError::Verify(_))));
}

#[test]
fn verify_value_works() {
    let jwt = JwtService::new("my-secret");
    let c = claims(&[
        ("sub", serde_json::Value::String("alice".into())),
        ("role", serde_json::Value::String("admin".into())),
        ("exp", serde_json::Value::from(9999999999i64)),
    ]);
    let token = jwt.sign(&c).unwrap();
    let decoded = jwt.verify_value(&token).unwrap();
    assert_eq!(decoded["sub"], "alice");
    assert_eq!(decoded["role"], "admin");
}

#[test]
fn jwt_config_defaults_and_roles() {
    let c = JwtConfig::new("s").public_path("/login");
    assert_eq!(c.header_name, "authorization");
    assert_eq!(c.prefix, "Bearer ");
    assert_eq!(c.public_paths, vec!["/login".to_string()]);
    assert!(role_allows("editor", "editor"));
    assert!(role_allows("admin", "editor"));
    assert!(!role_allows("viewer", "editor"));
    assert!(any_role_allows("b", &vec!["a".to_string(), "b".to_string()]));
    assert!(!any_role_allows("c", &vec!["a".to_string()]));
    assert_eq!(JwtError::Verify("x".into()).message(), "JWT verify error: x");
}

#[test]
fn multi_service_hs256_round_trip() {
    let svc = JwtServiceMulti::hs256("secret");
    let c = claims(&[
        ("sub", serde_json::Value::String("alice".into())),
        ("exp", serde_json::Value::from(4_000_000_000u64)),
    ]);
    let token = svc.sign(&c).unwrap();
    let back = svc.verify_value(&token).unwrap();
    assert_eq!(back["sub"], "alice");
    let other = JwtServiceMulti::hs256("another secret");
    assert!(other.verify_value(&token).is_err());
}

#[test]
fn multi_service_refuses_bad_pem() {
    assert!(JwtServiceMulti::rs256("not a key", "not a key").is_err());
    assert!(JwtServiceMulti::es256("not a key", "not a key").is_err());
}

#[test]
fn jwt_check_passes_only_tokens_signed_with_the_secret() {
    let config = JwtConfig::new("test-secret").public_path("/health");
    let public = Request::new(Method::Get, "/health");
    assert!(matches!(config.check(&public), JwtAnswer::Pass));

    let missing = Request::new(Method::Get, "/api");
    match config.check(&missing) {
        JwtAnswer::Unauthorized { message, .. } => assert_eq!(message, "Missing Authorization header"),
        _ => panic!("expected Unauthorized"),
    }

    let c = claims(&[
        ("sub", serde_json::Value::String("u1".into())),
        ("exp", serde_json::Value::from(9999999999u64)),
    ]);
    let good = JwtService::new("test-secret").sign(&c).unwrap();
    let mut ok = Request::new(Method::Get, "/api");
    ok.headers.push(("authorization".to_string(), format!("Bearer {good}")));
    match config.check(&ok) {
        JwtAnswer::PassWithClaims(text) => assert!(text.contains("\"sub\":\"u1\"")),
        _ => panic!("expected PassWithClaims"),
    }

    let forged = JwtService::new("other-secret").sign(&c).unwrap();
    let mut bad = Request::new(Method::Get, "/api");
    bad.headers.push(("authorization".to_string(), format!("Bearer {forged}")));
    match config.check(&bad) {
        JwtAnswer::Unauthorized { message, .. } => assert_eq!(message, "Invalid or expired JWT"),
        _ => panic!("expected Unauthorized"),
    }
}

#[test]
fn jwt_answers_follow_the_check() {
    match jwt_answer(Ok("{\"sub\":\"u1\"}".to_string())) {
        JwtAnswer::PassWithClaims(c) => assert_eq!(c, "{\"sub\":\"u1\"}"),
        _ => panic!("expected PassWithClaims"),
    }
    match jwt_answer(Err("InvalidSignature".to_string())) {
        JwtAnswer::Unauthorized { message, detail, suggestion } => {
            assert_eq!(message, "Invalid or expired JWT");
            assert_eq!(detail, "JWT verify error: InvalidSignature");
            assert_eq!(suggestion, "Ensure your token is valid and not expired.");
        }
        _ => panic!("expected Unauthorized"),
    }
}

#[test]
fn signed_tokens_carry_the_claims_in_their_middle_part() {
    let a = claims(&[("sub", serde_json::Value::String("alice".into())), ("exp", 9999999999u64.into())]);
    let b = claims(&[("sub", serde_json::Value::String("bob".into())), ("exp", 9999999999u64.into())]);
    let one = JwtService::new("k1").sign(&a).unwrap();
    let other = JwtServiceMulti::hs256("k2").sign(&a).unwrap();
    let third = JwtService::new("k1").sign(&b).unwrap();
    let middle = |t: &str| t.split('.').nth(1).unwrap().to_string();
    assert_eq!(middle(&one), middle(&other));
    assert_ne!(middle(&one), middle(&third));
    assert_eq!(JwtServiceMulti::hs256("k2").verify_value(&other).unwrap(), a);
}
