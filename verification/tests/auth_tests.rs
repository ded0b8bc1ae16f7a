use cursor_api::auth_route::{request_token, route_token, strip_prefix, AuthRoute};
use cursor_api::token::{Randomness, TokenKey, UserId};

#[test]
fn admin_tokens_routed() {
    assert!(matches!(route_token("admin", "admin", false, false), AuthRoute::Admin));
    match route_token("admin-work", "admin", true, true) {
        AuthRoute::AdminAlias(alias) => assert_eq!(alias, "work"),
        _ => panic!("expected an alias"),
    }
    assert!(matches!(route_token("adminx", "admin", true, true), AuthRoute::Unauthorized));
}

#[test]
fn other_tokens_routed() {
    assert!(matches!(route_token("shared", "admin", true, false), AuthRoute::Share));
    assert!(matches!(route_token("whatever", "admin", false, true), AuthRoute::Dynamic));
    assert!(matches!(route_token("whatever", "admin", false, false), AuthRoute::Unauthorized));

    let key = TokenKey { user_id: UserId::from_bytes([7u8; 16]), randomness: Randomness::from_bytes([9u8; 8]) };
    let text = key.to_string();
    match route_token(&text, "admin", false, false) {
        AuthRoute::Key(k) => assert_eq!(k, key),
        _ => panic!("expected a key"),
    }
}

#[test]
fn request_tokens_from_headers() {
    assert_eq!(request_token(Some(b"key-1"), Some(b"Bearer other"), "Bearer "), Some("key-1".to_string()));
    assert_eq!(request_token(None, Some(b"Bearer tok"), "Bearer "), Some("tok".to_string()));
    assert_eq!(request_token(None, Some(b"Basic tok"), "Bearer "), None);
    // an API key that is not visible ASCII gives way to the authorization header
    assert_eq!(request_token(Some(b"k\x01"), Some(b"Bearer tok"), "Bearer "), Some("tok".to_string()));
    assert_eq!(request_token(Some(b"k\x7f"), None, "Bearer "), None);
    assert_eq!(request_token(Some(b"a\tb"), None, "Bearer "), Some("a\tb".to_string()));
    assert_eq!(strip_prefix("héllo", "hé"), Some("llo"));
    assert_eq!(strip_prefix("hé", "héllo"), None);
}
