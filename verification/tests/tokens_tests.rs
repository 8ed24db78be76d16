use homesite::headers::Headers;
use homesite::tokens::{is_authorized, password_matches, Tokens, TOKEN_LENGTH, TOKEN_LIFETIME};

#[test]
fn new_has_no_tokens() {
    let t = Tokens::new();
    assert_eq!(t.get("anything"), None);
    assert_eq!(t.get(""), None);
}

#[test]
fn issue_adds_once() {
    let mut t = Tokens::new();
    assert!(t.issue("abc".to_string()));
    assert_eq!(t.get("abc"), Some(()));
    assert!(!t.issue("abc".to_string()));
    assert_eq!(t.get("abd"), None);
}

#[test]
fn token_lives_through_nine_cleanups() {
    let mut t = Tokens::new();
    assert!(t.issue("tok".to_string()));
    for _ in 0..(TOKEN_LIFETIME - 1) {
        t.cleanup();
        assert_eq!(t.get("tok"), Some(()));
    }
    t.cleanup();
    assert_eq!(t.get("tok"), None);
}

#[test]
fn cleanup_keeps_younger_tokens() {
    let mut t = Tokens::new();
    assert!(t.issue("old".to_string()));
    for _ in 0..5 {
        t.cleanup();
    }
    assert!(t.issue("young".to_string()));
    for _ in 0..5 {
        t.cleanup();
    }
    assert_eq!(t.get("old"), None);
    assert_eq!(t.get("young"), Some(()));
}

#[test]
fn new_token_is_fresh_alphanumeric() {
    let mut t = Tokens::new();
    let a = t.new_token();
    let b = t.new_token();
    assert_eq!(a.len(), TOKEN_LENGTH);
    assert!(a.chars().all(|c| c.is_ascii_alphanumeric()));
    assert_ne!(a, b);
    assert_eq!(t.get(&a), Some(()));
    assert_eq!(t.get(&b), Some(()));
}

#[test]
fn login_with_password() {
    let mut t = Tokens::new();
    assert_eq!(t.login(b"wrong", "secret"), None);
    assert_eq!(t.login(b"secre", "secret"), None);
    assert_eq!(t.login(&[0xff, 0xfe], "secret"), None);
    let tok = t.login(b"secret", "secret").unwrap();
    assert_eq!(t.get(&tok), Some(()));
}

#[test]
fn password_comparison() {
    assert!(password_matches("pässwörd".as_bytes(), "pässwörd"));
    assert!(!password_matches(b"", "x"));
    assert!(password_matches(b"", ""));
}

#[test]
fn authorization_by_cookie() {
    let mut t = Tokens::new();
    let tok = t.login(b"pw", "pw").unwrap();
    let mut h = Headers::new();
    assert!(!is_authorized(&h, &t));
    h.set_from_str("Cookie", "token=nope").unwrap();
    assert!(!is_authorized(&h, &t));
    h.set_from_str("Cookie", &format!("theme=x; token={}", tok)).unwrap();
    assert!(is_authorized(&h, &t));
    for _ in 0..TOKEN_LIFETIME {
        t.cleanup();
    }
    assert!(!is_authorized(&h, &t));
}

#[test]
fn token_lifetime_with_other_logins_between() {
    let mut t = Tokens::new();
    let first = t.new_token();
    for _ in 0..(TOKEN_LIFETIME - 1) {
        let _ = t.new_token();
        t.cleanup();
        assert_eq!(t.get(&first), Some(()));
    }
    let _ = t.new_token();
    t.cleanup();
    assert_eq!(t.get(&first), None);
}
