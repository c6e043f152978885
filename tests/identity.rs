use ephemeral_notes::identity::{cookie_value, parse_cookie_header, token_from_header, Identity};

#[test]
fn request_without_cookie_gets_fresh_token() {
    let id = Identity::resolve(None);
    assert!(id.minted);
    assert_eq!(id.token.chars().count(), 36);
    let line = id.set_cookie(false).unwrap();
    assert_eq!(line, format!("user_id={}; HttpOnly; Path=/", id.token));
}

#[test]
fn fresh_tokens_differ_between_requests() {
    let a = Identity::resolve(None);
    let b = Identity::resolve(Some("other=1"));
    assert!(a.minted && b.minted);
    assert_ne!(a.token, b.token);
}

#[test]
fn carried_token_is_echoed() {
    let id = Identity::resolve(Some("user_id=4b1c-token"));
    assert!(!id.minted);
    assert_eq!(id.token, "4b1c-token");
    assert_eq!(id.set_cookie(false), None);
    assert_eq!(
        id.set_cookie(true),
        Some("user_id=4b1c-token; HttpOnly; Path=/".to_string())
    );
}

#[test]
fn malformed_fragments_are_skipped() {
    let h = "garbage; ;=x; theme=dark;  user_id = tok ";
    assert_eq!(token_from_header(Some(h)), Some("tok".to_string()));
    let pairs = parse_cookie_header(h);
    assert_eq!(
        pairs,
        vec![
            ("theme".to_string(), "dark".to_string()),
            ("user_id".to_string(), "tok".to_string())
        ]
    );
}

#[test]
fn later_duplicate_wins() {
    let id = Identity::resolve(Some("user_id=first; user_id=second"));
    assert_eq!(id.token, "second");
    assert!(!id.minted);
}

#[test]
fn empty_identity_cookie_mints() {
    let id = Identity::resolve(Some("user_id="));
    assert!(id.minted);
    assert_eq!(id.token.chars().count(), 36);
    assert!(Identity::resolve(Some("")).minted);
}

#[test]
fn quoted_value_is_unquoted() {
    let pairs = parse_cookie_header("a=\"quoted\"");
    assert_eq!(pairs, vec![("a".to_string(), "quoted".to_string())]);
    assert_eq!(cookie_value(&pairs, &"a".to_string()), Some("quoted".to_string()));
    assert_eq!(cookie_value(&pairs, &"b".to_string()), None);
}

#[test]
fn resolve_with_uses_given_fresh_token() {
    let id = Identity::resolve_with(None, "fresh".to_string());
    assert!(id.minted);
    assert_eq!(id.token, "fresh");
    let id = Identity::resolve_with(Some("user_id=kept"), "fresh".to_string());
    assert!(!id.minted);
    assert_eq!(id.token, "kept");
}

#[test]
fn minted_token_round_trips() {
    let first = Identity::resolve(None);
    let header = format!("user_id={}", first.token);
    let second = Identity::resolve(Some(&header));
    assert!(!second.minted);
    assert_eq!(second.token, first.token);
    assert_eq!(second.set_cookie(false), None);
}
