use sw_api::access::{Access, Claims};
use sw_api::policy::{authenticate, verify_admin, verify_view, Unauthorized};
use sw_api::token::TokenProvider;

fn provider() -> TokenProvider {
    TokenProvider { private_key: "a process-wide signing key".to_string() }
}

fn claims(access: Access) -> Claims {
    Claims { sub: "user-1".to_string(), access }
}

#[test]
fn test_create_verify_round_trip_admin() {
    let tokens = provider();
    let token = tokens.create_token("user-1", Access::Admin);
    let claims = tokens.verify_token(&token).unwrap();
    assert_eq!(claims.sub, "user-1");
    assert!(matches!(claims.access, Access::Admin));
}

#[test]
fn test_create_verify_round_trip_view() {
    let tokens = provider();
    let token = tokens.create_token("user-2", Access::View);
    let claims = tokens.verify_token(&token).unwrap();
    assert_eq!(claims.sub, "user-2");
    assert!(matches!(claims.access, Access::View));
}

#[test]
fn test_round_trip_awkward_subject() {
    // Quotes, backslashes and control characters in the subject survive the
    // claims document unchanged.
    let tokens = provider();
    let sub = "we\"ird\\id\nwith\tcontrol\u{1f}bytes and snowmen \u{2603}";
    let token = tokens.create_token(sub, Access::View);
    let claims = tokens.verify_token(&token).unwrap();
    assert_eq!(claims.sub, sub);
}

#[test]
fn test_token_exact_known_value() {
    // The full pipeline pinned against an independently computed token:
    // HS256 over `{"alg":"HS256","typ":"JWT"}` and
    // `{"sub":"user-1","access":"Admin"}` under the key `test signing key`.
    let tokens = TokenProvider { private_key: "test signing key".to_string() };
    let token = tokens.create_token("user-1", Access::Admin);
    assert_eq!(
        token,
        "eyJhbGciOiJIUzI1NiIsInR5cCI6IkpXVCJ9.\
         eyJzdWIiOiJ1c2VyLTEiLCJhY2Nlc3MiOiJBZG1pbiJ9.\
         2kZkhs0TA7NqCOeWBljGUnN1LGMM8SYM6dhLqStXnpM"
    );
}

#[test]
fn test_token_shape() {
    // Three dot-separated parts, everything else in the URL-safe base64
    // alphabet.
    let tokens = provider();
    let token = tokens.create_token("user-1", Access::Admin);
    assert_eq!(token.chars().filter(|c| *c == '.').count(), 2);
    assert!(token
        .chars()
        .all(|c| c == '.' || c.is_ascii_alphanumeric() || c == '-' || c == '_'));
}

#[test]
fn test_last_character_replaced_fails() {
    let tokens = provider();
    let token = tokens.create_token("user-1", Access::Admin);
    let mut tampered: String = token.chars().collect();
    let last = tampered.pop().unwrap();
    tampered.push(if last == 'A' { 'B' } else { 'A' });
    assert!(tokens.verify_token(&tampered).is_err());
}

#[test]
fn test_any_single_character_flip_fails() {
    let tokens = provider();
    let token = tokens.create_token("user-1", Access::Admin);
    let chars: Vec<char> = token.chars().collect();
    for i in 0..chars.len() {
        let mut flipped = chars.clone();
        flipped[i] = if chars[i] == 'A' { 'B' } else { 'A' };
        let tampered: String = flipped.into_iter().collect();
        assert!(tokens.verify_token(&tampered).is_err(), "flip at {} verified", i);
    }
}

#[test]
fn test_wrong_key_fails() {
    let tokens = provider();
    let token = tokens.create_token("user-1", Access::Admin);
    let other = TokenProvider { private_key: "another key".to_string() };
    assert!(other.verify_token(&token).is_err());
}

#[test]
fn test_garbage_tokens_fail_not_panic() {
    let tokens = provider();
    for bad in ["", ".", "..", "...", "a.b", "a.b.c", "not a token at all", "\u{2603}.\u{2603}.\u{2603}"] {
        assert!(tokens.verify_token(bad).is_err());
    }
}

#[test]
fn test_authenticate_no_header_is_anonymous() {
    let tokens = provider();
    let state = authenticate(&tokens, None).unwrap();
    assert!(state.is_none());
}

#[test]
fn test_authenticate_bearer_header() {
    let tokens = provider();
    let token = tokens.create_token("user-1", Access::View);
    let header = format!("Bearer {}", token);
    let state = authenticate(&tokens, Some(&header)).unwrap();
    let claims = state.unwrap();
    assert_eq!(claims.sub, "user-1");
    assert!(matches!(claims.access, Access::View));
}

#[test]
fn test_authenticate_bare_token_header() {
    // Without the scheme marker the header value is taken as the token itself.
    let tokens = provider();
    let token = tokens.create_token("user-1", Access::View);
    let state = authenticate(&tokens, Some(&token)).unwrap();
    assert_eq!(state.unwrap().sub, "user-1");
}

#[test]
fn test_authenticate_invalid_header_rejects() {
    // A present but garbled header rejects the request outright; it is not
    // downgraded to anonymous.
    let tokens = provider();
    assert!(authenticate(&tokens, Some("Bearer garbage")).is_err());
}

#[test]
fn test_verify_view_guard() {
    assert!(verify_view(&Some(claims(Access::View))).is_ok());
    assert!(verify_view(&Some(claims(Access::Admin))).is_ok());
    assert_eq!(verify_view(&None), Err(Unauthorized));
}

#[test]
fn test_verify_admin_guard() {
    assert!(verify_admin(&Some(claims(Access::Admin))).is_ok());
    assert_eq!(verify_admin(&Some(claims(Access::View))), Err(Unauthorized));
    assert_eq!(verify_admin(&None), Err(Unauthorized));
}
