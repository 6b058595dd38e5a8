use home_control_backend::api::auth::{
    access_key, access_key_cookie, bearer_token, password_matches, AuthError, AuthToken, Claims,
    CookieToken,
};
use home_control_backend::text::replace;

#[test]
fn bearer_scheme_in_any_case() {
    assert_eq!(bearer_token(Some("bearer abc")), Ok("abc".to_string()));
    assert_eq!(bearer_token(Some("Bearer abc")), Ok("abc".to_string()));
    assert_eq!(bearer_token(Some("BEARER ")), Ok("".to_string()));
}

#[test]
fn bearer_header_errors() {
    assert_eq!(bearer_token(None), Err(AuthError::NoHeader));
    assert_eq!(bearer_token(Some("Basic abcdef")), Err(AuthError::InvalidHeader));
    assert_eq!(bearer_token(Some("bearer_abc")), Err(AuthError::InvalidHeader));
    assert_eq!(AuthError::NoHeader.message(), "No authorization header");
    assert_eq!(AuthError::InvalidHeader.message(), "Invalid authorization header");
    assert_eq!(AuthError::InvalidToken.message(), "Invalid token");
}

#[test]
fn auth_token_needs_a_valid_token() {
    assert!(AuthToken::from_checks(Ok("t".to_string()), true).is_ok());
    assert_eq!(
        AuthToken::from_checks(Ok("t".to_string()), false).err(),
        Some(AuthError::InvalidToken)
    );
    assert_eq!(AuthToken::from_checks(Err(AuthError::NoHeader), true).err(), Some(AuthError::NoHeader));
}

#[test]
fn access_key_cookie_is_found() {
    assert_eq!(access_key(Some("access_key=tok")), Some("tok".to_string()));
    assert_eq!(access_key(Some("theme=dark;access_key=tok")), Some("tok".to_string()));
    assert_eq!(access_key(Some("theme=dark")), None);
    assert_eq!(access_key(None), None);
    assert!(CookieToken::from_checks(&Some("tok".to_string()), true).authorized);
    assert!(!CookieToken::from_checks(&Some("tok".to_string()), false).authorized);
    assert!(!CookieToken::from_checks(&None, true).authorized);
}

#[test]
fn login_password_check() {
    let stored = "5e884898da28047151d0e56f8dc6292773603d0d6aabbdd62a11ef721d1542d8";
    assert!(password_matches("password", stored));
    assert!(!password_matches("Password", stored));
}

#[test]
fn login_claims_and_cookie() {
    let c = Claims::for_login(1_000);
    assert_eq!(c.sub, "authorized_user");
    assert_eq!(c.exp, 1_000 + 86_400);
    assert_eq!(access_key_cookie("xyz"), "access_key=xyz");
}

#[test]
fn replace_is_left_to_right_without_overlap() {
    assert_eq!(replace("aaa", "aa", "b"), "ba");
    assert_eq!(replace("no match", "{x}", "y"), "no match");
    assert_eq!(replace("", "a", "b"), "");
    assert_eq!(replace("ab", "ab", ""), "");
}

#[test]
fn issued_cookie_comes_back_as_access_key() {
    let token = "eyJhbGciOiJIUzI1NiJ9.e30.c2lnbmF0dXJl";
    let header = access_key_cookie(token);
    assert_eq!(access_key(Some(&header)), Some(token.to_string()));
}
