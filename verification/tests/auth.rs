use http::HeaderMap;

use webdav_server::auth::{extract_basic_auth, AuthError, Credentials};
use webdav_server::commands::{authorize, verify_credentials};

#[test]
fn test_valid_basic_auth() {
    let mut headers = HeaderMap::new();
    // "user:pass" in base64
    headers.insert("authorization", "Basic dXNlcjpwYXNz".parse().unwrap());

    let creds = extract_basic_auth(&headers).unwrap();
    assert_eq!(creds.username, "user");
    assert_eq!(creds.password, "pass");
}

#[test]
fn test_missing_auth_header() {
    let headers = HeaderMap::new();
    assert!(matches!(
        extract_basic_auth(&headers),
        Err(AuthError::Missing)
    ));
}

#[test]
fn test_password_with_colon() {
    let mut headers = HeaderMap::new();
    // "user:pass:word" in base64
    headers.insert(
        "authorization",
        "Basic dXNlcjpwYXNzOndvcmQ=".parse().unwrap(),
    );

    let creds = extract_basic_auth(&headers).unwrap();
    assert_eq!(creds.username, "user");
    assert_eq!(creds.password, "pass:word");
}

#[test]
fn test_empty_password() {
    let mut headers = HeaderMap::new();
    // "user:" in base64
    headers.insert("authorization", "Basic dXNlcjo=".parse().unwrap());

    let creds = extract_basic_auth(&headers).unwrap();
    assert_eq!(creds.username, "user");
    assert_eq!(creds.password, "");
}

#[test]
fn test_invalid_base64() {
    let mut headers = HeaderMap::new();
    headers.insert("authorization", "Basic !!!invalid!!!".parse().unwrap());

    // This should fail to parse
    assert!(extract_basic_auth(&headers).is_err());
}

#[test]
fn present_but_undecodable_header_is_invalid() {
    let mut headers = HeaderMap::new();
    headers.insert("authorization", "Basic !!!invalid!!!".parse().unwrap());
    assert!(matches!(extract_basic_auth(&headers), Err(AuthError::Invalid)));
    let mut headers = HeaderMap::new();
    // "nocolon" in base64: no ':' separates user and password
    headers.insert("authorization", "Basic bm9jb2xvbg==".parse().unwrap());
    assert!(matches!(extract_basic_auth(&headers), Err(AuthError::Invalid)));
}

#[test]
fn other_scheme_is_invalid_credentials() {
    let mut headers = HeaderMap::new();
    headers.insert("authorization", "Bearer abc".parse().unwrap());
    assert!(matches!(extract_basic_auth(&headers), Err(AuthError::Invalid)));
}

fn creds(u: &str, p: &str) -> Credentials {
    Credentials { username: u.to_string(), password: p.to_string() }
}

#[test]
fn credentials_must_match_both_parts() {
    assert!(verify_credentials(&creds("ryan", "1234"), "ryan", "1234"));
    assert!(!verify_credentials(&creds("ryan", "1235"), "ryan", "1234"));
    assert!(!verify_credentials(&creds("ryann", "1234"), "ryan", "1234"));
    assert!(!verify_credentials(&creds("", ""), "ryan", "1234"));
    assert!(verify_credentials(&creds("", ""), "", ""));
}

#[test]
fn authorize_answers_missing_and_wrong_credentials() {
    let missing: Result<Credentials, AuthError> = Err(AuthError::Missing);
    let r = authorize(&missing, "u", "p").unwrap();
    assert_eq!(r.status, 401);
    assert_eq!(r.body, "Unauthorized");
    assert_eq!(r.www_authenticate.as_deref(), Some("Basic realm=\"WebDAV\""));

    let wrong: Result<Credentials, AuthError> = Ok(creds("u", "x"));
    let r = authorize(&wrong, "u", "p").unwrap();
    assert_eq!(r.status, 401);
    assert_eq!(r.body, "Invalid credentials");
    assert_eq!(r.www_authenticate.as_deref(), Some("Basic realm=\"WebDAV\""));

    let right: Result<Credentials, AuthError> = Ok(creds("u", "p"));
    assert!(authorize(&right, "u", "p").is_none());
}
