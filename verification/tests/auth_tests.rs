use tubesub::auth::{extract_code, AuthError, OAuthManager, TokenData, TokenGrant};

fn manager() -> OAuthManager {
    OAuthManager::with_config_dir(
        "/home/alice/.config/tubesub".to_string(),
        "my-client".to_string(),
        "s3cret".to_string(),
    )
}

#[test]
fn extract_code_reads_the_code_of_the_callback() {
    assert_eq!(extract_code("GET /callback?code=abc123 HTTP/1.1"), Some("abc123".to_string()));
}

#[test]
fn extract_code_stops_at_the_next_parameter() {
    let line = "GET /callback?code=4/0AQlEd8x&scope=https://www.googleapis.com/auth/youtube.force-ssl HTTP/1.1\r\n";
    assert_eq!(extract_code(line), Some("4/0AQlEd8x".to_string()));
}

#[test]
fn extract_code_finds_a_later_code_parameter() {
    assert_eq!(extract_code("GET /cb?state=xyz&code=q HTTP/1.1"), Some("q".to_string()));
}

#[test]
fn extract_code_keeps_everything_after_the_first_equals_sign() {
    assert_eq!(extract_code("GET /cb?code=a=b HTTP/1.1"), Some("a=b".to_string()));
}

#[test]
fn extract_code_accepts_an_empty_code() {
    assert_eq!(extract_code("GET /cb?code= HTTP/1.1"), Some(String::new()));
}

#[test]
fn extract_code_skips_any_white_space() {
    assert_eq!(extract_code("  GET\t\t/cb?code=z"), Some("z".to_string()));
    assert_eq!(extract_code("GET\u{3000}/cb?code=w\u{3000}HTTP/1.1"), Some("w".to_string()));
}

#[test]
fn extract_code_without_a_code_gives_none() {
    assert_eq!(extract_code("GET /callback?error=access_denied HTTP/1.1"), None);
    assert_eq!(extract_code("GET /cb?codex=1 HTTP/1.1"), None);
    assert_eq!(extract_code("GET /cb?code HTTP/1.1"), None);
}

#[test]
fn extract_code_without_a_query_gives_none() {
    assert_eq!(extract_code("GET /favicon.ico HTTP/1.1"), None);
}

#[test]
fn extract_code_without_a_target_gives_none() {
    assert_eq!(extract_code("GET"), None);
    assert_eq!(extract_code(""), None);
    assert_eq!(extract_code("   \r\n"), None);
}

#[test]
fn extract_code_looks_only_at_the_second_word() {
    assert_eq!(extract_code("/cb?code=first GET HTTP/1.1"), None);
}

#[test]
fn auth_url_names_the_client_and_the_callback() {
    assert_eq!(
        manager().get_auth_url(),
        "https://accounts.google.com/o/oauth2/auth?client_id=my-client&redirect_uri=http://localhost:8080/callback&response_type=code&scope=https://www.googleapis.com/auth/youtube.force-ssl&access_type=offline&prompt=consent"
    );
}

#[test]
fn token_path_is_in_the_config_dir() {
    assert_eq!(manager().token_path(), "/home/alice/.config/tubesub/token.json");
    let m = OAuthManager::with_config_dir("/tmp/x/".to_string(), "a".to_string(), "b".to_string());
    assert_eq!(m.token_path(), "/tmp/x/token.json");
}

#[test]
fn manager_keeps_what_it_was_given() {
    let m = manager();
    assert_eq!(m.config_dir(), "/home/alice/.config/tubesub");
    assert_eq!(m.client_id(), "my-client");
}

#[test]
fn token_form_carries_code_and_client() {
    let form = manager().token_form("the-code");
    let expected: Vec<(String, String)> = vec![
        ("code".to_string(), "the-code".to_string()),
        ("client_id".to_string(), "my-client".to_string()),
        ("client_secret".to_string(), "s3cret".to_string()),
        ("redirect_uri".to_string(), "http://localhost:8080/callback".to_string()),
        ("grant_type".to_string(), "authorization_code".to_string()),
    ];
    assert_eq!(form, expected);
}

#[test]
fn token_from_grant_computes_the_expiry() {
    let grant = TokenGrant {
        access_token: Some("ya29.token".to_string()),
        refresh_token: Some("1//refresh".to_string()),
        expires_in: Some(3599),
    };
    let token = TokenData::from_grant(grant, 1_700_000_000).unwrap();
    assert_eq!(token.access_token, "ya29.token");
    assert_eq!(token.refresh_token, Some("1//refresh".to_string()));
    assert_eq!(token.expires_at, Some(1_700_003_599));
}

#[test]
fn token_from_grant_without_lifetime_has_no_expiry() {
    let grant = TokenGrant { access_token: Some("t".to_string()), refresh_token: None, expires_in: None };
    let token = TokenData::from_grant(grant, 5).unwrap();
    assert_eq!(token.refresh_token, None);
    assert_eq!(token.expires_at, None);
}

#[test]
fn token_from_grant_without_access_token_fails() {
    let grant = TokenGrant { access_token: None, refresh_token: Some("r".to_string()), expires_in: Some(10) };
    assert!(matches!(TokenData::from_grant(grant, 5), Err(AuthError::NoAccessToken)));
}

#[test]
fn token_from_grant_without_access_token_needs_no_expiry_sum() {
    let grant = TokenGrant { access_token: None, refresh_token: None, expires_in: Some(u64::MAX) };
    assert!(matches!(TokenData::from_grant(grant, 1_700_000_000), Err(AuthError::NoAccessToken)));
}
