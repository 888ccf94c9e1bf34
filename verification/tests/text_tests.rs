use tubesub::auth::OAuthManager;
use tubesub::text::{chars_of, is_whitespace_char};

#[test]
fn whitespace_is_what_std_calls_whitespace() {
    for c in (0u32..=0x10FFFF).filter_map(char::from_u32) {
        assert_eq!(is_whitespace_char(c), c.is_whitespace(), "{:?}", c);
    }
}

#[test]
fn chars_of_keeps_every_character() {
    assert_eq!(chars_of("añ\u{3000}z"), vec!['a', 'ñ', '\u{3000}', 'z']);
    assert!(chars_of("").is_empty());
}

#[test]
fn consent_page_and_token_form_share_the_redirect_uri() {
    let m = OAuthManager::with_config_dir("/c".to_string(), "id".to_string(), "secret".to_string());
    let url = m.get_auth_url();
    assert!(url.contains("&redirect_uri=http://localhost:8080/callback&"));
    let form = m.token_form("c");
    assert_eq!(form[3], ("redirect_uri".to_string(), "http://localhost:8080/callback".to_string()));
}
