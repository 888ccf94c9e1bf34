use tubesub::paths::Credentials;
use tubesub::screens::{startup_screen, Screen};

fn creds(id: Option<&str>, secret: Option<&str>) -> Credentials {
    Credentials { client_id: id.map(|s| s.to_string()), client_secret: secret.map(|s| s.to_string()) }
}

#[test]
fn incomplete_credentials_open_the_setup_page() {
    assert_eq!(startup_screen(&creds(None, Some("s")), true), Screen::Setup);
    assert_eq!(startup_screen(&creds(Some(""), Some("s")), false), Screen::Setup);
}

#[test]
fn a_saved_token_opens_the_videos() {
    assert_eq!(startup_screen(&creds(Some("id"), Some("s")), true), Screen::Videos);
}

#[test]
fn without_token_the_signed_out_page_offers_sign_in() {
    let s = startup_screen(&creds(Some("id"), Some("s")), false);
    assert_eq!(s, Screen::SignIn);
    assert_eq!(s.page_name(), "auth");
    assert_eq!(Screen::Setup.page_name(), "setup");
    assert_eq!(Screen::Videos.page_name(), "videos");
}
