use tubesub::auth::OAuthManager;
use tubesub::paths::{app_dir_in, AppConfig, ConfigError, Credentials};
use tubesub::subtitle::is_srt_path;

#[test]
fn app_dir_is_tubesub_under_the_config_dir() {
    assert_eq!(app_dir_in(Some("/home/alice/.config".to_string())), Ok("/home/alice/.config/tubesub".to_string()));
    assert_eq!(app_dir_in(Some("/home/alice/.config/".to_string())), Ok("/home/alice/.config/tubesub".to_string()));
}

#[test]
fn app_dir_without_config_dir_fails() {
    assert_eq!(app_dir_in(None), Err(ConfigError::NoConfigDir));
}

#[test]
fn credentials_live_in_the_config_dir() {
    let config = AppConfig { config_dir: "/home/alice/.config/tubesub".to_string() };
    assert_eq!(config.credentials_path(), "/home/alice/.config/tubesub/credentials.json");
}

#[test]
fn credentials_need_both_entries() {
    assert!(Credentials::from_entries("id".to_string(), String::new()).is_none());
    assert!(Credentials::from_entries(String::new(), "secret".to_string()).is_none());
    let c = Credentials::from_entries("id".to_string(), "secret".to_string()).unwrap();
    assert_eq!(c.client_id, Some("id".to_string()));
    assert_eq!(c.client_secret, Some("secret".to_string()));
    assert!(c.has_valid_credentials());
}

#[test]
fn credentials_with_a_gap_are_not_valid() {
    let c = Credentials { client_id: Some("id".to_string()), client_secret: None };
    assert!(!c.has_valid_credentials());
    let c = Credentials { client_id: Some(String::new()), client_secret: Some("s".to_string()) };
    assert!(!c.has_valid_credentials());
}

#[test]
fn only_srt_files_are_taken() {
    assert!(is_srt_path("/home/alice/subs/episode 1.srt"));
    assert!(is_srt_path(".srt"));
    assert!(!is_srt_path("/home/alice/subs/episode.vtt"));
    assert!(!is_srt_path("/home/alice/subs/episode.SRT"));
    assert!(!is_srt_path("srt"));
    assert!(!is_srt_path(""));
}

#[test]
fn token_and_credentials_share_one_directory() {
    let dir = app_dir_in(Some("/home/bob/.config".to_string())).unwrap();
    let config = AppConfig { config_dir: dir.clone() };
    let m = OAuthManager::with_config_dir(dir, "id".to_string(), "s".to_string());
    assert_eq!(m.token_path(), "/home/bob/.config/tubesub/token.json");
    assert_eq!(config.credentials_path(), "/home/bob/.config/tubesub/credentials.json");
}

#[test]
fn an_empty_directory_gives_the_bare_file_name() {
    let config = AppConfig { config_dir: String::new() };
    assert_eq!(config.credentials_path(), "credentials.json");
}
