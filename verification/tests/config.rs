use blowup::config::Config;
use blowup::config_cmd::parse_key;
use blowup::error::{ConfigCmdError, DownloadError};

#[test]
fn config_default_config_has_sane_values() {
    let cfg = Config::default();
    assert_eq!(cfg.tools.aria2c, "aria2c");
    assert_eq!(cfg.tools.alass, "alass");
    assert_eq!(cfg.tools.ffmpeg, "ffmpeg");
    assert_eq!(cfg.search.rate_limit_secs, 5);
    assert_eq!(cfg.subtitle.default_lang, "zh");
}

#[test]
fn cli_config_default_config_has_sane_values() {
    let cfg = blowup::cli_config::Config::default();
    assert_eq!(cfg.tools.aria2c, "aria2c");
    assert_eq!(cfg.tools.alass, "alass");
    assert_eq!(cfg.search.rate_limit_secs, 5);
    assert_eq!(cfg.subtitle.default_lang, "zh");
}

#[test]
fn tmdb_default_api_key_is_empty() {
    let cfg = Config::default();
    assert_eq!(cfg.tmdb.api_key, "");
}

#[test]
fn library_default_contains_blowup() {
    let cfg = Config::default();
    assert!(cfg.library.root_dir.contains("blowup"));
}

#[test]
fn config_cmd_error_invalid_format_display() {
    let e = ConfigCmdError::InvalidKeyFormat("noDot".to_string());
    assert!(e.to_string().contains("section.field"));
}

#[test]
fn parse_key_valid() {
    let (section, field) = parse_key("omdb.api_key").unwrap();
    assert_eq!(section, "omdb");
    assert_eq!(field, "api_key");
}

#[test]
fn parse_key_no_dot_returns_error() {
    let err = parse_key("omdbapi_key").unwrap_err();
    assert!(matches!(err, ConfigCmdError::InvalidKeyFormat(_)));
}

#[test]
fn parse_key_unknown_returns_error() {
    let err = parse_key("foo.bar").unwrap_err();
    assert!(matches!(err, ConfigCmdError::UnknownKey(_)));
}

#[test]
fn parse_key_empty_parts_are_invalid() {
    assert!(matches!(parse_key(".api_key"), Err(ConfigCmdError::InvalidKeyFormat(_))));
    assert!(matches!(parse_key("omdb."), Err(ConfigCmdError::InvalidKeyFormat(_))));
    assert!(matches!(parse_key("tools.aria2c.x"), Err(ConfigCmdError::UnknownKey(_))));
    let (s, f) = parse_key("opensubtitles.api_key").unwrap();
    assert_eq!((s, f), ("opensubtitles", "api_key"));
}

#[test]
fn download_error_display() {
    let e = DownloadError::Aria2cNotFound;
    assert_eq!(e.to_string(), "aria2c not found in PATH");
}

#[test]
fn error_messages() {
    assert_eq!(DownloadError::Aria2cFailed("x".to_string()).to_string(), "aria2c failed: x");
    assert_eq!(
        ConfigCmdError::UnknownKey("a.b".to_string()).to_string(),
        "Unknown config key: 'a.b'"
    );
    assert_eq!(
        ConfigCmdError::TomlParse("bad".to_string()).to_string(),
        "TOML parse error: bad"
    );
    let io = std::io::Error::new(std::io::ErrorKind::Other, "boom");
    assert_eq!(ConfigCmdError::Io(io).to_string(), "IO error: boom");
}

#[test]
fn tmdb_key_is_known() {
    assert_eq!(parse_key("tmdb.api_key").unwrap(), ("tmdb", "api_key"));
}
