//! The configuration: defaults, the list of origins, the start-up checks.

use email_signer::config::{is_whitespace, parse_origins, ServiceConfig};
use email_signer::error::ConfigurationError;

fn some(text: &str) -> Option<String> {
    Some(text.to_string())
}

fn defaults() -> ServiceConfig {
    ServiceConfig::from_environment(None, None, None, None, some("key.der")).unwrap()
}

fn with_origin(origin: &str) -> ServiceConfig {
    ServiceConfig::from_environment(None, None, None, some(origin), some("key.der")).unwrap()
}

#[test]
fn defaults_when_nothing_is_set() {
    let config = defaults();
    assert_eq!(config.bind_to(), "0.0.0.0");
    assert_eq!(config.port(), "8888");
    assert_eq!(config.log_level(), "info");
    assert_eq!(config.allowed_origins(), &vec!["*".to_string()]);
    assert_eq!(config.key_path(), "key.der");
    assert_eq!(config.bind_address(), "0.0.0.0:8888");
    assert!(config.allows_any_origin());
}

#[test]
fn environment_overrides_defaults() {
    let config = ServiceConfig::from_environment(
        some("127.0.0.1"),
        some("9000"),
        some("debug"),
        some("https://a.example"),
        some("/etc/signer/key.der"),
    )
    .unwrap();
    assert_eq!(config.bind_to(), "127.0.0.1");
    assert_eq!(config.port(), "9000");
    assert_eq!(config.log_level(), "debug");
    assert_eq!(config.allowed_origins(), &vec!["https://a.example".to_string()]);
    assert_eq!(config.key_path(), "/etc/signer/key.der");
    assert_eq!(config.bind_address(), "127.0.0.1:9000");
    assert!(!config.allows_any_origin());
}

#[test]
fn empty_settings_are_kept_as_they_are() {
    let config =
        ServiceConfig::from_environment(some(""), some(""), some(""), some(""), some("")).unwrap();
    assert_eq!(config.bind_to(), "");
    assert_eq!(config.port(), "");
    assert_eq!(config.log_level(), "");
    assert_eq!(config.allowed_origins(), &vec![String::new()]);
    assert_eq!(config.key_path(), "");
    assert_eq!(config.bind_address(), ":");
}

#[test]
fn missing_key_path_is_fatal() {
    let outcome = ServiceConfig::from_environment(some("127.0.0.1"), None, None, None, None);
    assert_eq!(outcome, Err(ConfigurationError::MissingKeyPath));
    assert_eq!(ConfigurationError::MissingKeyPath.exit_code(), 1);
}

#[test]
fn missing_key_file_is_fatal() {
    let config = defaults();
    assert_eq!(config.confirm_key_file(false), Err(ConfigurationError::KeyFileNotFound));
    assert_eq!(ConfigurationError::KeyFileNotFound.exit_code(), 1);
}

#[test]
fn present_key_file_gives_the_store() {
    let config = ServiceConfig::from_environment(None, None, None, None, some("certs/key.der"))
        .unwrap();
    let store = config.confirm_key_file(true).unwrap();
    assert_eq!(store.path(), "certs/key.der");
}

#[test]
fn origins_are_split_and_trimmed() {
    assert_eq!(
        parse_origins("https://a.example, https://b.example ,\thttps://c.example\n"),
        vec!["https://a.example", "https://b.example", "https://c.example"]
    );
    assert_eq!(parse_origins("*"), vec!["*"]);
    assert_eq!(parse_origins(" * "), vec!["*"]);
    assert_eq!(parse_origins(""), vec![""]);
    assert_eq!(parse_origins("   "), vec![""]);
    assert_eq!(parse_origins(","), vec!["", ""]);
    assert_eq!(parse_origins("a,,b"), vec!["a", "", "b"]);
    assert_eq!(parse_origins("a,"), vec!["a", ""]);
    assert_eq!(parse_origins(",a"), vec!["", "a"]);
    assert_eq!(parse_origins("a b , c d"), vec!["a b", "c d"]);
}

#[test]
fn origins_are_trimmed_of_unicode_white_space() {
    assert_eq!(
        parse_origins("\u{a0}https://a.example\u{3000},\u{2003}ünïcode\u{2028}"),
        vec!["https://a.example", "ünïcode"]
    );
    // A zero-width space is no white space.
    assert_eq!(parse_origins("\u{200b}a\u{200b}"), vec!["\u{200b}a\u{200b}"]);
}

#[test]
fn origins_match_split_and_trim_of_std() {
    let inputs = [
        "*",
        "",
        ",",
        ",,",
        " , ",
        "a",
        " a",
        "a ",
        " a , b ",
        "https://a.example,https://b.example",
        "https://a.example , https://b.example,",
        "\t\n x \r\n,\u{85}y\u{1680},z\u{205f}\u{202f}",
        "é,ü , 日本語 ,",
        "a,b,c,d,e,f,g,h",
        "  ,  ,  ",
    ];
    for input in inputs {
        let expected: Vec<String> = input.split(',').map(|s| s.trim().to_string()).collect();
        assert_eq!(parse_origins(input), expected, "{:?}", input);
    }
}

#[test]
fn white_space_is_that_of_std_for_every_char() {
    let mut count = 0;
    for code in 0..=0x10ffffu32 {
        if let Some(c) = char::from_u32(code) {
            assert_eq!(is_whitespace(c), c.is_whitespace(), "U+{:04X}", code);
            if is_whitespace(c) {
                count += 1;
            }
        }
    }
    assert_eq!(count, 25);
}

#[test]
fn only_a_lone_star_admits_any_origin() {
    assert!(with_origin("*").allows_any_origin());
    assert!(with_origin(" * ").allows_any_origin());
    assert!(!with_origin("*,*").allows_any_origin());
    assert!(!with_origin("*,https://a.example").allows_any_origin());
    assert!(!with_origin("https://a.example").allows_any_origin());
    assert!(!with_origin("**").allows_any_origin());
    assert!(!with_origin("").allows_any_origin());
    assert!(!with_origin("x").allows_any_origin());
    assert!(!with_origin("*,").allows_any_origin());
}

#[test]
fn allow_list_keeps_order_and_duplicates() {
    let config = with_origin("https://b.example,https://a.example,https://b.example");
    assert_eq!(
        config.allowed_origins(),
        &vec![
            "https://b.example".to_string(),
            "https://a.example".to_string(),
            "https://b.example".to_string()
        ]
    );
}
