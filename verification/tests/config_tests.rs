use greeter::config::{
    eq_ignore_ascii_case, parse_bool, parse_u16, use_json_logs, Config, DEFAULT_GRPC_PORT,
    DEFAULT_HTTP_PORT,
};

#[test]
fn parse_u16_accepts_plain_and_plus_signed_digits() {
    assert_eq!(parse_u16("3000"), Some(3000));
    assert_eq!(parse_u16("+42"), Some(42));
    assert_eq!(parse_u16("0"), Some(0));
    assert_eq!(parse_u16("00080"), Some(80));
    assert_eq!(parse_u16("65535"), Some(65535));
}

#[test]
fn parse_u16_rejects_what_str_parse_rejects() {
    for bad in ["", "+", "-1", "-0", "65536", "70000", " 80", "80 ", "8a", "++1", "1_000", "٣"] {
        assert_eq!(parse_u16(bad), None, "input {bad:?}");
        assert_eq!(bad.parse::<u16>().ok(), None, "input {bad:?}");
    }
}

#[test]
fn parse_u16_agrees_with_std_on_samples() {
    for s in ["1", "12", "+65535", "99999", "050051", "+", "", "4294967296", "3000"] {
        assert_eq!(parse_u16(s), s.parse::<u16>().ok(), "input {s:?}");
    }
}

#[test]
fn parse_bool_accepts_exactly_true_and_false() {
    assert_eq!(parse_bool("true"), Some(true));
    assert_eq!(parse_bool("false"), Some(false));
    assert_eq!(parse_bool("True"), None);
    assert_eq!(parse_bool("1"), None);
    assert_eq!(parse_bool(""), None);
    assert_eq!(parse_bool(" true"), None);
}

#[test]
fn from_vars_uses_defaults_when_unset() {
    let config = Config::from_vars(None, None, None, None);
    assert_eq!(config.grpc_port, 50051);
    assert_eq!(config.http_port, 3000);
    assert_eq!(DEFAULT_GRPC_PORT, 50051);
    assert_eq!(DEFAULT_HTTP_PORT, 3000);
    assert!(!config.grpc_reflection);
    assert_eq!(config.version, None);
}

#[test]
fn from_vars_parses_given_values() {
    let config = Config::from_vars(Some("true"), Some("6000"), Some("+8080"), Some("1.2.3".to_string()));
    assert!(config.grpc_reflection);
    assert_eq!(config.grpc_port, 6000);
    assert_eq!(config.http_port, 8080);
    assert_eq!(config.version.as_deref(), Some("1.2.3"));
}

#[test]
fn from_vars_falls_back_on_unparsable_values() {
    let config = Config::from_vars(Some("yes"), Some("port"), Some("99999"), Some(String::new()));
    assert!(!config.grpc_reflection);
    assert_eq!(config.grpc_port, 50051);
    assert_eq!(config.http_port, 3000);
    assert_eq!(config.version, None);
}

#[test]
fn version_label_defaults_to_not_available() {
    let without = Config::from_vars(None, None, None, None);
    assert_eq!(without.version_label(), "N/A");
    let with = Config::from_vars(None, None, None, Some("v7".to_string()));
    assert_eq!(with.version_label(), "v7");
}

#[test]
fn eq_ignore_ascii_case_matches_std() {
    for (a, b) in [
        ("Production", "production"),
        ("STAGING", "staging"),
        ("stage", "staging"),
        ("", ""),
        ("Ä", "ä"),
        ("a[", "A{"),
        ("@", "`"),
    ] {
        assert_eq!(eq_ignore_ascii_case(a, b), a.eq_ignore_ascii_case(b), "{a:?} vs {b:?}");
    }
}

#[test]
fn json_logs_only_in_production_or_staging() {
    assert!(use_json_logs(Some("production")));
    assert!(use_json_logs(Some("PRODUCTION")));
    assert!(use_json_logs(Some("Staging")));
    assert!(!use_json_logs(Some("development")));
    assert!(!use_json_logs(Some("prod")));
    assert!(!use_json_logs(None));
}
