use helm::identity::{resolve_inner, IDENTITY_REQUIRED};

#[test]
fn env_var_used_when_no_explicit() {
    let result = resolve_inner(None, Some("from-env"), None);
    assert_eq!(result.unwrap(), "from-env");
}

#[test]
fn no_sources_returns_required_error() {
    let result = resolve_inner(None, None, None);
    assert_eq!(result.unwrap_err(), IDENTITY_REQUIRED);
}

#[test]
fn explicit_wins_over_all() {
    let config = Some(Ok(Some("from-config".to_string())));
    let result = resolve_inner(Some("explicit"), Some("from-env"), config);
    assert_eq!(result.unwrap(), "explicit");
}

#[test]
fn env_var_wins_over_config() {
    let config = Some(Ok(Some("from-config".to_string())));
    assert_eq!(resolve_inner(None, Some("from-env"), config).unwrap(), "from-env");
}

#[test]
fn empty_env_var_falls_through_to_config() {
    let config = Some(Ok(Some("from-config".to_string())));
    assert_eq!(resolve_inner(None, Some(""), config).unwrap(), "from-config");
}

#[test]
fn config_used_when_no_explicit_or_env() {
    let config = Some(Ok(Some("from-config".to_string())));
    assert_eq!(resolve_inner(None, None, config).unwrap(), "from-config");
}

#[test]
fn empty_identity_in_config_falls_through() {
    let config = Some(Ok(Some(String::new())));
    assert_eq!(resolve_inner(None, None, config).unwrap_err(), IDENTITY_REQUIRED);
}

#[test]
fn config_without_identity_field_falls_through() {
    assert_eq!(resolve_inner(None, None, Some(Ok(None))).unwrap_err(), IDENTITY_REQUIRED);
}

#[test]
fn malformed_config_returns_parse_error() {
    let config = Some(Err("failed to parse config.toml: expected a value".to_string()));
    assert!(resolve_inner(None, None, config).unwrap_err().contains("failed to parse"));
}

#[test]
fn read_error_is_not_reached_when_explicit() {
    let config = Some(Err("failed to read config.toml".to_string()));
    assert_eq!(resolve_inner(Some("me"), None, config).unwrap(), "me");
}
