use voyager::cli::{parse_max_concurrent, parse_max_retries, ConfigPaths};

#[test]
fn parse_max_concurrent_accepts_valid_range() {
    assert_eq!(parse_max_concurrent("1").unwrap(), 1);
    assert_eq!(parse_max_concurrent("50").unwrap(), 50);
}

#[test]
fn parse_max_concurrent_rejects_zero() {
    assert!(parse_max_concurrent("0").is_err());
}

#[test]
fn parse_max_concurrent_rejects_too_large_value() {
    assert!(parse_max_concurrent("51").is_err());
}

#[test]
fn parse_max_concurrent_rejects_non_numeric() {
    assert!(parse_max_concurrent("abc").is_err());
}

#[test]
fn parse_max_retries_accepts_valid_range() {
    assert_eq!(parse_max_retries("0").unwrap(), 0);
    assert_eq!(parse_max_retries("8").unwrap(), 8);
}

#[test]
fn parse_max_retries_rejects_too_large_value() {
    assert!(parse_max_retries("9").is_err());
}

#[test]
fn parse_max_retries_rejects_non_numeric() {
    assert!(parse_max_retries("abc").is_err());
}

#[test]
fn config_paths_derives_lock_from_config() {
    let paths = ConfigPaths::new(String::from("some/dir/project.toml"));
    assert_eq!(paths.config_path(), "some/dir/project.toml");
    assert_eq!(paths.lock_path(), "some/dir/project.lock");
}

#[test]
fn config_paths_default_uses_voyager_toml() {
    let paths = ConfigPaths::new(String::from("voyager.toml"));
    assert_eq!(paths.config_path(), "voyager.toml");
    assert_eq!(paths.lock_path(), "voyager.lock");
}

#[test]
fn config_paths_keeps_hidden_file_names_whole() {
    let paths = ConfigPaths::new(String::from(".voyager"));
    assert_eq!(paths.lock_path(), ".voyager.lock");
}
