use voyager::error::Error;
use voyager::validation::{
    validate_package_id_prefix, validate_reverse_domain, validate_unity_dependency_version,
    validate_unity_release, validate_unity_version, validate_url, validate_vpm_dependency_range,
    validate_zip_url,
};

#[test]
fn valid_two_parts() {
    assert!(validate_reverse_domain("com.example").is_ok());
}

#[test]
fn valid_three_parts() {
    assert!(validate_reverse_domain("com.example.package").is_ok());
}

#[test]
fn valid_with_hyphen() {
    assert!(validate_reverse_domain("com.my-org.my-package").is_ok());
}

#[test]
fn valid_with_underscore() {
    assert!(validate_reverse_domain("com.my_org.my_package").is_ok());
}

#[test]
fn valid_with_numbers() {
    assert!(validate_reverse_domain("com.example123.pkg456").is_ok());
}

#[test]
fn validation_invalid_empty() {
    assert!(validate_reverse_domain("").is_err());
}

#[test]
fn invalid_single_part() {
    assert!(validate_reverse_domain("example").is_err());
}

#[test]
fn invalid_empty_part() {
    assert!(validate_reverse_domain("com..example").is_err());
}

#[test]
fn invalid_leading_dot() {
    assert!(validate_reverse_domain(".com.example").is_err());
}

#[test]
fn invalid_trailing_dot() {
    assert!(validate_reverse_domain("com.example.").is_err());
}

#[test]
fn invalid_special_chars() {
    assert!(validate_reverse_domain("com.example@test").is_err());
}

#[test]
fn invalid_uppercase() {
    assert!(validate_reverse_domain("com.Example.package").is_err());
}

#[test]
fn valid_prefix() {
    assert!(validate_package_id_prefix("com.example.package", "com.example").is_ok());
}

#[test]
fn valid_nested_prefix() {
    assert!(validate_package_id_prefix("com.example.sub.package", "com.example").is_ok());
}

#[test]
fn invalid_different_prefix() {
    assert!(validate_package_id_prefix("org.other.package", "com.example").is_err());
}

#[test]
fn invalid_partial_match() {
    assert!(validate_package_id_prefix("com.exampleother.package", "com.example").is_err());
}

#[test]
fn valid_https() {
    assert!(validate_url("https://example.com").is_ok());
}

#[test]
fn valid_http() {
    assert!(validate_url("http://example.com").is_ok());
}

#[test]
fn valid_with_path() {
    assert!(validate_url("https://example.com/path/to/file").is_ok());
}

#[test]
fn valid_with_query() {
    assert!(validate_url("https://example.com?foo=bar").is_ok());
}

#[test]
fn url_invalid_empty() {
    assert!(validate_url("").is_err());
}

#[test]
fn invalid_no_scheme() {
    assert!(validate_url("example.com").is_err());
}

#[test]
fn invalid_ftp_scheme() {
    assert!(validate_url("ftp://example.com").is_err());
}

#[test]
fn invalid_missing_host() {
    assert!(validate_url("http://").is_err());
}

#[test]
fn invalid_malformed_url() {
    assert!(validate_url("https://").is_err());
}

#[test]
fn valid_zip_url() {
    assert!(validate_zip_url("https://example.com/package.zip").is_ok());
}

#[test]
fn valid_zip_url_with_query() {
    assert!(validate_zip_url("https://example.com/package.zip?token=abc").is_ok());
}

#[test]
fn invalid_non_zip_url() {
    assert!(validate_zip_url("https://example.com/package.json").is_err());
}

#[test]
fn valid_extensionless_download_url() {
    assert!(validate_zip_url("https://example.com/download/12345").is_ok());
}

#[test]
fn accepts_exact_semver() {
    assert!(validate_unity_dependency_version("1.2.3").is_ok());
}

#[test]
fn accepts_prerelease_semver() {
    assert!(validate_unity_dependency_version("1.2.3-beta.1").is_ok());
}

#[test]
fn rejects_version_range() {
    assert!(validate_unity_dependency_version("^1.2.3").is_err());
}

#[test]
fn accepts_standard_version() {
    assert!(validate_unity_version("2022.3").is_ok());
}

#[test]
fn accepts_older_version() {
    assert!(validate_unity_version("2019.1").is_ok());
}

#[test]
fn accepts_unity6_version() {
    assert!(validate_unity_version("6000.0").is_ok());
}

#[test]
fn rejects_major_only() {
    assert!(validate_unity_version("2022").is_err());
}

#[test]
fn rejects_three_parts() {
    assert!(validate_unity_version("2022.3.1").is_err());
}

#[test]
fn rejects_non_numeric() {
    assert!(validate_unity_version("hello.world").is_err());
}

#[test]
fn rejects_empty_part() {
    assert!(validate_unity_version("2022.").is_err());
}

#[test]
fn rejects_x_wildcard() {
    assert!(validate_unity_version("2022.x").is_err());
}

#[test]
fn accepts_standard_beta_release() {
    assert!(validate_unity_release("0b4").is_ok());
}

#[test]
fn accepts_multi_digit_release() {
    assert!(validate_unity_release("22f1").is_ok());
}

#[test]
fn rejects_missing_update_number() {
    assert!(validate_unity_release("b4").is_err());
}

#[test]
fn rejects_long_channel_name() {
    assert!(validate_unity_release("0beta4").is_err());
}

#[test]
fn rejects_missing_release_number() {
    assert!(validate_unity_release("0b").is_err());
}

#[test]
fn rejects_uppercase_channel_letter() {
    assert!(validate_unity_release("0B4").is_err());
}

#[test]
fn accepts_comparator_range() {
    assert!(validate_vpm_dependency_range(">=3.4.0").is_ok());
}

#[test]
fn accepts_space_separated_range() {
    assert!(validate_vpm_dependency_range(">=3.4.0 <3.5.0").is_ok());
}

#[test]
fn accepts_x_range() {
    assert!(validate_vpm_dependency_range("3.5.x").is_ok());
}

#[test]
fn accepts_or_range() {
    assert!(validate_vpm_dependency_range("^1.2.3 || 2.x").is_ok());
}

#[test]
fn accepts_hyphen_range() {
    assert!(validate_vpm_dependency_range("1.2.3 - 2.0.0").is_ok());
}

#[test]
fn accepts_tilde_range() {
    assert!(validate_vpm_dependency_range("~1.2.3").is_ok());
}

#[test]
fn accepts_comma_separated_range() {
    assert!(validate_vpm_dependency_range(">=1.0.0, <2.0.0").is_ok());
}

#[test]
fn rejects_empty() {
    assert!(validate_vpm_dependency_range("").is_err());
}

#[test]
fn rejects_invalid() {
    assert!(validate_vpm_dependency_range("definitely-not-a-range").is_err());
}

#[test]
fn rejects_empty_or_clause() {
    let result = validate_vpm_dependency_range("^1.0.0 || ");
    assert!(matches!(result, Err(Error::ConfigValidation(m)) if m.contains("empty OR clause")));
}

#[test]
fn reverse_domain_error_carries_the_input() {
    let result = validate_reverse_domain("Nope");
    assert!(matches!(result, Err(Error::InvalidPackageId(p)) if p == "Nope"));
}

#[test]
fn url_error_names_the_scheme_rule() {
    let result = validate_url("ftp://example.com");
    assert!(
        matches!(result, Err(Error::InvalidUrl(_, reason)) if reason.contains("http:// or https://"))
    );
}
