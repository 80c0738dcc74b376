use voyager::error::Error;
use voyager::lockfile::{PackageAuthor, PackageManifest};
use voyager::output::{to_output_version, PackageOutput, VpmOutput};
use voyager::urlcheck::{
    classify_get_status, classify_head_status, GetVerdict, HeadVerdict, UrlValidator,
};

#[test]
fn head_success_is_valid() {
    assert_eq!(classify_head_status(200), HeadVerdict::Valid);
    assert_eq!(classify_head_status(204), HeadVerdict::Valid);
}

#[test]
fn head_blocked_statuses_fall_back_to_get() {
    assert_eq!(classify_head_status(403), HeadVerdict::FallbackToGet);
    assert_eq!(classify_head_status(405), HeadVerdict::FallbackToGet);
    assert_eq!(classify_head_status(501), HeadVerdict::FallbackToGet);
}

#[test]
fn head_client_errors_are_final() {
    assert_eq!(classify_head_status(404), HeadVerdict::Invalid);
    assert_eq!(classify_head_status(410), HeadVerdict::Invalid);
}

#[test]
fn head_transient_statuses_retry() {
    assert_eq!(classify_head_status(429), HeadVerdict::Retry);
    assert_eq!(classify_head_status(500), HeadVerdict::Retry);
    assert_eq!(classify_head_status(503), HeadVerdict::Retry);
}

#[test]
fn get_fallback_treats_success_as_valid() {
    assert_eq!(classify_get_status(200), GetVerdict::Valid);
    assert_eq!(classify_get_status(206), GetVerdict::Valid);
}

#[test]
fn get_fallback_treats_client_errors_as_invalid() {
    assert_eq!(classify_get_status(404), GetVerdict::Invalid);
}

#[test]
fn get_fallback_retries_rate_limits_and_server_errors() {
    assert_eq!(classify_get_status(429), GetVerdict::Retry);
    assert_eq!(classify_get_status(500), GetVerdict::Retry);
}

fn empty_output() -> VpmOutput {
    VpmOutput {
        name: "Test".to_string(),
        id: "com.test".to_string(),
        url: "https://test.com".to_string(),
        author: "Author".to_string(),
        packages: Vec::new(),
    }
}

#[test]
fn handles_empty_output() {
    let validator = UrlValidator::new(4, 0);
    let result = validator.validate(&empty_output(), vec![]);
    assert_eq!(result.total, 0);
    assert_eq!(result.valid, 0);
    assert!(result.invalid.is_empty());
}

#[test]
fn validate_summary_accounts_for_invalid_urls() {
    let pm = PackageManifest {
        name: "com.test.pkg".to_string(),
        version: "1.0.0".to_string(),
        display_name: "T".to_string(),
        description: String::new(),
        unity: String::new(),
        unity_release: String::new(),
        dependencies: Vec::new(),
        keywords: vec![],
        author: PackageAuthor {
            name: "A".to_string(),
            email: String::new(),
            url: String::new(),
        },
        vpm_dependencies: Vec::new(),
        legacy_folders: Vec::new(),
        legacy_files: Vec::new(),
        legacy_packages: vec![],
        documentation_url: String::new(),
        changelog_url: String::new(),
        licenses_url: String::new(),
        samples: vec![],
        hide_in_editor: None,
        package_type: String::new(),
        zip_sha256: String::new(),
        url: "https://example.com/a.zip".to_string(),
        license: String::new(),
        extra: Vec::new(),
    };
    let mut output = empty_output();
    output.packages.push((
        "com.test.pkg".to_string(),
        PackageOutput {
            versions: vec![
                ("1.0.0".to_string(), to_output_version(&pm)),
                ("2.0.0".to_string(), to_output_version(&pm)),
            ],
        },
    ));

    let validator = UrlValidator::new(4, 0);
    let invalid = vec![(
        "com.test.pkg".to_string(),
        "2.0.0".to_string(),
        "https://example.com/a.zip".to_string(),
    )];
    let result = validator.validate(&output, invalid);
    assert_eq!(result.total, 2);
    assert_eq!(result.valid, 1);
    assert_eq!(result.invalid.len(), 1);
    assert_eq!(result.invalid[0].package_id, "com.test.pkg");
    assert_eq!(result.invalid[0].version, "2.0.0");
}

#[test]
fn error_kinds_map_to_their_exit_codes() {
    assert_eq!(Error::Io(String::new()).exit_code().0, 74);
    assert_eq!(
        Error::FileRead { path: String::new() }.exit_code().0,
        74
    );
    assert_eq!(
        Error::TomlParse { path: String::new(), message: String::new() }.exit_code().0,
        65
    );
    assert_eq!(Error::JsonSerialize(String::new()).exit_code().0, 65);
    assert_eq!(Error::ConfigValidation(String::new()).exit_code().0, 78);
    assert_eq!(Error::ManifestHashMismatch.exit_code().0, 78);
    assert_eq!(Error::Http { url: String::new() }.exit_code().0, 69);
    assert_eq!(Error::FetchPartialFailure { count: 1 }.exit_code().0, 69);
    assert_eq!(Error::UrlValidation { count: 1 }.exit_code().0, 69);
    assert_eq!(Error::RepositoryNotFound(String::new()).exit_code().0, 69);
    assert_eq!(Error::RuntimeInit(String::new()).exit_code().0, 1);
    assert_eq!(
        Error::PackageJsonNotFound { tag: String::new() }.exit_code().0,
        1
    );
}
