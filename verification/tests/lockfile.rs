use voyager::domain::Repository;
use voyager::error::Error;
use voyager::lockfile::{
    compute_hash, LockedPackage, LockedVersion, Lockfile, PackageAuthor, PackageManifest,
};

fn repo(s: &str) -> Repository {
    Repository::parse(s).unwrap()
}

fn create_test_version_output() -> PackageManifest {
    PackageManifest {
        name: "com.example.test".to_string(),
        version: "1.0.0".to_string(),
        display_name: "Test Package".to_string(),
        description: "A test package".to_string(),
        unity: "2022.3".to_string(),
        unity_release: String::new(),
        dependencies: Vec::new(),
        keywords: vec![],
        author: PackageAuthor {
            name: "Test Author".to_string(),
            email: String::new(),
            url: String::new(),
        },
        vpm_dependencies: Vec::new(),
        legacy_folders: Vec::new(),
        legacy_files: Vec::new(),
        legacy_packages: vec![],
        documentation_url: String::new(),
        changelog_url: String::new(),
        licenses_url: String::new(),
        samples: vec![],
        hide_in_editor: None,
        package_type: String::new(),
        zip_sha256: String::new(),
        url: "https://example.com/test.zip".to_string(),
        license: String::new(),
        extra: Vec::new(),
    }
}

#[test]
fn compute_hash_is_deterministic() {
    let content = r#"{"name": "test"}"#;
    let hash1 = compute_hash(content);
    let hash2 = compute_hash(content);
    assert_eq!(hash1, hash2);
    assert!(hash1.starts_with("sha256:"));
}

#[test]
fn compute_hash_differs_for_different_content() {
    let hash1 = compute_hash("content1");
    let hash2 = compute_hash("content2");
    assert_ne!(hash1, hash2);
}

#[test]
fn compute_hash_matches_the_known_digest_of_abc() {
    assert_eq!(
        compute_hash("abc"),
        "sha256:ba7816bf8f01cfea414140de5dae2223b00361a396177a9cb410ff61f20015ad"
    );
}

#[test]
fn lockfile_new_creates_empty() {
    let lockfile = Lockfile::new();
    assert_eq!(lockfile.version, 1);
    assert!(lockfile.packages.is_empty());
    assert!(lockfile.manifest_hash.is_none());
}

#[test]
fn lockfile_load_rejects_too_old_version() {
    let result = Lockfile::accept_version(0);
    assert!(matches!(result, Err(Error::ConfigValidation(msg)) if msg.contains("too old")));
}

#[test]
fn lockfile_load_rejects_too_new_version() {
    let result = Lockfile::accept_version(99);
    assert!(
        matches!(result, Err(Error::ConfigValidation(msg)) if msg.contains("newer than supported"))
    );
}

#[test]
fn lockfile_load_rejects_unknown_version() {
    assert!(Lockfile::accept_version(99).is_err());
    assert!(Lockfile::accept_version(1).is_ok());
}

#[test]
fn locked_package_existing_versions() {
    let pkg = LockedPackage {
        id: "test".to_string(),
        repository: repo("owner/repo"),
        versions: vec![
            LockedVersion::new("v1.0.0".to_string(), "url1".to_string(), "content1", {
                let mut v = create_test_version_output();
                v.version = "1.0.0".to_string();
                v
            }),
            LockedVersion::new("v2.0.0".to_string(), "url2".to_string(), "content2", {
                let mut v = create_test_version_output();
                v.version = "2.0.0".to_string();
                v
            }),
        ],
    };

    let existing = pkg.existing_versions();
    assert!(existing.contains(&"1.0.0".to_string()));
    assert!(existing.contains(&"2.0.0".to_string()));
    assert!(!existing.contains(&"3.0.0".to_string()));
}

#[test]
fn locked_package_add_version_prevents_duplicates() {
    let mut pkg = LockedPackage {
        id: "test".to_string(),
        repository: repo("owner/repo"),
        versions: vec![],
    };

    let version = LockedVersion::new(
        "v1.0.0".to_string(),
        "url".to_string(),
        "content",
        create_test_version_output(),
    );

    pkg.add_version(version.clone());
    pkg.add_version(version);

    assert_eq!(pkg.versions.len(), 1);
}

#[test]
fn get_or_insert_package_creates_new() {
    let mut lockfile = Lockfile::new();
    let idx = lockfile.get_or_insert_package("com.example.new", &repo("owner/new"));

    assert_eq!(lockfile.packages[idx].id, "com.example.new");
    assert_eq!(lockfile.packages[idx].repository, repo("owner/new"));
    assert_eq!(lockfile.packages.len(), 1);
}

#[test]
fn get_or_insert_package_returns_existing() {
    let mut lockfile = Lockfile::new();
    lockfile.get_or_insert_package("com.example.test", &repo("owner/repo"));
    lockfile.get_or_insert_package("com.example.test", &repo("owner/repo"));

    assert_eq!(lockfile.packages.len(), 1);
}

#[test]
fn get_version_finds_first_match() {
    let pkg = LockedPackage {
        id: "test".to_string(),
        repository: repo("owner/repo"),
        versions: vec![LockedVersion::new(
            "v1.0.0".to_string(),
            "url".to_string(),
            "content",
            create_test_version_output(),
        )],
    };
    assert!(pkg.get_version("1.0.0").is_some());
    assert!(pkg.get_version("2.0.0").is_none());
}

#[test]
fn locked_version_takes_its_version_from_the_metadata() {
    let lv = LockedVersion::new(
        "v1.0.0".to_string(),
        "https://example.com/a.zip".to_string(),
        r#"{"name":"x"}"#,
        create_test_version_output(),
    );
    assert_eq!(lv.version, "1.0.0");
    assert_eq!(lv.tag, "v1.0.0");
    assert_eq!(lv.hash, compute_hash(r#"{"name":"x"}"#));
}

#[test]
fn deserializes_author_as_string() {
    let author =
        PackageAuthor::parse_author_string("Example Author <author@example.com> (https://example.com)");
    assert_eq!(author.name, "Example Author");
    assert_eq!(author.email, "author@example.com");
    assert_eq!(author.url, "https://example.com");
}

#[test]
fn deserializes_author_as_plain_name_string() {
    let author = PackageAuthor::parse_author_string("Example Author");
    assert_eq!(author.name, "Example Author");
    assert_eq!(author.email, "");
    assert_eq!(author.url, "");
}

#[test]
fn author_string_with_only_email_keeps_whole_string_as_name_fallback() {
    let author = PackageAuthor::parse_author_string("<author@example.com>");
    assert_eq!(author.email, "author@example.com");
    assert_eq!(author.name, "<author@example.com>");
}

#[test]
fn author_string_collapses_whitespace_in_name() {
    let author = PackageAuthor::parse_author_string("  Jane   Q.   Public  <j@example.com>");
    assert_eq!(author.name, "Jane Q. Public");
    assert_eq!(author.email, "j@example.com");
}
