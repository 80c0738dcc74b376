use voyager::domain::{Release, Repository};
use voyager::error::Error;
use voyager::fetch::{finish_fetch, FetcherConfig, PackageFetcher};
use voyager::lockfile::{LockedPackage, LockedVersion, Lockfile, PackageAuthor, PackageManifest};
use voyager::manifest::{Manifest, Package, Vpm};

fn repo(s: &str) -> Repository {
    Repository::parse(s).unwrap()
}

fn fetcher() -> PackageFetcher {
    PackageFetcher::new(FetcherConfig {
        max_concurrent: 5,
        max_retries: 3,
        asset_name: "package.json".to_string(),
    })
}

fn version_output(name: &str, version: &str, url: &str) -> PackageManifest {
    PackageManifest {
        name: name.to_string(),
        version: version.to_string(),
        display_name: name.to_string(),
        description: "desc".to_string(),
        unity: "2022.3".to_string(),
        unity_release: String::new(),
        dependencies: Vec::new(),
        keywords: vec![],
        author: PackageAuthor {
            name: "Author".to_string(),
            email: "author@example.com".to_string(),
            url: String::new(),
        },
        vpm_dependencies: Vec::new(),
        legacy_folders: Vec::new(),
        legacy_files: Vec::new(),
        legacy_packages: vec![],
        documentation_url: String::new(),
        changelog_url: String::new(),
        licenses_url: String::new(),
        samples: vec![],
        hide_in_editor: None,
        package_type: String::new(),
        zip_sha256: String::new(),
        url: url.to_string(),
        license: String::new(),
        extra: Vec::new(),
    }
}

fn test_package(id: &str, repository: &str) -> Package {
    Package { id: id.to_string(), repository: repo(repository) }
}

fn manifest_one(id: &str) -> Manifest {
    Manifest {
        vpm: Vpm {
            id: "com.test.vpm".to_string(),
            name: "Test".to_string(),
            author: "Author".to_string(),
            url: "https://example.com/index.json".to_string(),
        },
        packages: vec![test_package(id, "owner1/repo1")],
    }
}

#[test]
fn is_valid_sha256_hex_accepts_64_hex_chars() {
    let hex = "a".repeat(64);
    assert!(PackageFetcher::is_valid_sha256_hex(&hex));
    assert!(!PackageFetcher::is_valid_sha256_hex("abc"));
    let bad = "g".repeat(64);
    assert!(!PackageFetcher::is_valid_sha256_hex(&bad));
}

#[test]
fn concurrency_plan_bounds_the_product() {
    let f = fetcher();
    let (p, d) = f.concurrency_plan(2);
    assert_eq!(p, 2);
    assert_eq!(d, 2);
    assert!(p * d <= 5);

    let (p, d) = f.concurrency_plan(50);
    assert_eq!(p, 5);
    assert_eq!(d, 1);
}

#[test]
fn validator_accepts_a_good_document() {
    let f = fetcher();
    let package = test_package("com.test.vpm.pkg1", "owner1/repo1");
    let release = Release::new("v1.0.0".to_string(), Some("u".to_string()));
    let pm = version_output("com.test.vpm.pkg1", "1.0.0", "https://example.com/a.zip");
    assert!(f.validate_package_manifest(&package, &release, &pm).is_ok());
}

#[test]
fn fetch_rejects_manifest_with_mismatched_package_name() {
    let f = fetcher();
    let package = test_package("com.test.vpm.pkg1", "owner1/repo1");
    let release = Release::new("v2.0.0".to_string(), Some("u".to_string()));
    let pm = version_output("com.other.pkg", "2.0.0", "https://example.com/a.zip");
    let result = f.validate_package_manifest(&package, &release, &pm);
    assert!(matches!(result, Err(Error::ConfigValidation(_))));
}

#[test]
fn fetch_rejects_manifest_with_mismatched_version() {
    let f = fetcher();
    let package = test_package("com.test.vpm.pkg1", "owner1/repo1");
    let release = Release::new("v2.0.0".to_string(), Some("u".to_string()));
    let pm = version_output("com.test.vpm.pkg1", "1.0.0", "https://example.com/a.zip");
    assert!(f.validate_package_manifest(&package, &release, &pm).is_err());
}

#[test]
fn fetch_rejects_manifest_with_invalid_semver_version() {
    let f = fetcher();
    let package = test_package("com.test.vpm.pkg1", "owner1/repo1");
    let release = Release::new("vnot-semver".to_string(), Some("u".to_string()));
    let pm = version_output("com.test.vpm.pkg1", "not-semver", "https://example.com/a.zip");
    assert!(f.validate_package_manifest(&package, &release, &pm).is_err());
}

#[test]
fn fetch_rejects_manifest_missing_author_email() {
    let f = fetcher();
    let package = test_package("com.test.vpm.pkg1", "owner1/repo1");
    let release = Release::new("v1.0.0".to_string(), Some("u".to_string()));
    let mut pm = version_output("com.test.vpm.pkg1", "1.0.0", "https://example.com/a.zip");
    pm.author.email = String::new();
    assert!(f.validate_package_manifest(&package, &release, &pm).is_err());
}

#[test]
fn fetch_accepts_manifest_missing_unity() {
    let f = fetcher();
    let package = test_package("com.test.vpm.pkg1", "owner1/repo1");
    let release = Release::new("v1.0.0".to_string(), Some("u".to_string()));
    let mut pm = version_output("com.test.vpm.pkg1", "1.0.0", "https://example.com/a.zip");
    pm.unity = String::new();
    assert!(f.validate_package_manifest(&package, &release, &pm).is_ok());
}

#[test]
fn fetch_rejects_manifest_with_unity_release_without_unity() {
    let f = fetcher();
    let package = test_package("com.test.vpm.pkg1", "owner1/repo1");
    let release = Release::new("v1.0.0".to_string(), Some("u".to_string()));
    let mut pm = version_output("com.test.vpm.pkg1", "1.0.0", "https://example.com/a.zip");
    pm.unity = String::new();
    pm.unity_release = "0b4".to_string();
    assert!(f.validate_package_manifest(&package, &release, &pm).is_err());
}

#[test]
fn fetch_accepts_manifest_with_valid_unity_release() {
    let f = fetcher();
    let package = test_package("com.test.vpm.pkg1", "owner1/repo1");
    let release = Release::new("v1.0.0".to_string(), Some("u".to_string()));
    let mut pm = version_output("com.test.vpm.pkg1", "1.0.0", "https://example.com/a.zip");
    pm.unity_release = "0b4".to_string();
    assert!(f.validate_package_manifest(&package, &release, &pm).is_ok());
}

#[test]
fn fetch_rejects_manifest_with_invalid_unity_release() {
    let f = fetcher();
    let package = test_package("com.test.vpm.pkg1", "owner1/repo1");
    let release = Release::new("v1.0.0".to_string(), Some("u".to_string()));
    let mut pm = version_output("com.test.vpm.pkg1", "1.0.0", "https://example.com/a.zip");
    pm.unity_release = "0B4".to_string();
    assert!(f.validate_package_manifest(&package, &release, &pm).is_err());
}

#[test]
fn fetch_rejects_manifest_with_non_zip_package_url() {
    let f = fetcher();
    let package = test_package("com.test.vpm.pkg1", "owner1/repo1");
    let release = Release::new("v1.0.0".to_string(), Some("u".to_string()));
    let pm = version_output("com.test.vpm.pkg1", "1.0.0", "https://example.com/a.json");
    assert!(f.validate_package_manifest(&package, &release, &pm).is_err());
}

#[test]
fn fetch_rejects_manifest_with_unity_dependency_range() {
    let f = fetcher();
    let package = test_package("com.test.vpm.pkg1", "owner1/repo1");
    let release = Release::new("v1.0.0".to_string(), Some("u".to_string()));
    let mut pm = version_output("com.test.vpm.pkg1", "1.0.0", "https://example.com/a.zip");
    pm.dependencies.push(("com.unity.thing".to_string(), "^1.2.3".to_string()));
    assert!(f.validate_package_manifest(&package, &release, &pm).is_err());
}

#[test]
fn fetch_accepts_manifest_with_vpm_dependency_x_range() {
    let f = fetcher();
    let package = test_package("com.test.vpm.pkg1", "owner1/repo1");
    let release = Release::new("v1.0.0".to_string(), Some("u".to_string()));
    let mut pm = version_output("com.test.vpm.pkg1", "1.0.0", "https://example.com/a.zip");
    pm.vpm_dependencies.push(("com.other.pkg".to_string(), "3.5.x".to_string()));
    assert!(f.validate_package_manifest(&package, &release, &pm).is_ok());
}

#[test]
fn fetch_rejects_manifest_with_invalid_zip_sha256() {
    let f = fetcher();
    let package = test_package("com.test.vpm.pkg1", "owner1/repo1");
    let release = Release::new("v1.0.0".to_string(), Some("u".to_string()));
    let mut pm = version_output("com.test.vpm.pkg1", "1.0.0", "https://example.com/a.zip");
    pm.zip_sha256 = "nothex".to_string();
    assert!(f.validate_package_manifest(&package, &release, &pm).is_err());
}

#[test]
fn fetch_prunes_stale_packages_when_manifest_no_longer_contains_them() {
    let f = fetcher();
    let manifest = Manifest {
        vpm: Vpm {
            id: "com.test.vpm".to_string(),
            name: "Test".to_string(),
            author: "Author".to_string(),
            url: "https://example.com/index.json".to_string(),
        },
        packages: vec![],
    };
    let mut lockfile = Lockfile::new();
    lockfile.packages.push(LockedPackage {
        id: "com.test.vpm.stale".to_string(),
        repository: repo("owner/stale"),
        versions: vec![LockedVersion::new(
            "v1.0.0".to_string(),
            "u".to_string(),
            "raw",
            version_output("com.test.vpm.stale", "1.0.0", "https://example.com/a.zip"),
        )],
    });

    f.reconcile_lockfile(&manifest, &mut lockfile);
    assert!(lockfile.packages.is_empty());
}

#[test]
fn reconcile_inserts_missing_and_clears_on_repository_change() {
    let f = fetcher();
    let manifest = Manifest {
        vpm: Vpm {
            id: "com.test.vpm".to_string(),
            name: "Test".to_string(),
            author: "Author".to_string(),
            url: "https://example.com/index.json".to_string(),
        },
        packages: vec![
            test_package("com.test.vpm.kept", "owner/kept"),
            test_package("com.test.vpm.moved", "owner/newrepo"),
            test_package("com.test.vpm.fresh", "owner/fresh"),
        ],
    };
    let mut lockfile = Lockfile::new();
    lockfile.packages.push(LockedPackage {
        id: "com.test.vpm.moved".to_string(),
        repository: repo("owner/oldrepo"),
        versions: vec![LockedVersion::new(
            "v1.0.0".to_string(),
            "u".to_string(),
            "raw",
            version_output("com.test.vpm.moved", "1.0.0", "https://example.com/a.zip"),
        )],
    });
    lockfile.packages.push(LockedPackage {
        id: "com.test.vpm.kept".to_string(),
        repository: repo("owner/kept"),
        versions: vec![LockedVersion::new(
            "v2.0.0".to_string(),
            "u".to_string(),
            "raw2",
            version_output("com.test.vpm.kept", "2.0.0", "https://example.com/b.zip"),
        )],
    });

    f.reconcile_lockfile(&manifest, &mut lockfile);

    assert_eq!(lockfile.packages.len(), 3);
    assert_eq!(lockfile.packages[0].id, "com.test.vpm.kept");
    assert_eq!(lockfile.packages[0].versions.len(), 1);
    assert_eq!(lockfile.packages[1].id, "com.test.vpm.moved");
    assert!(lockfile.packages[1].versions.is_empty());
    assert_eq!(lockfile.packages[1].repository, repo("owner/newrepo"));
    assert_eq!(lockfile.packages[2].id, "com.test.vpm.fresh");
    assert!(lockfile.packages[2].versions.is_empty());
}

#[test]
fn fetch_package_merges_in_listing_order_and_keeps_delisted_tail() {
    let f = fetcher();
    let package = test_package("com.test.vpm.pkg1", "owner1/repo1");
    let existing = LockedPackage {
        id: package.id.clone(),
        repository: repo("owner1/repo1"),
        versions: vec![
            LockedVersion::new(
                "v1.0.0".to_string(),
                "u1".to_string(),
                "raw1",
                version_output("com.test.vpm.pkg1", "1.0.0", "https://example.com/1.zip"),
            ),
            LockedVersion::new(
                "v0.9.0".to_string(),
                "u09".to_string(),
                "raw09",
                version_output("com.test.vpm.pkg1", "0.9.0", "https://example.com/09.zip"),
            ),
        ],
    };
    // Upstream lists 2.0.0 (new) then 1.0.0 (already locked); 0.9.0 is gone.
    let releases = vec![
        Release::new("v2.0.0".to_string(), Some("https://example.com/2.json".to_string())),
        Release::new("v1.0.0".to_string(), Some("https://example.com/1.json".to_string())),
    ];
    let downloads = vec![(
        Release::new("v2.0.0".to_string(), Some("https://example.com/2.json".to_string())),
        Some((
            r#"{"name":"com.test.vpm.pkg1"}"#.to_string(),
            version_output("com.test.vpm.pkg1", "2.0.0", "https://example.com/2.zip"),
        )),
    )];

    let result = f.fetch_package(&package, existing, &releases, downloads);

    assert_eq!(result.package_id, "com.test.vpm.pkg1");
    assert_eq!(result.failed_count, 0);
    assert_eq!(result.existing_count, 2);
    assert_eq!(result.new_count, 1);
    let versions: Vec<&str> = result.versions.iter().map(|v| v.version.as_str()).collect();
    assert_eq!(versions, vec!["2.0.0", "1.0.0", "0.9.0"]);
    // The freshly locked release hashes the raw document as downloaded.
    assert_eq!(
        result.versions[0].hash,
        voyager::lockfile::compute_hash(r#"{"name":"com.test.vpm.pkg1"}"#)
    );
    assert_eq!(result.versions[0].tag, "v2.0.0");
}

#[test]
fn fetch_package_counts_rejected_documents_as_failures() {
    let f = fetcher();
    let package = test_package("com.test.vpm.pkg1", "owner1/repo1");
    let existing = LockedPackage {
        id: package.id.clone(),
        repository: repo("owner1/repo1"),
        versions: vec![],
    };
    let releases = vec![Release::new(
        "v2.0.0".to_string(),
        Some("https://example.com/2.json".to_string()),
    )];
    // The downloaded document claims a different package name.
    let downloads = vec![(
        Release::new("v2.0.0".to_string(), Some("https://example.com/2.json".to_string())),
        Some((
            "raw".to_string(),
            version_output("com.wrong.name", "2.0.0", "https://example.com/2.zip"),
        )),
    )];

    let result = f.fetch_package(&package, existing, &releases, downloads);
    assert_eq!(result.failed_count, 1);
    assert!(result.versions.is_empty());
}

#[test]
fn fetch_keeps_existing_versions_when_no_matching_assets_found() {
    let f = fetcher();
    let package = test_package("com.test.vpm.pkg1", "owner1/repo1");
    let existing = LockedPackage {
        id: package.id.clone(),
        repository: repo("owner1/repo1"),
        versions: vec![LockedVersion::new(
            "v1.0.0".to_string(),
            "u1".to_string(),
            "raw1",
            version_output("com.test.vpm.pkg1", "1.0.0", "https://example.com/1.zip"),
        )],
    };
    let releases = vec![Release::new("v9.9.9".to_string(), None)];
    let result = f.fetch_package(&package, existing, &releases, vec![]);
    assert_eq!(result.versions.len(), 1);
    assert_eq!(result.versions[0].version, "1.0.0");
    assert_eq!(result.new_count, 0);
}

#[test]
fn fetch_returns_error_when_any_release_download_fails() {
    let f = fetcher();
    let manifest = manifest_one("com.test.vpm.pkg1");
    let mut lockfile = Lockfile::new();
    f.reconcile_lockfile(&manifest, &mut lockfile);

    let package = &manifest.packages[0];
    let existing = LockedPackage {
        id: package.id.clone(),
        repository: repo("owner1/repo1"),
        versions: vec![],
    };
    let releases = vec![Release::new(
        "v1.0.0".to_string(),
        Some("https://example.com/1.json".to_string()),
    )];
    let downloads = vec![(
        Release::new("v1.0.0".to_string(), Some("https://example.com/1.json".to_string())),
        None,
    )];
    let outcome = f.fetch_package(package, existing, &releases, downloads);

    let result = f.fetch(&mut lockfile, vec![outcome]);
    assert!(matches!(result, Err(Error::FetchPartialFailure { count: 1 })));
}

#[test]
fn fetch_writes_merged_versions_into_the_lockfile() {
    let f = fetcher();
    let manifest = manifest_one("com.test.vpm.pkg1");
    let mut lockfile = Lockfile::new();
    f.reconcile_lockfile(&manifest, &mut lockfile);

    let package = &manifest.packages[0];
    let existing = LockedPackage {
        id: package.id.clone(),
        repository: repo("owner1/repo1"),
        versions: vec![],
    };
    let releases = vec![Release::new(
        "v1.0.0".to_string(),
        Some("https://example.com/1.json".to_string()),
    )];
    let downloads = vec![(
        Release::new("v1.0.0".to_string(), Some("https://example.com/1.json".to_string())),
        Some((
            "raw".to_string(),
            version_output("com.test.vpm.pkg1", "1.0.0", "https://example.com/1.zip"),
        )),
    )];
    let outcome = f.fetch_package(package, existing, &releases, downloads);

    f.fetch(&mut lockfile, vec![outcome]).unwrap();
    assert_eq!(lockfile.packages.len(), 1);
    assert_eq!(lockfile.packages[0].versions.len(), 1);
    assert_eq!(lockfile.packages[0].versions[0].version, "1.0.0");
}

#[test]
fn fetch_succeeds_with_empty_packages_and_matching_hash() {
    let f = fetcher();
    let manifest = Manifest {
        vpm: Vpm {
            id: "com.test.vpm".to_string(),
            name: "Test".to_string(),
            author: "Author".to_string(),
            url: "https://example.com/index.json".to_string(),
        },
        packages: vec![],
    };
    let mut lockfile = Lockfile::new();
    f.reconcile_lockfile(&manifest, &mut lockfile);
    f.fetch(&mut lockfile, vec![]).unwrap();
    assert!(lockfile.packages.is_empty());

    let hash = voyager::gate::compute_manifest_hash_from_manifest(&manifest);
    finish_fetch(&mut lockfile, hash.clone());
    assert_eq!(lockfile.manifest_hash.as_deref(), Some(hash.as_str()));
}

#[test]
fn sort_outcomes_restores_manifest_order() {
    let f = fetcher();
    let mk = |id: &str| voyager::fetch::PackageFetchResult {
        package_id: id.to_string(),
        versions: vec![],
        existing_count: 0,
        new_count: 0,
        failed_count: 0,
    };
    let outcomes = vec![(2usize, mk("c")), (0usize, mk("a")), (1usize, mk("b"))];
    let sorted = f.sort_outcomes(outcomes);
    let ids: Vec<&str> = sorted.iter().map(|(_, o)| o.package_id.as_str()).collect();
    assert_eq!(ids, vec!["a", "b", "c"]);
}
