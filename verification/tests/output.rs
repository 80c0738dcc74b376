use voyager::domain::Repository;
use voyager::error::Error;
use voyager::lockfile::{LockedPackage, LockedVersion, Lockfile, PackageAuthor, PackageManifest};
use voyager::manifest::{Manifest, Package, Vpm};
use voyager::output::{generate_from_lockfile, PackageOutput, VpmOutput};

fn repo(s: &str) -> Repository {
    Repository::parse(s).unwrap()
}

fn load_test_manifest() -> Manifest {
    Manifest {
        vpm: Vpm {
            id: "com.example.vpm".to_string(),
            name: "Example VPM".to_string(),
            author: "Test Author".to_string(),
            url: "https://example.com/vpm.json".to_string(),
        },
        packages: vec![
            Package {
                id: "com.example.vpm.package1".to_string(),
                repository: repo("owner/repo1"),
            },
            Package {
                id: "com.example.vpm.package2".to_string(),
                repository: repo("owner/repo2"),
            },
        ],
    }
}

fn create_version_output(name: &str, version: &str) -> PackageManifest {
    PackageManifest {
        name: name.to_string(),
        version: version.to_string(),
        display_name: "Test Package".to_string(),
        description: "Test description".to_string(),
        unity: "2022.3".to_string(),
        unity_release: String::new(),
        dependencies: Vec::new(),
        keywords: vec![],
        author: PackageAuthor {
            name: "Test".to_string(),
            email: String::new(),
            url: String::new(),
        },
        vpm_dependencies: Vec::new(),
        legacy_folders: Vec::new(),
        legacy_files: Vec::new(),
        legacy_packages: vec![],
        documentation_url: String::new(),
        changelog_url: String::new(),
        licenses_url: String::new(),
        samples: vec![],
        hide_in_editor: None,
        package_type: String::new(),
        zip_sha256: String::new(),
        url: "https://example.com/test.zip".to_string(),
        license: String::new(),
        extra: Vec::new(),
    }
}

fn find_package<'a>(out: &'a VpmOutput, id: &str) -> Option<&'a PackageOutput> {
    out.packages.iter().find(|(k, _)| k == id).map(|(_, p)| p)
}

#[test]
fn copies_vpm_metadata() {
    let manifest = load_test_manifest();
    let output = VpmOutput::from_manifest(&manifest);

    assert_eq!(output.name, "Example VPM");
    assert_eq!(output.id, "com.example.vpm");
    assert_eq!(output.url, "https://example.com/vpm.json");
    assert_eq!(output.author, "Test Author");
}

#[test]
fn creates_entry_for_each_package() {
    let manifest = load_test_manifest();
    let output = VpmOutput::from_manifest(&manifest);

    assert_eq!(output.packages.len(), 2);
    assert!(find_package(&output, "com.example.vpm.package1").is_some());
    assert!(find_package(&output, "com.example.vpm.package2").is_some());
}

#[test]
fn packages_have_empty_versions() {
    let manifest = load_test_manifest();
    let output = VpmOutput::from_manifest(&manifest);

    for (_, pkg) in &output.packages {
        assert!(pkg.versions.is_empty());
    }
}

#[test]
fn preserves_package_order() {
    let manifest = load_test_manifest();
    let output = VpmOutput::from_manifest(&manifest);

    assert_eq!(output.packages[0].0, "com.example.vpm.package1");
    assert_eq!(output.packages[1].0, "com.example.vpm.package2");
}

#[test]
fn handles_single_package() {
    let mut manifest = load_test_manifest();
    manifest.packages.truncate(1);
    let output = VpmOutput::from_manifest(&manifest);
    assert_eq!(output.packages.len(), 1);
}

fn output_with_versions(urls: Vec<(&str, &str, &str)>) -> VpmOutput {
    let mut output = VpmOutput {
        name: "Test VPM".to_string(),
        id: "com.test.vpm".to_string(),
        url: "https://test.com/vpm.json".to_string(),
        author: "Test Author".to_string(),
        packages: Vec::new(),
    };
    for (pkg_id, version, url) in urls {
        let mut pm = create_version_output(pkg_id, version);
        pm.url = url.to_string();
        let vo = voyager::output::to_output_version(&pm);
        match output.packages.iter_mut().find(|(k, _)| k == pkg_id) {
            Some((_, p)) => p.versions.push((version.to_string(), vo)),
            None => output.packages.push((
                pkg_id.to_string(),
                PackageOutput { versions: vec![(version.to_string(), vo)] },
            )),
        }
    }
    output
}

#[test]
fn collects_all_urls_with_package_and_version() {
    let output = output_with_versions(vec![
        ("com.example.vpm.package1", "1.0.0", "https://example.com/pkg1-1.0.0.zip"),
        ("com.example.vpm.package1", "2.0.0", "https://example.com/pkg1-2.0.0.zip"),
    ]);
    let urls = output.collect_urls();
    assert_eq!(urls.len(), 2);
}

#[test]
fn url_tuple_contains_correct_data() {
    let output = output_with_versions(vec![(
        "com.example.vpm.package1",
        "1.0.0",
        "https://example.com/pkg1-1.0.0.zip",
    )]);
    let urls = output.collect_urls();

    assert_eq!(urls.len(), 1);
    let (pkg_id, version, url) = &urls[0];
    assert_eq!(pkg_id, "com.example.vpm.package1");
    assert_eq!(version, "1.0.0");
    assert_eq!(url, "https://example.com/pkg1-1.0.0.zip");
}

#[test]
fn returns_empty_for_no_packages() {
    let output = VpmOutput {
        name: "Test".to_string(),
        id: "com.test".to_string(),
        url: "https://test.com".to_string(),
        author: "Author".to_string(),
        packages: Vec::new(),
    };
    assert!(output.collect_urls().is_empty());
}

#[test]
fn returns_empty_for_packages_with_no_versions() {
    let output = VpmOutput::from_manifest(&load_test_manifest());
    assert!(output.collect_urls().is_empty());
}

#[test]
fn collects_from_multiple_packages() {
    let output = output_with_versions(vec![
        ("com.example.vpm.package1", "1.0.0", "https://example.com/pkg1.zip"),
        ("com.example.vpm.package2", "1.0.0", "https://example.com/pkg2.zip"),
    ]);
    assert_eq!(output.collect_urls().len(), 2);
}

fn create_manifest() -> Manifest {
    Manifest {
        vpm: Vpm {
            id: "com.example.vpm".to_string(),
            name: "Example VPM".to_string(),
            author: "Example Author".to_string(),
            url: "https://example.com/vpm.json".to_string(),
        },
        packages: vec![
            Package { id: "com.example.pkg1".to_string(), repository: repo("owner/repo1") },
            Package { id: "com.example.pkg2".to_string(), repository: repo("owner/repo2") },
        ],
    }
}

#[test]
fn generate_errors_when_lockfile_missing_package() {
    let manifest = create_manifest();

    let mut lockfile = Lockfile::new();
    lockfile.packages.push(LockedPackage {
        id: "com.example.pkg1".to_string(),
        repository: repo("owner/repo1"),
        versions: vec![LockedVersion::new(
            "v1.0.0".to_string(),
            "https://example.com/pkg1/package.json".to_string(),
            r#"{"name": "pkg1"}"#,
            create_version_output("pkg1", "1.0.0"),
        )],
    });

    let result = generate_from_lockfile(&manifest, &lockfile);
    assert!(matches!(result, Err(Error::ConfigValidation(_))));
}

#[test]
fn generate_preserves_manifest_order() {
    let manifest = create_manifest();

    let mut lockfile = Lockfile::new();
    lockfile.packages.push(LockedPackage {
        id: "com.example.pkg2".to_string(),
        repository: repo("owner/repo2"),
        versions: vec![LockedVersion::new(
            "v2.0.0".to_string(),
            "https://example.com/pkg2/package.json".to_string(),
            r#"{"name": "pkg2"}"#,
            create_version_output("pkg2", "2.0.0"),
        )],
    });
    lockfile.packages.push(LockedPackage {
        id: "com.example.pkg1".to_string(),
        repository: repo("owner/repo1"),
        versions: vec![LockedVersion::new(
            "v1.0.0".to_string(),
            "https://example.com/pkg1/package.json".to_string(),
            r#"{"name": "pkg1"}"#,
            create_version_output("pkg1", "1.0.0"),
        )],
    });

    let output = generate_from_lockfile(&manifest, &lockfile).unwrap();
    assert_eq!(output.packages[0].0, "com.example.pkg1");
    assert_eq!(output.packages[1].0, "com.example.pkg2");
}

#[test]
fn generate_includes_all_versions() {
    let mut manifest = create_manifest();
    manifest.packages = vec![Package {
        id: "com.example.pkg".to_string(),
        repository: repo("owner/repo"),
    }];

    let mut lockfile = Lockfile::new();
    lockfile.packages.push(LockedPackage {
        id: "com.example.pkg".to_string(),
        repository: repo("owner/repo"),
        versions: vec![
            LockedVersion::new(
                "v1.0.0".to_string(),
                "https://example.com/v1.zip".to_string(),
                r#"{"name": "pkg"}"#,
                create_version_output("pkg", "1.0.0"),
            ),
            LockedVersion::new(
                "v2.0.0".to_string(),
                "https://example.com/v2.zip".to_string(),
                r#"{"name": "pkg"}"#,
                create_version_output("pkg", "2.0.0"),
            ),
        ],
    });

    let output = generate_from_lockfile(&manifest, &lockfile).unwrap();
    let pkg_output = find_package(&output, "com.example.pkg").unwrap();
    assert_eq!(pkg_output.versions.len(), 2);
    assert!(pkg_output.versions.iter().any(|(v, _)| v == "1.0.0"));
    assert!(pkg_output.versions.iter().any(|(v, _)| v == "2.0.0"));
}

#[test]
fn generate_preserves_vpm_extension_fields() {
    let mut manifest = create_manifest();
    manifest.packages = vec![Package {
        id: "com.example.pkg".to_string(),
        repository: repo("owner/repo"),
    }];

    let mut pkg_manifest = create_version_output("com.example.pkg", "1.0.0");
    pkg_manifest
        .legacy_folders
        .push(("Assets/Old".to_string(), "Assets/New".to_string()));
    pkg_manifest
        .legacy_files
        .push(("Assets/Old.prefab".to_string(), "Assets/New.prefab".to_string()));
    pkg_manifest.legacy_packages.push("com.example.legacy".to_string());
    pkg_manifest.changelog_url = "https://example.com/changelog".to_string();
    pkg_manifest.zip_sha256 = "deadbeef".to_string();
    pkg_manifest.extra.push((
        "documentationUrl".to_string(),
        "\"https://example.com/docs\"".to_string(),
    ));

    let mut lockfile = Lockfile::new();
    lockfile.packages.push(LockedPackage {
        id: "com.example.pkg".to_string(),
        repository: repo("owner/repo"),
        versions: vec![LockedVersion::new(
            "v1.0.0".to_string(),
            "https://example.com/v1.zip".to_string(),
            r#"{"name":"pkg"}"#,
            pkg_manifest,
        )],
    });

    let output = generate_from_lockfile(&manifest, &lockfile).unwrap();
    let version = &find_package(&output, "com.example.pkg").unwrap().versions[0].1;

    assert!(version
        .legacy_folders
        .iter()
        .any(|(k, v)| k == "Assets/Old" && v == "Assets/New"));
    assert!(version
        .legacy_files
        .iter()
        .any(|(k, v)| k == "Assets/Old.prefab" && v == "Assets/New.prefab"));
    assert_eq!(version.legacy_packages, vec!["com.example.legacy"]);
    assert_eq!(version.changelog_url, "https://example.com/changelog");
    assert_eq!(version.zip_sha256, "deadbeef");
    assert!(version
        .extra
        .iter()
        .any(|(k, v)| k == "documentationUrl" && v == "\"https://example.com/docs\""));
}
