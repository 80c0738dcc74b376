use voyager::error::Error;
use voyager::lockfile::compute_hash;
use voyager::manifest::{Manifest, Package, Vpm};
use voyager::toml_text::{manifest_from_toml, manifest_to_toml, parse_manifest_toml};
use voyager::domain::Repository;
use voyager::gate::{check_and_load, compute_manifest_hash_from_manifest};
use voyager::lockfile::Lockfile;

#[test]
fn loads_valid_manifest() {
    let content = r#"
[vpm]
id = "com.example.vpm"
name = "Example VPM"
author = "Test Author"
url = "https://example.com/vpm.json"

[[packages]]
id = "com.example.vpm.package"
repository = "owner/repo"
"#;
    let manifest = manifest_from_toml(content).unwrap();

    assert_eq!(manifest.vpm.id, "com.example.vpm");
    assert_eq!(manifest.vpm.name, "Example VPM");
    assert_eq!(manifest.vpm.author, "Test Author");
    assert_eq!(manifest.vpm.url, "https://example.com/vpm.json");
    assert_eq!(manifest.packages.len(), 1);
    assert_eq!(manifest.packages[0].id, "com.example.vpm.package");
}

#[test]
fn loads_manifest_with_multiple_packages() {
    let content = r#"
[vpm]
id = "com.example.vpm"
name = "Example VPM"
author = "Test Author"
url = "https://example.com/vpm.json"

[[packages]]
id = "com.example.vpm.package1"
repository = "owner/repo1"

[[packages]]
id = "com.example.vpm.package2"
repository = "owner/repo2"
"#;
    let manifest = manifest_from_toml(content).unwrap();
    assert_eq!(manifest.packages.len(), 2);
}

#[test]
fn allows_empty_packages() {
    let content = r#"
[vpm]
id = "com.example.vpm"
name = "Example VPM"
author = "Test Author"
url = "https://example.com/vpm.json"

packages = []
"#;
    let manifest = manifest_from_toml(content).unwrap();
    assert!(manifest.packages.is_empty());
}

#[test]
fn allows_missing_packages() {
    let content = r#"
[vpm]
id = "com.example.vpm"
name = "Example VPM"
author = "Test Author"
url = "https://example.com/vpm.json"
"#;
    let manifest = manifest_from_toml(content).unwrap();
    assert!(manifest.packages.is_empty());
}

#[test]
fn fails_on_invalid_vpm_id() {
    let content = r#"
[vpm]
id = "invalid"
name = "Example VPM"
author = "Test Author"
url = "https://example.com/vpm.json"

[[packages]]
id = "com.example.vpm.package"
repository = "owner/repo"
"#;
    let result = manifest_from_toml(content);
    assert!(matches!(result, Err(Error::InvalidPackageId(_))));
}

#[test]
fn fails_on_invalid_package_id() {
    let content = r#"
[vpm]
id = "com.example.vpm"
name = "Example VPM"
author = "Test Author"
url = "https://example.com/vpm.json"

[[packages]]
id = "invalid"
repository = "owner/repo"
"#;
    let result = manifest_from_toml(content);
    assert!(matches!(result, Err(Error::InvalidPackageId(_))));
}

#[test]
fn fails_when_package_id_prefix_does_not_match_vpm_id() {
    let content = r#"
[vpm]
id = "com.example.vpm"
name = "Example VPM"
author = "Test Author"
url = "https://example.com/vpm.json"

[[packages]]
id = "org.other.package"
repository = "owner/repo"
"#;
    let result = manifest_from_toml(content);
    assert!(matches!(result, Err(Error::InvalidPackageId(_))));
}

#[test]
fn fails_on_invalid_url() {
    let content = r#"
[vpm]
id = "com.example.vpm"
name = "Example VPM"
author = "Test Author"
url = "invalid-url"

[[packages]]
id = "com.example.vpm.package"
repository = "owner/repo"
"#;
    let result = manifest_from_toml(content);
    assert!(matches!(result, Err(Error::InvalidUrl(_, _))));
}

#[test]
fn fails_on_empty_vpm_name() {
    let content = r#"
[vpm]
id = "com.example.vpm"
name = ""
author = "Test Author"
url = "https://example.com/vpm.json"
"#;
    let result = manifest_from_toml(content);
    assert!(matches!(result, Err(Error::ConfigValidation(_))));
}

#[test]
fn fails_on_duplicate_package_id() {
    let content = r#"
[vpm]
id = "com.example.vpm"
name = "Example VPM"
author = "Test Author"
url = "https://example.com/vpm.json"

[[packages]]
id = "com.example.vpm.package"
repository = "owner/repo1"

[[packages]]
id = "com.example.vpm.package"
repository = "owner/repo2"
"#;
    let result = manifest_from_toml(content);
    assert!(matches!(result, Err(Error::ConfigValidation(msg)) if msg.contains("Duplicate")));
}

#[test]
fn fails_on_invalid_toml() {
    let content = "invalid toml content {{{";
    let result = manifest_from_toml(content);
    assert!(matches!(result, Err(Error::TomlParse { .. })));
}

#[test]
fn fails_on_bad_repository_coordinate() {
    let content = r#"
[vpm]
id = "com.example.vpm"
name = "Example VPM"
author = "Test Author"
url = "https://example.com/vpm.json"

[[packages]]
id = "com.example.vpm.package"
repository = "not-a-repo"
"#;
    assert!(parse_manifest_toml(content).is_err());
}

#[test]
fn parser_ignores_comments_and_unknown_keys() {
    let content = "# top comment\n[vpm]\nid = \"com.example.vpm\" # trailing\nname = \"N\"\nauthor = \"A\"\nurl = \"https://example.com/x.json\"\nnickname = \"ignored\"\n";
    let manifest = manifest_from_toml(content).unwrap();
    assert_eq!(manifest.vpm.name, "N");
}

fn sample_manifest(name: &str) -> Manifest {
    Manifest {
        vpm: Vpm {
            id: "com.example.vpm".to_string(),
            name: name.to_string(),
            author: "Author".to_string(),
            url: "https://example.com/index.json".to_string(),
        },
        packages: vec![Package {
            id: "com.example.vpm.pkg".to_string(),
            repository: Repository::parse("owner/repo").unwrap(),
        }],
    }
}

#[test]
fn manifest_load_and_save_roundtrip() {
    let manifest = sample_manifest("Example");
    let text = manifest_to_toml(&manifest);
    let reloaded = manifest_from_toml(text.as_str()).unwrap();
    assert_eq!(reloaded.vpm.id, manifest.vpm.id);
    assert_eq!(reloaded.vpm.name, manifest.vpm.name);
    assert_eq!(reloaded.vpm.author, manifest.vpm.author);
    assert_eq!(reloaded.vpm.url, manifest.vpm.url);
    assert_eq!(reloaded.packages.len(), 1);
    assert_eq!(reloaded.packages[0].id, manifest.packages[0].id);
    assert_eq!(reloaded.packages[0].repository, manifest.packages[0].repository);

    let text2 = manifest_to_toml(&reloaded);
    assert_eq!(text, text2);
}

#[test]
fn round_trip_survives_escaped_characters() {
    let mut manifest = sample_manifest("Name \"quoted\" and \\slashed\\");
    manifest.vpm.author = "Line\nbreak\tand tab".to_string();
    let text = manifest_to_toml(&manifest);
    let reloaded = manifest_from_toml(text.as_str()).unwrap();
    assert_eq!(reloaded.vpm.name, manifest.vpm.name);
    assert_eq!(reloaded.vpm.author, manifest.vpm.author);
}

#[test]
fn hashing_is_idempotent_under_round_trip() {
    let manifest = sample_manifest("Example");
    let hash1 = compute_manifest_hash_from_manifest(&manifest);
    let reloaded = manifest_from_toml(manifest_to_toml(&manifest).as_str()).unwrap();
    let hash2 = compute_manifest_hash_from_manifest(&reloaded);
    assert_eq!(hash1, hash2);
}

#[test]
fn hash_ignores_formatting_noise() {
    let noisy = "# a comment\n[vpm]\n  id = \"com.example.vpm\"\n  name = \"Example\"\nauthor = \"Author\"\nurl = \"https://example.com/index.json\"\n\n\n[[packages]]\nid = \"com.example.vpm.pkg\"   \nrepository = \"owner/repo\"\n";
    let clean = manifest_to_toml(&manifest_from_toml(noisy).unwrap());
    let h1 = compute_manifest_hash_from_manifest(&manifest_from_toml(noisy).unwrap());
    let h2 = compute_manifest_hash_from_manifest(&manifest_from_toml(clean.as_str()).unwrap());
    assert_eq!(h1, h2);
}

#[test]
fn manifest_hash_matches_plain_content_hash_of_canonical_text() {
    let manifest = sample_manifest("Example");
    let text = manifest_to_toml(&manifest);
    assert_eq!(
        compute_manifest_hash_from_manifest(&manifest),
        compute_hash(text.as_str())
    );
}

#[test]
fn check_and_load_works_with_valid_files() {
    let manifest = sample_manifest("Example");
    let mut lockfile = Lockfile::new();
    lockfile.manifest_hash = Some(compute_manifest_hash_from_manifest(&manifest));
    let result = check_and_load(manifest, lockfile).unwrap();
    assert_eq!(result.manifest.vpm.name, "Example");
    assert!(result.lockfile.manifest_hash.is_some());
}

#[test]
fn check_and_load_creates_lockfile_if_missing() {
    let manifest = sample_manifest("Example");
    let lockfile = Lockfile::new();
    let result = check_and_load(manifest, lockfile).unwrap();
    assert_eq!(result.current_hash, {
        let m = sample_manifest("Example");
        compute_manifest_hash_from_manifest(&m)
    });
}

#[test]
fn fetch_fails_on_manifest_hash_mismatch() {
    let manifest = sample_manifest("Example");
    let mut lockfile = Lockfile::new();
    lockfile.manifest_hash = Some("definitely-wrong-hash".to_string());
    let result = check_and_load(manifest, lockfile);
    assert!(matches!(result, Err(Error::ManifestHashMismatch)));
    assert_eq!(Error::ManifestHashMismatch.exit_code().0, 78);
}

#[test]
fn manifest_validation_rejects_invalid_vpm_id() {
    let mut manifest = sample_manifest("Example");
    manifest.vpm.id = "invalid".to_string();
    assert!(manifest.validate().is_err());
}

#[test]
fn manifest_validation_rejects_invalid_url() {
    let mut manifest = sample_manifest("Example");
    manifest.vpm.url = "nope".to_string();
    assert!(manifest.validate().is_err());
}

#[test]
fn manifest_validation_rejects_invalid_package_id() {
    let mut manifest = sample_manifest("Example");
    manifest.packages[0].id = "bad".to_string();
    assert!(manifest.validate().is_err());
}

#[test]
fn manifest_rejects_duplicate_package_ids() {
    let mut manifest = sample_manifest("Example");
    let dup = Package {
        id: manifest.packages[0].id.clone(),
        repository: Repository::parse("owner/other").unwrap(),
    };
    manifest.packages.push(dup);
    assert!(manifest.validate().is_err());
}
