use voyager::domain::Repository;

#[test]
fn parses_valid_owner_repo() {
    let repo = Repository::parse("owner/repo").unwrap();
    assert_eq!(repo.owner, "owner");
    assert_eq!(repo.repo, "repo");
}

#[test]
fn parses_owner_repo_with_hyphens() {
    let repo = Repository::parse("my-owner/my-repo").unwrap();
    assert_eq!(repo.owner, "my-owner");
    assert_eq!(repo.repo, "my-repo");
}

#[test]
fn parses_repo_with_dots() {
    let repo = Repository::parse("owner/repo.name").unwrap();
    assert_eq!(repo.owner, "owner");
    assert_eq!(repo.repo, "repo.name");
}

#[test]
fn fails_on_multiple_slashes() {
    let result = Repository::parse("owner/repo/extra");
    assert!(result.is_err());
}

#[test]
fn fails_on_missing_slash() {
    let result = Repository::parse("ownerrepo");
    assert!(result.is_err());
}

#[test]
fn fails_on_empty_owner() {
    let result = Repository::parse("/repo");
    assert!(result.is_err());
}

#[test]
fn fails_on_empty_repo() {
    let result = Repository::parse("owner/");
    assert!(result.is_err());
}

#[test]
fn repository_fails_on_empty_string() {
    let result = Repository::parse("");
    assert!(result.is_err());
}

#[test]
fn fails_on_only_slash() {
    let result = Repository::parse("/");
    assert!(result.is_err());
}

#[test]
fn fails_on_owner_with_dot() {
    let result = Repository::parse("owner.name/repo");
    assert!(result.is_err());
}

#[test]
fn fails_on_owner_starting_with_hyphen() {
    let result = Repository::parse("-owner/repo");
    assert!(result.is_err());
}

#[test]
fn fails_on_owner_ending_with_hyphen() {
    let result = Repository::parse("owner-/repo");
    assert!(result.is_err());
}

#[test]
fn fails_on_repo_with_space() {
    let result = Repository::parse("owner/my repo");
    assert!(result.is_err());
}

#[test]
fn formats_as_owner_slash_repo() {
    let repo = Repository::parse("owner/repo").unwrap();
    assert_eq!(repo.to_display_string(), "owner/repo");
}

#[test]
fn formats_complex_names() {
    let repo = Repository::parse("my-owner/my-repo").unwrap();
    assert_eq!(repo.to_display_string(), "my-owner/my-repo");
}

#[test]
fn parse_error_keeps_the_input() {
    let result = Repository::parse("not a repo");
    let err = result.unwrap_err();
    assert_eq!(err.input(), "not a repo");
    assert!(err.message().contains("expected 'owner/repo'"));
}
