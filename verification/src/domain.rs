//! Core domain values: repository coordinates and upstream releases.

use vstd::prelude::*;

use crate::chars::{is_alnum, push_char, spec_is_alnum, str_to_chars};
use crate::validation::{spec_find_char, subvec};

verus! {

/// Whether two string slices hold the same characters.
pub fn str_eq(a: &str, b: &str) -> (r: bool)
    ensures
        r == (a@ == b@),
{
    let an = a.unicode_len();
    let bn = b.unicode_len();
    if an != bn {
        proof {
            assert(a@ != b@);
        }
        return false;
    }
    let mut i: usize = 0;
    while i < an
        invariant
            i <= an,
            an == a@.len() == b@.len(),
            forall|j: int| 0 <= j < i ==> a@[j] == b@[j],
        decreases an - i,
    {
        if a.get_char(i) != b.get_char(i) {
            return false;
        }
        i = i + 1;
    }
    proof {
        assert(a@ =~= b@);
    }
    true
}

/// A repository coordinate of the form `owner/repo`.
#[derive(Debug, Clone)]
pub struct Repository {
    pub owner: String,
    pub repo: String,
}

impl PartialEq for Repository {
    fn eq(&self, other: &Repository) -> (r: bool) {
        self.owner == other.owner && self.repo == other.repo
    }
}

impl vstd::std_specs::cmp::PartialEqSpecImpl for Repository {
    open spec fn obeys_eq_spec() -> bool {
        true
    }

    open spec fn eq_spec(&self, other: &Repository) -> bool {
        self.owner@ == other.owner@ && self.repo@ == other.repo@
    }
}

/// A repository string that could not be parsed.
#[derive(Debug, Clone, PartialEq, Eq)]
pub struct RepositoryParseError {
    input: String,
}

impl RepositoryParseError {
    /// Records the string that failed to parse.
    pub fn new(input: &str) -> (r: RepositoryParseError)
        ensures
            r.spec_input() == input@,
    {
        RepositoryParseError { input: input.to_owned() }
    }

    /// The rejected input, at the spec level.
    pub closed spec fn spec_input(&self) -> Seq<char> {
        self.input@
    }

    /// The string that failed to parse.
    pub fn input(&self) -> (r: &str)
        ensures
            r@ == self.spec_input(),
    {
        self.input.as_str()
    }

    /// A human-readable description of the failure.
    pub fn message(&self) -> (r: String)
        ensures
            r@ == "Invalid repository format '"@ + self.spec_input()
                + "', expected 'owner/repo'"@,
    {
        let m = "Invalid repository format '".to_owned();
        let m = m.concat(self.input.as_str());
        m.concat("', expected 'owner/repo'")
    }
}

/// A valid repository owner: non-empty, at most 39 characters, ASCII
/// alphanumerics and hyphens, with no leading or trailing hyphen.
pub open spec fn spec_is_owner(o: Seq<char>) -> bool {
    &&& 0 < o.len() <= 39
    &&& o[0] != '-'
    &&& o[o.len() - 1] != '-'
    &&& forall|i: int| 0 <= i < o.len() ==> spec_is_alnum(#[trigger] o[i]) || o[i] == '-'
}

/// A valid repository name: non-empty, ASCII alphanumerics, hyphens,
/// underscores and dots.
pub open spec fn spec_is_repo(r: Seq<char>) -> bool {
    &&& r.len() > 0
    &&& forall|i: int|
        0 <= i < r.len() ==> spec_is_alnum(#[trigger] r[i]) || r[i] == '-' || r[i] == '_' || r[i]
            == '.'
}

/// A parseable repository coordinate: exactly one `/`, a valid owner before
/// it and a valid repository name after it.
pub open spec fn spec_repo_parses(s: Seq<char>) -> bool {
    let i = spec_find_char(s, '/');
    &&& i >= 0
    &&& i < s.len()
    &&& spec_find_char(s.subrange(i + 1, s.len() as int), '/') < 0
    &&& spec_is_owner(s.subrange(0, i))
    &&& spec_is_repo(s.subrange(i + 1, s.len() as int))
}

fn is_valid_owner(owner: &Vec<char>) -> (r: bool)
    requires
        owner@.len() > 0,
    ensures
        r == spec_is_owner(owner@),
{
    if owner.len() > 39 {
        return false;
    }
    if owner.len() > 0 && (owner[0] == '-' || owner[owner.len() - 1] == '-') {
        return false;
    }
    let mut i: usize = 0;
    while i < owner.len()
        invariant
            i <= owner@.len(),
            forall|j: int| 0 <= j < i ==> spec_is_alnum(#[trigger] owner@[j]) || owner@[j] == '-',
        decreases owner@.len() - i,
    {
        if !(is_alnum(owner[i]) || owner[i] == '-') {
            return false;
        }
        i = i + 1;
    }
    true
}

fn is_valid_repo(repo: &Vec<char>) -> (r: bool)
    requires
        repo@.len() > 0,
    ensures
        r == spec_is_repo(repo@),
{
    let mut i: usize = 0;
    while i < repo.len()
        invariant
            i <= repo@.len(),
            forall|j: int|
                0 <= j < i ==> spec_is_alnum(#[trigger] repo@[j]) || repo@[j] == '-' || repo@[j]
                    == '_' || repo@[j] == '.',
        decreases repo@.len() - i,
    {
        if !(is_alnum(repo[i]) || repo[i] == '-' || repo[i] == '_' || repo[i] == '.') {
            return false;
        }
        i = i + 1;
    }
    true
}

impl Repository {
    /// Parses `owner/repo`.  The owner must be a valid account name (at most
    /// 39 characters, alphanumerics and interior hyphens); the repository
    /// name accepts alphanumerics, hyphens, underscores and dots.
    pub fn parse(s: &str) -> (r: Result<Repository, RepositoryParseError>)
        ensures
            r is Ok <==> spec_repo_parses(s@),
            r matches Ok(repo) ==> {
                let i = spec_find_char(s@, '/');
                repo.owner@ == s@.subrange(0, i) && repo.repo@ == s@.subrange(
                    i + 1,
                    s@.len() as int,
                )
            },
            r matches Err(e) ==> e.spec_input() == s@,
    {
        let cs = str_to_chars(s);
        let n = cs.len();
        let slash = crate::validation::find_char(&cs, '/');
        match slash {
            None => Err(RepositoryParseError::new(s)),
            Some(i) => {
                let owner = subvec(&cs, 0, i);
                let repo = subvec(&cs, i + 1, n);
                let second = crate::validation::find_char(&repo, '/');
                if second.is_some() {
                    proof {
                        crate::validation::lemma_find_char_bounds(repo@, '/');
                    }
                    return Err(RepositoryParseError::new(s));
                }
                if owner.len() == 0 || repo.len() == 0 {
                    return Err(RepositoryParseError::new(s));
                }
                if !is_valid_owner(&owner) || !is_valid_repo(&repo) {
                    return Err(RepositoryParseError::new(s));
                }
                Ok(
                    Repository {
                        owner: crate::chars::chars_to_string(owner.as_slice()),
                        repo: crate::chars::chars_to_string(repo.as_slice()),
                    },
                )
            },
        }
    }

    /// The `owner/repo` form of this coordinate.
    pub fn to_display_string(&self) -> (r: String)
        ensures
            r@ == self.owner@ + seq!['/'] + self.repo@,
    {
        let mut m = self.owner.clone();
        push_char(&mut m, '/');
        m.concat(self.repo.as_str())
    }
}

/// The version a release tag denotes: the tag with one leading `v` stripped.
pub open spec fn spec_tag_version(t: Seq<char>) -> Seq<char> {
    if t.len() > 0 && t[0] == 'v' {
        t.drop_first()
    } else {
        t
    }
}

/// An upstream release: its tag, and the download URL of the configured
/// asset when the release carries one.
#[derive(Debug, Clone)]
pub struct Release {
    tag: String,
    asset_url: Option<String>,
}

impl Release {
    /// The tag, at the spec level.
    pub closed spec fn spec_tag(&self) -> Seq<char> {
        self.tag@
    }

    /// The asset URL, at the spec level.
    pub closed spec fn spec_asset_url(&self) -> Option<Seq<char>> {
        match self.asset_url {
            Some(u) => Some(u@),
            None => None,
        }
    }

    /// The version this release denotes, at the spec level.
    pub open spec fn spec_version(&self) -> Seq<char> {
        spec_tag_version(self.spec_tag())
    }

    /// Bundles a tag with the asset URL found for it, if any.
    pub fn new(tag: String, asset_url: Option<String>) -> (r: Release)
        ensures
            r.spec_tag() == tag@,
            r.spec_asset_url() == asset_url.deep_view(),
    {
        Release { tag, asset_url }
    }

    /// The upstream tag, exactly as listed.
    pub fn tag(&self) -> (r: &str)
        ensures
            r@ == self.spec_tag(),
    {
        self.tag.as_str()
    }

    /// The version the tag denotes: the tag with a single leading `v`
    /// stripped, if one is present.
    pub fn version(&self) -> (r: &str)
        ensures
            r@ == self.spec_version(),
    {
        let n = self.tag.as_str().unicode_len();
        if n > 0 && self.tag.as_str().get_char(0) == 'v' {
            let r = self.tag.as_str().substring_char(1, n);
            proof {
                assert(r@ =~= self.tag@.drop_first());
            }
            r
        } else {
            self.tag.as_str()
        }
    }

    /// The asset download URL, when the release carries the configured
    /// asset.
    pub fn asset_url(&self) -> (r: Option<&str>)
        ensures
            r is Some <==> self.spec_asset_url() is Some,
            r matches Some(u) ==> self.spec_asset_url() == Some(u@),
    {
        match &self.asset_url {
            Some(u) => Some(u.as_str()),
            None => None,
        }
    }

    /// Whether this release is downloadable and not yet locked.
    pub open spec fn spec_is_new(&self, existing: Seq<Seq<char>>) -> bool {
        self.spec_asset_url() is Some && !existing.contains(self.spec_version())
    }

    /// The downloadable releases whose versions are not yet present, in
    /// listing order.
    pub open spec fn spec_filter_new(rs: Seq<Release>, existing: Seq<Seq<char>>) -> Seq<Release>
        decreases rs.len(),
    {
        if rs.len() == 0 {
            Seq::empty()
        } else {
            let rest = Self::spec_filter_new(rs.drop_last(), existing);
            if rs.last().spec_is_new(existing) {
                rest.push(rs.last())
            } else {
                rest
            }
        }
    }

    /// Keeps the releases that carry an asset and whose version is not in
    /// `existing_versions`, preserving their order.
    pub fn filter_new(releases: &Vec<Release>, existing_versions: &Vec<String>) -> (r: Vec<
        Release,
    >)
        ensures
            r@ == Self::spec_filter_new(releases@, existing_versions.deep_view()),
    {
        let ghost ex = existing_versions.deep_view();
        let mut r: Vec<Release> = Vec::new();
        let mut i: usize = 0;
        while i < releases.len()
            invariant
                i <= releases@.len(),
                ex == existing_versions.deep_view(),
                r@ == Self::spec_filter_new(releases@.subrange(0, i as int), ex),
            decreases releases@.len() - i,
        {
            let rel = &releases[i];
            let keep = if rel.asset_url.is_some() {
                let v = rel.version();
                let mut found = false;
                let mut j: usize = 0;
                while j < existing_versions.len()
                    invariant
                        j <= existing_versions@.len(),
                        ex == existing_versions.deep_view(),
                        v@ == rel.spec_version(),
                        found <==> exists|k: int| 0 <= k < j && ex[k] == v@,
                    decreases existing_versions@.len() - j,
                {
                    proof {
                        assert(ex[j as int] == existing_versions@[j as int]@);
                    }
                    if str_eq(existing_versions[j].as_str(), v) {
                        found = true;
                    }
                    j = j + 1;
                }
                proof {
                    if found {
                        let k = choose|k: int| 0 <= k < existing_versions@.len() && ex[k] == v@;
                        assert(ex.contains(rel.spec_version()));
                    } else {
                        if ex.contains(rel.spec_version()) {
                            let k = choose|k: int| 0 <= k < ex.len() && ex[k] == rel.spec_version();
                            assert(false);
                        }
                    }
                }
                !found
            } else {
                false
            };
            if keep {
                r.push(releases[i].clone_release());
            }
            i = i + 1;
            proof {
                assert(releases@.subrange(0, i as int).drop_last() =~= releases@.subrange(
                    0,
                    i as int - 1,
                ));
                assert(releases@.subrange(0, i as int).last() == releases@[i - 1]);
            }
        }
        proof {
            assert(releases@.subrange(0, releases@.len() as int) =~= releases@);
        }
        r
    }

    /// A field-for-field copy.
    pub fn clone_release(&self) -> (r: Release)
        ensures
            r == *self,
    {
        Release {
            tag: self.tag.clone(),
            asset_url: match &self.asset_url {
                Some(u) => Some(u.clone()),
                None => None,
            },
        }
    }
}

} // verus!
