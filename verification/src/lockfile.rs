//! The machine-maintained lockfile: locked packages, their versions, the
//! normalized per-release metadata, and content hashing.

use vstd::prelude::*;

use crate::chars::chars_to_string;
use crate::domain::{str_eq, Repository};
use crate::error::Error;

verus! {

/// A sample entry of a package manifest.
#[derive(Debug, Clone, PartialEq, Eq)]
pub struct Sample {
    pub display_name: String,
    pub description: String,
    pub path: String,
}

/// A package author: name, and optional email and URL.
#[derive(Debug, Clone, PartialEq, Eq)]
pub struct PackageAuthor {
    pub name: String,
    pub email: String,
    pub url: String,
}

impl Default for PackageAuthor {
    /// An author with every field empty.
    fn default() -> (r: PackageAuthor)
        ensures
            r.name@.len() == 0 && r.email@.len() == 0 && r.url@.len() == 0,
    {
        PackageAuthor { name: String::new(), email: String::new(), url: String::new() }
    }
}

/// The normalized per-release metadata kept in the lockfile.  Optional
/// string fields hold the empty string when absent; map-like fields keep
/// their document order as key-value pairs; `extra` preserves unknown fields
/// verbatim, each value as its raw JSON text.
#[derive(Debug, Clone)]
pub struct PackageManifest {
    pub name: String,
    pub version: String,
    pub display_name: String,
    pub description: String,
    pub unity: String,
    pub unity_release: String,
    pub dependencies: Vec<(String, String)>,
    pub keywords: Vec<String>,
    pub author: PackageAuthor,
    pub vpm_dependencies: Vec<(String, String)>,
    pub legacy_folders: Vec<(String, String)>,
    pub legacy_files: Vec<(String, String)>,
    pub legacy_packages: Vec<String>,
    pub documentation_url: String,
    pub changelog_url: String,
    pub licenses_url: String,
    pub samples: Vec<Sample>,
    pub hide_in_editor: Option<bool>,
    pub package_type: String,
    pub zip_sha256: String,
    pub url: String,
    pub license: String,
    pub extra: Vec<(String, String)>,
}

/// One locked release of a package.
#[derive(Debug, Clone)]
pub struct LockedVersion {
    pub version: String,
    pub tag: String,
    pub url: String,
    pub hash: String,
    pub manifest: PackageManifest,
}

/// A locked package: its id, its repository coordinate, and its known
/// releases, newest first.
#[derive(Debug, Clone)]
pub struct LockedPackage {
    pub id: String,
    pub repository: Repository,
    pub versions: Vec<LockedVersion>,
}

/// The lockfile: a format version, the hash of the manifest it was written
/// against, and the locked packages in manifest order.
#[derive(Debug, Clone)]
pub struct Lockfile {
    pub version: u32,
    pub manifest_hash: Option<String>,
    pub packages: Vec<LockedPackage>,
}

/// The one lockfile format version this library reads and writes.
pub open spec fn spec_lockfile_version() -> u32 {
    1u32
}

/// The lowercase hex digit for a value below 16.
pub open spec fn spec_hex_char(n: int) -> char {
    if n == 0 {
        '0'
    } else if n == 1 {
        '1'
    } else if n == 2 {
        '2'
    } else if n == 3 {
        '3'
    } else if n == 4 {
        '4'
    } else if n == 5 {
        '5'
    } else if n == 6 {
        '6'
    } else if n == 7 {
        '7'
    } else if n == 8 {
        '8'
    } else if n == 9 {
        '9'
    } else if n == 10 {
        'a'
    } else if n == 11 {
        'b'
    } else if n == 12 {
        'c'
    } else if n == 13 {
        'd'
    } else if n == 14 {
        'e'
    } else {
        'f'
    }
}

fn hex_char(n: u8) -> (r: char)
    requires
        n < 16,
    ensures
        r == spec_hex_char(n as int),
{
    if n == 0 {
        '0'
    } else if n == 1 {
        '1'
    } else if n == 2 {
        '2'
    } else if n == 3 {
        '3'
    } else if n == 4 {
        '4'
    } else if n == 5 {
        '5'
    } else if n == 6 {
        '6'
    } else if n == 7 {
        '7'
    } else if n == 8 {
        '8'
    } else if n == 9 {
        '9'
    } else if n == 10 {
        'a'
    } else if n == 11 {
        'b'
    } else if n == 12 {
        'c'
    } else if n == 13 {
        'd'
    } else if n == 14 {
        'e'
    } else {
        'f'
    }
}

/// The lowercase hex encoding of a byte sequence, two digits per byte.
pub open spec fn spec_to_hex(bs: Seq<u8>) -> Seq<char>
    decreases bs.len(),
{
    if bs.len() == 0 {
        Seq::empty()
    } else {
        spec_to_hex(bs.drop_last()) + seq![
            spec_hex_char(bs.last() as int / 16),
            spec_hex_char(bs.last() as int % 16),
        ]
    }
}

fn to_hex(bs: &Vec<u8>) -> (r: Vec<char>)
    ensures
        r@ == spec_to_hex(bs@),
        r@.len() == bs@.len() * 2,
{
    let mut r: Vec<char> = Vec::new();
    let mut i: usize = 0;
    while i < bs.len()
        invariant
            i <= bs@.len(),
            r@ == spec_to_hex(bs@.subrange(0, i as int)),
            r@.len() == i * 2,
        decreases bs@.len() - i,
    {
        let b = bs[i];
        r.push(hex_char(b / 16));
        r.push(hex_char(b % 16));
        i = i + 1;
        proof {
            assert(bs@.subrange(0, i as int).drop_last() =~= bs@.subrange(0, i as int - 1));
            assert(bs@.subrange(0, i as int).last() == bs@[i - 1]);
            assert(r@ =~= spec_to_hex(bs@.subrange(0, i as int)));
        }
    }
    proof {
        assert(bs@.subrange(0, bs@.len() as int) =~= bs@);
    }
    r
}

/// The SHA-256 digest of a string's UTF-8 bytes.
pub uninterp spec fn spec_sha256(s: Seq<char>) -> Seq<u8>;

/// Relies on `sha2::Sha256::digest`: the 32-byte SHA-256 digest of the
/// input's UTF-8 bytes, a function of the input alone.
#[verifier::external_body]
fn sha256_digest(content: &str) -> (r: Vec<u8>)
    ensures
        r@ == spec_sha256(content@),
        r@.len() == 32,
{
    <sha2::Sha256 as sha2::Digest>::digest(content.as_bytes()).to_vec()
}

/// The content-hash line stored for a document: `sha256:` followed by the
/// lowercase hex digest.
pub open spec fn spec_hash_line(s: Seq<char>) -> Seq<char> {
    "sha256:"@ + spec_to_hex(spec_sha256(s))
}

/// Hashes a document into the `sha256:<hex>` form used throughout the
/// lockfile.
pub fn compute_hash(content: &str) -> (r: String)
    ensures
        r@ == spec_hash_line(content@),
{
    let digest = sha256_digest(content);
    let hex = to_hex(&digest);
    let m = "sha256:".to_owned();
    m.concat(chars_to_string(hex.as_slice()).as_str())
}

impl LockedVersion {
    /// Locks one release: the version comes from the validated metadata, and
    /// the hash is taken over the raw document exactly as downloaded.
    pub fn new(tag: String, url: String, raw_content: &str, manifest: PackageManifest) -> (r:
        LockedVersion)
        ensures
            r.version == manifest.version,
            r.tag == tag,
            r.url == url,
            r.hash@ == spec_hash_line(raw_content@),
            r.manifest == manifest,
    {
        let hash = compute_hash(raw_content);
        LockedVersion { version: manifest.version.clone(), tag, url, hash, manifest }
    }
}

/// The first index among `vs` holding `version`, or -1.
pub open spec fn spec_version_index(vs: Seq<LockedVersion>, version: Seq<char>) -> int
    decreases vs.len(),
{
    if vs.len() == 0 {
        -1
    } else if vs[0].version@ == version {
        0
    } else {
        let r = spec_version_index(vs.drop_first(), version);
        if r < 0 {
            -1
        } else {
            r + 1
        }
    }
}

/// A found version index lies inside the sequence and holds the version.
pub proof fn lemma_version_index(vs: Seq<LockedVersion>, version: Seq<char>)
    ensures
        spec_version_index(vs, version) >= 0 ==> spec_version_index(vs, version) < vs.len() && vs[
            spec_version_index(vs, version)
        ].version@ == version,
        spec_version_index(vs, version) < 0 ==> forall|k: int|
            0 <= k < vs.len() ==> #[trigger] vs[k].version@ != version,
    decreases vs.len(),
{
    if vs.len() > 0 && vs[0].version@ != version {
        lemma_version_index(vs.drop_first(), version);
        if spec_version_index(vs, version) < 0 {
            assert forall|k: int| 0 <= k < vs.len() implies #[trigger] vs[k].version@
                != version by {
                if k > 0 {
                    assert(vs.drop_first()[k - 1] == vs[k]);
                }
            }
        }
    }
}

impl LockedPackage {
    /// The versions currently locked for this package, in lockfile order.
    pub fn existing_versions(&self) -> (r: Vec<String>)
        ensures
            r@.len() == self.versions@.len(),
            forall|k: int| 0 <= k < r@.len() ==> #[trigger] r@[k]@ == self.versions@[k].version@,
    {
        let mut r: Vec<String> = Vec::new();
        let mut i: usize = 0;
        while i < self.versions.len()
            invariant
                i <= self.versions@.len(),
                r@.len() == i,
                forall|k: int| 0 <= k < i ==> #[trigger] r@[k]@ == self.versions@[k].version@,
            decreases self.versions@.len() - i,
        {
            r.push(self.versions[i].version.clone());
            i = i + 1;
        }
        r
    }

    /// The first locked release with the given version, if any.
    pub fn get_version(&self, version: &str) -> (r: Option<&LockedVersion>)
        ensures
            r matches Some(v) ==> spec_version_index(self.versions@, version@) >= 0 && *v
                == self.versions@[spec_version_index(self.versions@, version@)],
            r is None ==> spec_version_index(self.versions@, version@) < 0,
    {
        proof {
            lemma_version_index(self.versions@, version@);
        }
        let mut i: usize = 0;
        while i < self.versions.len()
            invariant
                i <= self.versions@.len(),
                forall|k: int| 0 <= k < i ==> #[trigger] self.versions@[k].version@ != version@,
            decreases self.versions@.len() - i,
        {
            if str_eq(self.versions[i].version.as_str(), version) {
                proof {
                    lemma_version_index_first(self.versions@, version@, i as int);
                }
                return Some(&self.versions[i]);
            }
            i = i + 1;
        }
        None
    }

    /// Adds a release unless one with the same version is already locked.
    pub fn add_version(&mut self, version: LockedVersion)
        ensures
            spec_version_index(old(self).versions@, version.version@) >= 0 ==> *final(self)
                == *old(self),
            spec_version_index(old(self).versions@, version.version@) < 0 ==> final(self).versions@
                == old(self).versions@.push(version) && final(self).id == old(self).id
                && final(self).repository == old(self).repository,
    {
        let existing = self.get_version(version.version.as_str());
        let absent = existing.is_none();
        proof {
            lemma_version_index(self.versions@, version.version@);
        }
        if absent {
            self.versions.push(version);
        }
    }
}

/// When `version` first occurs at `i`, the first index is `i`.
pub proof fn lemma_version_index_first(vs: Seq<LockedVersion>, version: Seq<char>, i: int)
    requires
        0 <= i < vs.len(),
        vs[i].version@ == version,
        forall|k: int| 0 <= k < i ==> #[trigger] vs[k].version@ != version,
    ensures
        spec_version_index(vs, version) == i,
    decreases i,
{
    if i > 0 {
        assert(vs.drop_first()[i - 1] == vs[i]);
        assert(forall|k: int| 0 <= k < i - 1 ==> #[trigger] vs.drop_first()[k].version@ != version);
        lemma_version_index_first(vs.drop_first(), version, i - 1);
    }
}

/// The first index among `ps` holding a package with `id`, or -1.
pub open spec fn spec_package_index(ps: Seq<LockedPackage>, id: Seq<char>) -> int
    decreases ps.len(),
{
    if ps.len() == 0 {
        -1
    } else if ps[0].id@ == id {
        0
    } else {
        let r = spec_package_index(ps.drop_first(), id);
        if r < 0 {
            -1
        } else {
            r + 1
        }
    }
}

/// A found package index lies inside the sequence and holds the id.
pub proof fn lemma_package_index(ps: Seq<LockedPackage>, id: Seq<char>)
    ensures
        spec_package_index(ps, id) >= 0 ==> spec_package_index(ps, id) < ps.len() && ps[
            spec_package_index(ps, id)
        ].id@ == id,
        spec_package_index(ps, id) < 0 ==> forall|k: int|
            0 <= k < ps.len() ==> #[trigger] ps[k].id@ != id,
    decreases ps.len(),
{
    if ps.len() > 0 && ps[0].id@ != id {
        lemma_package_index(ps.drop_first(), id);
        if spec_package_index(ps, id) < 0 {
            assert forall|k: int| 0 <= k < ps.len() implies #[trigger] ps[k].id@ != id by {
                if k > 0 {
                    assert(ps.drop_first()[k - 1] == ps[k]);
                }
            }
        }
    }
}

/// When `id` first occurs at `i`, the first index is `i`.
pub proof fn lemma_package_index_first(ps: Seq<LockedPackage>, id: Seq<char>, i: int)
    requires
        0 <= i < ps.len(),
        ps[i].id@ == id,
        forall|k: int| 0 <= k < i ==> #[trigger] ps[k].id@ != id,
    ensures
        spec_package_index(ps, id) == i,
    decreases i,
{
    if i > 0 {
        assert(ps.drop_first()[i - 1] == ps[i]);
        assert(forall|k: int| 0 <= k < i - 1 ==> #[trigger] ps.drop_first()[k].id@ != id);
        lemma_package_index_first(ps.drop_first(), id, i - 1);
    }
}

impl Lockfile {
    /// An empty lockfile at the current format version.
    pub fn new() -> (r: Lockfile)
        ensures
            r.version == spec_lockfile_version(),
            r.manifest_hash is None,
            r.packages@.len() == 0,
    {
        Lockfile { version: 1, manifest_hash: None, packages: Vec::new() }
    }

    /// Gates the format version read from disk: only version 1 is accepted;
    /// older and newer versions are rejected with distinct messages.
    pub fn accept_version(version: u32) -> (r: Result<(), Error>)
        ensures
            r is Ok <==> version == spec_lockfile_version(),
            r matches Err(e) ==> e matches Error::ConfigValidation(m) && (if version
                < spec_lockfile_version() {
                m@
                    == "Lockfile version is too old (minimum supported: 1). Please delete the lockfile and run 'voy fetch' again."@
            } else {
                m@
                    == "Lockfile version is newer than supported (maximum: 1). Please upgrade voyager to read this lockfile."@
            }),
    {
        if version < 1 {
            Err(
                Error::ConfigValidation(
                    "Lockfile version is too old (minimum supported: 1). Please delete the lockfile and run 'voy fetch' again.".to_owned(),
                ),
            )
        } else if version > 1 {
            Err(
                Error::ConfigValidation(
                    "Lockfile version is newer than supported (maximum: 1). Please upgrade voyager to read this lockfile.".to_owned(),
                ),
            )
        } else {
            Ok(())
        }
    }

    /// The first locked package with the given id, if any.
    pub fn get_package(&self, id: &str) -> (r: Option<&LockedPackage>)
        ensures
            r matches Some(p) ==> spec_package_index(self.packages@, id@) >= 0 && *p
                == self.packages@[spec_package_index(self.packages@, id@)],
            r is None ==> spec_package_index(self.packages@, id@) < 0,
    {
        proof {
            lemma_package_index(self.packages@, id@);
        }
        let mut i: usize = 0;
        while i < self.packages.len()
            invariant
                i <= self.packages@.len(),
                forall|k: int| 0 <= k < i ==> #[trigger] self.packages@[k].id@ != id@,
            decreases self.packages@.len() - i,
        {
            if str_eq(self.packages[i].id.as_str(), id) {
                proof {
                    lemma_package_index_first(self.packages@, id@, i as int);
                }
                return Some(&self.packages[i]);
            }
            i = i + 1;
        }
        None
    }

    /// The position of the package with the given id, adding an empty record
    /// for it at the tail when none exists yet.
    pub fn get_or_insert_package(&mut self, id: &str, repository: &Repository) -> (r: usize)
        ensures
            final(self).version == old(self).version,
            final(self).manifest_hash == old(self).manifest_hash,
            r < final(self).packages@.len(),
            spec_package_index(old(self).packages@, id@) >= 0 ==> *final(self) == *old(self) && r
                == spec_package_index(old(self).packages@, id@),
            spec_package_index(old(self).packages@, id@) < 0 ==> {
                &&& final(self).packages@.len() == old(self).packages@.len() + 1
                &&& final(self).packages@.subrange(0, old(self).packages@.len() as int) == old(
                    self,
                ).packages@
                &&& final(self).packages@.last().id@ == id@
                &&& final(self).packages@.last().repository.owner@ == repository.owner@
                &&& final(self).packages@.last().repository.repo@ == repository.repo@
                &&& final(self).packages@.last().versions@.len() == 0
                &&& r == old(self).packages@.len()
            },
    {
        proof {
            lemma_package_index(self.packages@, id@);
        }
        let mut i: usize = 0;
        while i < self.packages.len()
            invariant
                i <= self.packages@.len(),
                forall|k: int| 0 <= k < i ==> #[trigger] self.packages@[k].id@ != id@,
        decreases self.packages@.len() - i,
        {
            if str_eq(self.packages[i].id.as_str(), id) {
                proof {
                    lemma_package_index_first(self.packages@, id@, i as int);
                }
                return i;
            }
            i = i + 1;
        }
        let fresh = LockedPackage {
            id: id.to_owned(),
            repository: Repository {
                owner: repository.owner.clone(),
                repo: repository.repo.clone(),
            },
            versions: Vec::new(),
        };
        self.packages.push(fresh);
        self.packages.len() - 1
    }
}

} // verus!

verus! {

/// A copy of a string vector, equal element for element.
pub fn clone_strings(v: &Vec<String>) -> (r: Vec<String>)
    ensures
        r@ == v@,
{
    let mut r: Vec<String> = Vec::new();
    let mut i: usize = 0;
    while i < v.len()
        invariant
            i <= v@.len(),
            r@ == v@.subrange(0, i as int),
        decreases v@.len() - i,
    {
        r.push(v[i].clone());
        i = i + 1;
        proof {
            assert(r@ =~= v@.subrange(0, i as int));
        }
    }
    proof {
        assert(r@ =~= v@);
    }
    r
}

/// A copy of a key-value pair vector.
pub fn clone_pairs(v: &Vec<(String, String)>) -> (r: Vec<(String, String)>)
    ensures
        r@ == v@,
{
    let mut r: Vec<(String, String)> = Vec::new();
    let mut i: usize = 0;
    while i < v.len()
        invariant
            i <= v@.len(),
            r@ == v@.subrange(0, i as int),
        decreases v@.len() - i,
    {
        let (a, b) = (&v[i].0, &v[i].1);
        r.push((a.clone(), b.clone()));
        i = i + 1;
        proof {
            assert(r@ =~= v@.subrange(0, i as int));
        }
    }
    proof {
        assert(r@ =~= v@);
    }
    r
}

impl Sample {
    /// A field-for-field copy.
    pub fn clone_sample(&self) -> (r: Sample)
        ensures
            r == *self,
    {
        Sample {
            display_name: self.display_name.clone(),
            description: self.description.clone(),
            path: self.path.clone(),
        }
    }
}

/// A copy of a sample vector.
pub fn clone_samples(v: &Vec<Sample>) -> (r: Vec<Sample>)
    ensures
        r@ == v@,
{
    let mut r: Vec<Sample> = Vec::new();
    let mut i: usize = 0;
    while i < v.len()
        invariant
            i <= v@.len(),
            r@ == v@.subrange(0, i as int),
        decreases v@.len() - i,
    {
        r.push(v[i].clone_sample());
        i = i + 1;
        proof {
            assert(r@ =~= v@.subrange(0, i as int));
        }
    }
    proof {
        assert(r@ =~= v@);
    }
    r
}

impl PackageAuthor {
    /// A field-for-field copy.
    pub fn clone_author(&self) -> (r: PackageAuthor)
        ensures
            r == *self,
    {
        PackageAuthor { name: self.name.clone(), email: self.email.clone(), url: self.url.clone() }
    }
}

} // verus!

verus! {

/// The value between the first `open`/`close` bracket pair, trimmed, and the
/// string with that bracketed segment (brackets included) replaced by one
/// space.  A string without such a pair is returned unchanged with an empty
/// value.
pub open spec fn spec_extract_bracketed(s: Seq<char>, open_c: char, close_c: char) -> (
    Seq<char>,
    Seq<char>,
) {
    let i = crate::validation::spec_find_char(s, open_c);
    if i < 0 || i >= s.len() {
        (Seq::empty(), s)
    } else {
        let j_rel = crate::validation::spec_find_char(
            s.subrange(i + 1, s.len() as int),
            close_c,
        );
        if j_rel < 0 {
            (Seq::empty(), s)
        } else {
            let j = i + 1 + j_rel;
            (
                crate::validation::spec_trim(s.subrange(i + 1, j)),
                s.subrange(0, i) + seq![' '] + s.subrange(j + 1, s.len() as int),
            )
        }
    }
}

fn extract_bracketed_segment(v: &Vec<char>, open_c: char, close_c: char) -> (r: (
    Vec<char>,
    Vec<char>,
))
    ensures
        (r.0@, r.1@) == spec_extract_bracketed(v@, open_c, close_c),
{
    let n = v.len();
    match crate::validation::find_char(v, open_c) {
        None => (Vec::new(), crate::validation::subvec(v, 0, n)),
        Some(i) => {
            let after = crate::validation::subvec(v, i + 1, n);
            match crate::validation::find_char(&after, close_c) {
                None => (Vec::new(), crate::validation::subvec(v, 0, n)),
                Some(j_rel) => {
                    let j = i + 1 + j_rel;
                    let inner = crate::validation::subvec(v, i + 1, j);
                    let value = crate::validation::trim_vec(&inner);
                    let mut rem = crate::validation::subvec(v, 0, i);
                    rem.push(' ');
                    let tail = crate::validation::subvec(v, j + 1, n);
                    let rem = crate::validation::concat_vecs(rem, &tail);
                    proof {
                        assert(rem@ =~= v@.subrange(0, i as int) + seq![' '] + v@.subrange(
                            j + 1,
                            v@.len() as int,
                        ));
                    }
                    (value, rem)
                },
            }
        },
    }
}

/// What author name, email and URL a single author string denotes: the email
/// stands in angle brackets, the URL in parentheses, and the name is what
/// remains, whitespace-collapsed.  When the remainder collapses to nothing,
/// the whole trimmed string is the name.
pub open spec fn spec_parse_author(raw: Seq<char>) -> (Seq<char>, Seq<char>, Seq<char>) {
    let t = crate::validation::spec_trim(raw);
    if t.len() == 0 {
        (Seq::empty(), Seq::empty(), Seq::empty())
    } else {
        let er = spec_extract_bracketed(t, '<', '>');
        let ur = spec_extract_bracketed(er.1, '(', ')');
        let name = crate::validation::spec_join_ws(ur.1, seq![' ']);
        if name.len() == 0 {
            (t, er.0, ur.0)
        } else {
            (name, er.0, ur.0)
        }
    }
}

impl PackageAuthor {
    /// Parses the single-string author form, such as
    /// `Name <mail@example.com> (https://example.com)`.
    pub fn parse_author_string(raw: &str) -> (r: PackageAuthor)
        ensures
            (r.name@, r.email@, r.url@) == spec_parse_author(raw@),
    {
        let cs = crate::chars::str_to_chars(raw);
        let t = crate::validation::trim_vec(&cs);
        if t.len() == 0 {
            return PackageAuthor {
                name: String::new(),
                email: String::new(),
                url: String::new(),
            };
        }
        let (email, rem1) = extract_bracketed_segment(&t, '<', '>');
        let (url, rem2) = extract_bracketed_segment(&rem1, '(', ')');
        let mut sep: Vec<char> = Vec::new();
        sep.push(' ');
        proof {
            assert(sep@ =~= seq![' ']);
        }
        let name = crate::validation::join_ws(&rem2, &sep);
        let chosen = if name.len() == 0 {
            chars_to_string(t.as_slice())
        } else {
            chars_to_string(name.as_slice())
        };
        PackageAuthor {
            name: chosen,
            email: chars_to_string(email.as_slice()),
            url: chars_to_string(url.as_slice()),
        }
    }
}

} // verus!
