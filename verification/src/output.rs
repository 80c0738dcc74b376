//! The generated index: the output shapes, the projection from the lockfile,
//! and URL collection for validation.

use vstd::prelude::*;

use crate::error::Error;
use crate::lockfile::{
    clone_pairs, clone_samples, clone_strings, spec_package_index, Lockfile, PackageManifest,
    Sample,
};
use crate::manifest::Manifest;

verus! {

/// An author in the generated index.
#[derive(Debug, Clone, PartialEq, Eq)]
pub struct Author {
    pub name: String,
    pub email: String,
    pub url: String,
}

/// One published version in the generated index: the release metadata
/// projected one-for-one, unknown fields preserved in `extra`.
#[derive(Debug, Clone)]
pub struct VersionOutput {
    pub name: String,
    pub version: String,
    pub display_name: String,
    pub description: String,
    pub unity: String,
    pub unity_release: String,
    pub dependencies: Vec<(String, String)>,
    pub keywords: Vec<String>,
    pub author: Author,
    pub vpm_dependencies: Vec<(String, String)>,
    pub legacy_folders: Vec<(String, String)>,
    pub legacy_files: Vec<(String, String)>,
    pub legacy_packages: Vec<String>,
    pub documentation_url: String,
    pub changelog_url: String,
    pub licenses_url: String,
    pub samples: Vec<Sample>,
    pub hide_in_editor: Option<bool>,
    pub package_type: String,
    pub zip_sha256: String,
    pub url: String,
    pub license: String,
    pub extra: Vec<(String, String)>,
}

/// One package's published versions, keyed by version string in
/// newest-first order.
#[derive(Debug, Clone)]
pub struct PackageOutput {
    pub versions: Vec<(String, VersionOutput)>,
}

/// The whole generated index: the listing description and the packages in
/// manifest order, each keyed by its id.
#[derive(Debug, Clone)]
pub struct VpmOutput {
    pub name: String,
    pub id: String,
    pub url: String,
    pub author: String,
    pub packages: Vec<(String, PackageOutput)>,
}

/// Whether an output version is the one-for-one projection of a release's
/// locked metadata: every field carried over unchanged, `extra` included.
pub open spec fn spec_projects(pm: PackageManifest, vo: VersionOutput) -> bool {
    &&& vo.name@ == pm.name@
    &&& vo.version@ == pm.version@
    &&& vo.display_name@ == pm.display_name@
    &&& vo.description@ == pm.description@
    &&& vo.unity@ == pm.unity@
    &&& vo.unity_release@ == pm.unity_release@
    &&& vo.dependencies@ == pm.dependencies@
    &&& vo.keywords@ == pm.keywords@
    &&& vo.author.name@ == pm.author.name@
    &&& vo.author.email@ == pm.author.email@
    &&& vo.author.url@ == pm.author.url@
    &&& vo.vpm_dependencies@ == pm.vpm_dependencies@
    &&& vo.legacy_folders@ == pm.legacy_folders@
    &&& vo.legacy_files@ == pm.legacy_files@
    &&& vo.legacy_packages@ == pm.legacy_packages@
    &&& vo.documentation_url@ == pm.documentation_url@
    &&& vo.changelog_url@ == pm.changelog_url@
    &&& vo.licenses_url@ == pm.licenses_url@
    &&& vo.samples@ == pm.samples@
    &&& vo.hide_in_editor == pm.hide_in_editor
    &&& vo.package_type@ == pm.package_type@
    &&& vo.zip_sha256@ == pm.zip_sha256@
    &&& vo.url@ == pm.url@
    &&& vo.license@ == pm.license@
    &&& vo.extra@ == pm.extra@
}

/// Projects one release's locked metadata into its output form.
pub fn to_output_version(manifest: &PackageManifest) -> (r: VersionOutput)
    ensures
        spec_projects(*manifest, r),
{
    VersionOutput {
        name: manifest.name.clone(),
        version: manifest.version.clone(),
        display_name: manifest.display_name.clone(),
        description: manifest.description.clone(),
        unity: manifest.unity.clone(),
        unity_release: manifest.unity_release.clone(),
        dependencies: clone_pairs(&manifest.dependencies),
        keywords: clone_strings(&manifest.keywords),
        author: Author {
            name: manifest.author.name.clone(),
            email: manifest.author.email.clone(),
            url: manifest.author.url.clone(),
        },
        vpm_dependencies: clone_pairs(&manifest.vpm_dependencies),
        legacy_folders: clone_pairs(&manifest.legacy_folders),
        legacy_files: clone_pairs(&manifest.legacy_files),
        legacy_packages: clone_strings(&manifest.legacy_packages),
        documentation_url: manifest.documentation_url.clone(),
        changelog_url: manifest.changelog_url.clone(),
        licenses_url: manifest.licenses_url.clone(),
        samples: clone_samples(&manifest.samples),
        hide_in_editor: match manifest.hide_in_editor {
            Some(b) => Some(b),
            None => None,
        },
        package_type: manifest.package_type.clone(),
        zip_sha256: manifest.zip_sha256.clone(),
        url: manifest.url.clone(),
        license: manifest.license.clone(),
        extra: clone_pairs(&manifest.extra),
    }
}

impl VpmOutput {
    /// The empty index for a manifest: the listing description carried over
    /// and one entry per declared package, in manifest order, each with no
    /// versions yet.
    pub fn from_manifest(manifest: &Manifest) -> (r: VpmOutput)
        ensures
            r.name@ == manifest.vpm.name@,
            r.id@ == manifest.vpm.id@,
            r.url@ == manifest.vpm.url@,
            r.author@ == manifest.vpm.author@,
            r.packages@.len() == manifest.packages@.len(),
            forall|k: int|
                #![trigger r.packages@[k]]
                0 <= k < r.packages@.len() ==> r.packages@[k].0@ == manifest.packages@[k].id@
                    && r.packages@[k].1.versions@.len() == 0,
    {
        let mut packages: Vec<(String, PackageOutput)> = Vec::new();
        let mut k: usize = 0;
        while k < manifest.packages.len()
            invariant
                k <= manifest.packages@.len(),
                packages@.len() == k,
                forall|t: int|
                    #![trigger packages@[t]]
                    0 <= t < k ==> packages@[t].0@ == manifest.packages@[t].id@
                        && packages@[t].1.versions@.len() == 0,
            decreases manifest.packages@.len() - k,
        {
            packages.push((manifest.packages[k].id.clone(), PackageOutput { versions: Vec::new() }));
            k = k + 1;
        }
        VpmOutput {
            name: manifest.vpm.name.clone(),
            id: manifest.vpm.id.clone(),
            url: manifest.vpm.url.clone(),
            author: manifest.vpm.author.clone(),
            packages,
        }
    }

    /// Every `(package id, version, download URL)` triple of the index, in
    /// index order.
    pub fn collect_urls(&self) -> (r: Vec<(String, String, String)>)
        ensures
            r@.len() == spec_url_count(self.packages@),
            forall|w: int|
                #![trigger r@[w]]
                0 <= w < r@.len() ==> spec_url_at(self.packages@, w) == (
                    r@[w].0@,
                    r@[w].1@,
                    r@[w].2@,
                ),
    {
        let mut r: Vec<(String, String, String)> = Vec::new();
        let mut k: usize = 0;
        while k < self.packages.len()
            invariant
                k <= self.packages@.len(),
                r@.len() == spec_url_count(self.packages@.subrange(0, k as int)),
                forall|w: int|
                    #![trigger r@[w]]
                    0 <= w < r@.len() ==> spec_url_at(self.packages@.subrange(0, k as int), w) == (
                        r@[w].0@,
                        r@[w].1@,
                        r@[w].2@,
                    ),
            decreases self.packages@.len() - k,
        {
            let pkg = &self.packages[k];
            let ghost r_base = r@;
            proof {
                lemma_url_count_nonneg(self.packages@.subrange(0, k as int));
            }
            let mut j: usize = 0;
            while j < pkg.1.versions.len()
                invariant
                    j <= pkg.1.versions@.len(),
                    pkg == self.packages@[k as int],
                    k < self.packages@.len(),
                    r@.len() == r_base.len() + j,
                    r@.subrange(0, r_base.len() as int) == r_base,
                    forall|u: int|
                        #![trigger self.packages@[k as int].1.versions@[u]]
                        0 <= u < j ==> r@[r_base.len() + u].0@ == self.packages@[k as int].0@
                            && r@[r_base.len() + u].1@
                            == self.packages@[k as int].1.versions@[u].0@ && r@[r_base.len()
                            + u].2@ == self.packages@[k as int].1.versions@[u].1.url@,
                decreases pkg.1.versions@.len() - j,
            {
                let entry = &pkg.1.versions[j];
                let ghost prevlen = r@.len();
                r.push((pkg.0.clone(), entry.0.clone(), entry.1.url.clone()));
                j = j + 1;
                proof {
                    assert(*entry == self.packages@[k as int].1.versions@[j - 1]);
                    assert(r@[prevlen as int].0@ == self.packages@[k as int].0@);
                    assert(r@[prevlen as int].1@ == self.packages@[k as int].1.versions@[j
                        - 1].0@);
                    assert(r@[prevlen as int].2@ == self.packages@[k as int].1.versions@[j
                        - 1].1.url@);
                    assert(r@.subrange(0, r_base.len() as int) =~= r_base);
                }
            }
            k = k + 1;
            proof {
                lemma_url_count_step(self.packages@, k as int);
                assert forall|w: int|
                    0 <= w < r@.len() implies spec_url_at(
                    self.packages@.subrange(0, k as int),
                    w,
                ) == (#[trigger] r@[w].0@, r@[w].1@, r@[w].2@) by {
                    lemma_url_at_step(self.packages@, k as int, w);
                    let base = spec_url_count(self.packages@.subrange(0, k as int - 1));
                    if w < base {
                        assert(r@[w] == r_base[w]);
                    } else {
                        assert(self.packages@[k as int - 1].1.versions@[w - base]
                            == self.packages@[k as int - 1].1.versions@[w - base]);
                    }
                }
            }
        }
        proof {
            assert(self.packages@.subrange(0, self.packages@.len() as int) =~= self.packages@);
        }
        r
    }
}

/// How many URL triples the index holds.
pub open spec fn spec_url_count(pkgs: Seq<(String, PackageOutput)>) -> int
    decreases pkgs.len(),
{
    if pkgs.len() == 0 {
        0
    } else {
        spec_url_count(pkgs.drop_last()) + pkgs.last().1.versions@.len()
    }
}

/// The URL triple at flat position `w`, walking packages in order.
pub open spec fn spec_url_at(pkgs: Seq<(String, PackageOutput)>, w: int) -> (
    Seq<char>,
    Seq<char>,
    Seq<char>,
)
    decreases pkgs.len(),
{
    if pkgs.len() == 0 {
        (Seq::empty(), Seq::empty(), Seq::empty())
    } else if w < spec_url_count(pkgs.drop_last()) {
        spec_url_at(pkgs.drop_last(), w)
    } else {
        let off = w - spec_url_count(pkgs.drop_last());
        if 0 <= off < pkgs.last().1.versions@.len() {
            (
                pkgs.last().0@,
                pkgs.last().1.versions@[off].0@,
                pkgs.last().1.versions@[off].1.url@,
            )
        } else {
            (Seq::empty(), Seq::empty(), Seq::empty())
        }
    }
}

/// Counting URLs over one more package adds that package's versions.
proof fn lemma_url_count_step(pkgs: Seq<(String, PackageOutput)>, k: int)
    requires
        1 <= k <= pkgs.len(),
    ensures
        spec_url_count(pkgs.subrange(0, k)) == spec_url_count(pkgs.subrange(0, k - 1)) + pkgs[k
            - 1].1.versions@.len(),
        spec_url_count(pkgs.subrange(0, k - 1)) >= 0,
{
    assert(pkgs.subrange(0, k).drop_last() =~= pkgs.subrange(0, k - 1));
    assert(pkgs.subrange(0, k).last() == pkgs[k - 1]);
    lemma_url_count_nonneg(pkgs.subrange(0, k - 1));
}

/// URL counts are never negative.
proof fn lemma_url_count_nonneg(pkgs: Seq<(String, PackageOutput)>)
    ensures
        spec_url_count(pkgs) >= 0,
    decreases pkgs.len(),
{
    if pkgs.len() > 0 {
        lemma_url_count_nonneg(pkgs.drop_last());
    }
}

/// The flat position lookup over one more package.
proof fn lemma_url_at_step(pkgs: Seq<(String, PackageOutput)>, k: int, w: int)
    requires
        1 <= k <= pkgs.len(),
    ensures
        w < spec_url_count(pkgs.subrange(0, k - 1)) ==> spec_url_at(pkgs.subrange(0, k), w)
            == spec_url_at(pkgs.subrange(0, k - 1), w),
        spec_url_count(pkgs.subrange(0, k - 1)) <= w < spec_url_count(pkgs.subrange(0, k))
            ==> spec_url_at(pkgs.subrange(0, k), w) == (
            pkgs[k - 1].0@,
            pkgs[k - 1].1.versions@[w - spec_url_count(pkgs.subrange(0, k - 1))].0@,
            pkgs[k - 1].1.versions@[w - spec_url_count(pkgs.subrange(0, k - 1))].1.url@,
        ),
{
    assert(pkgs.subrange(0, k).drop_last() =~= pkgs.subrange(0, k - 1));
    assert(pkgs.subrange(0, k).last() == pkgs[k - 1]);
    lemma_url_count_step(pkgs, k);
}

/// Projects the lockfile into the generated index.  Every manifest package
/// must have a lockfile record; each of its locked versions appears, in
/// order, keyed by its version string and carrying the one-for-one
/// projection of its metadata.
pub fn generate_from_lockfile(manifest: &Manifest, lockfile: &Lockfile) -> (r: Result<
    VpmOutput,
    Error,
>)
    ensures
        r is Ok <==> (forall|k: int|
            0 <= k < manifest.packages@.len() ==> spec_package_index(
                lockfile.packages@,
                #[trigger] manifest.packages@[k].id@,
            ) >= 0),
        r matches Ok(out) ==> {
            &&& out.name@ == manifest.vpm.name@
            &&& out.id@ == manifest.vpm.id@
            &&& out.url@ == manifest.vpm.url@
            &&& out.author@ == manifest.vpm.author@
            &&& out.packages@.len() == manifest.packages@.len()
            &&& forall|k: int|
                #![trigger out.packages@[k]]
                0 <= k < out.packages@.len() ==> {
                    let lp = lockfile.packages@[spec_package_index(
                        lockfile.packages@,
                        manifest.packages@[k].id@,
                    )];
                    &&& out.packages@[k].0@ == manifest.packages@[k].id@
                    &&& out.packages@[k].1.versions@.len() == lp.versions@.len()
                    &&& forall|j: int|
                        #![trigger out.packages@[k].1.versions@[j]]
                        0 <= j < lp.versions@.len() ==> out.packages@[k].1.versions@[j].0@
                            == lp.versions@[j].version@ && spec_projects(
                            lp.versions@[j].manifest,
                            out.packages@[k].1.versions@[j].1,
                        )
                }
        },
        r matches Err(e) ==> e matches Error::ConfigValidation(_),
{
    let mut packages: Vec<(String, PackageOutput)> = Vec::new();
    let mut k: usize = 0;
    while k < manifest.packages.len()
        invariant
            k <= manifest.packages@.len(),
            packages@.len() == k,
            forall|t: int|
                0 <= t < k ==> spec_package_index(
                    lockfile.packages@,
                    #[trigger] manifest.packages@[t].id@,
                ) >= 0,
            forall|t: int|
                #![trigger packages@[t]]
                0 <= t < k ==> {
                    let lp = lockfile.packages@[spec_package_index(
                        lockfile.packages@,
                        manifest.packages@[t].id@,
                    )];
                    &&& packages@[t].0@ == manifest.packages@[t].id@
                    &&& packages@[t].1.versions@.len() == lp.versions@.len()
                    &&& forall|j: int|
                        #![trigger packages@[t].1.versions@[j]]
                        0 <= j < lp.versions@.len() ==> packages@[t].1.versions@[j].0@
                            == lp.versions@[j].version@ && spec_projects(
                            lp.versions@[j].manifest,
                            packages@[t].1.versions@[j].1,
                        )
                },
        decreases manifest.packages@.len() - k,
    {
        let package = &manifest.packages[k];
        let locked = lockfile.get_package(package.id.as_str());
        match locked {
            None => {
                return Err(
                    Error::ConfigValidation(
                        "The lockfile is missing a declared package. Run 'voy fetch' first.".to_owned(),
                    ),
                );
            },
            Some(lp) => {
                let mut versions: Vec<(String, VersionOutput)> = Vec::new();
                let mut j: usize = 0;
                while j < lp.versions.len()
                    invariant
                        j <= lp.versions@.len(),
                        versions@.len() == j,
                        forall|w: int|
                            #![trigger versions@[w]]
                            0 <= w < j ==> versions@[w].0@ == lp.versions@[w].version@
                                && spec_projects(lp.versions@[w].manifest, versions@[w].1),
                    decreases lp.versions@.len() - j,
                {
                    let lv = &lp.versions[j];
                    versions.push((lv.version.clone(), to_output_version(&lv.manifest)));
                    j = j + 1;
                }
                packages.push((package.id.clone(), PackageOutput { versions }));
            },
        }
        k = k + 1;
    }
    Ok(
        VpmOutput {
            name: manifest.vpm.name.clone(),
            id: manifest.vpm.id.clone(),
            url: manifest.vpm.url.clone(),
            author: manifest.vpm.author.clone(),
            packages,
        },
    )
}

} // verus!
