//! The fetch pipeline's verified core: per-release metadata validation,
//! lockfile reconciliation, merge of fetched and previously locked versions,
//! and the final assembly that decides success or partial failure.

use vstd::multiset::Multiset;
use vstd::prelude::*;

use crate::chars::{is_hex_digit, spec_is_hex_digit, str_to_chars};
use crate::domain::{str_eq, Release, Repository};
use crate::error::Error;
use crate::lockfile::{
    spec_package_index, spec_version_index, LockedPackage, LockedVersion, Lockfile,
    PackageManifest,
};
use crate::manifest::{Manifest, Package};
use crate::validation::{
    semver_version_ok, spec_is_reverse_domain, spec_is_unity_release, spec_is_unity_version,
    spec_is_valid_zip_url, spec_trim, spec_vpm_range_ok, trim_vec, validate_reverse_domain,
    validate_unity_dependency_version, validate_unity_release, validate_unity_version,
    validate_vpm_dependency_range, validate_zip_url,
};

verus! {

/// Fetch configuration: the concurrency bound, the retry bound, and the
/// release asset name to look for.
pub struct FetcherConfig {
    pub max_concurrent: usize,
    pub max_retries: u32,
    pub asset_name: String,
}

/// The fetch pipeline's decision core.  The network driver hands it listing
/// and download outcomes; everything it decides is verified.
pub struct PackageFetcher {
    pub config: FetcherConfig,
}

/// What fetching one package produced.
pub struct PackageFetchResult {
    pub package_id: String,
    pub versions: Vec<LockedVersion>,
    pub existing_count: usize,
    pub new_count: usize,
    pub failed_count: usize,
}

/// A 64-character hexadecimal string.
pub open spec fn spec_is_sha256_hex(s: Seq<char>) -> bool {
    s.len() == 64 && forall|i: int| 0 <= i < s.len() ==> spec_is_hex_digit(#[trigger] s[i])
}

/// Whether a release's metadata document passes every check the pipeline
/// demands of it.
pub open spec fn spec_package_manifest_valid(
    pm: PackageManifest,
    package_id: Seq<char>,
    tag: Seq<char>,
) -> bool {
    &&& pm.name@ == package_id
    &&& pm.version@ == crate::domain::spec_tag_version(tag)
    &&& semver_version_ok(pm.version@)
    &&& spec_trim(pm.display_name@).len() > 0
    &&& spec_trim(pm.author.name@).len() > 0
    &&& spec_trim(pm.author.email@).len() > 0
    &&& (spec_trim(pm.unity@).len() == 0 ==> spec_trim(pm.unity_release@).len() == 0)
    &&& (spec_trim(pm.unity@).len() > 0 ==> spec_is_unity_version(pm.unity@))
    &&& (spec_trim(pm.unity_release@).len() > 0 ==> spec_is_unity_release(pm.unity_release@))
    &&& spec_trim(pm.url@).len() > 0
    &&& spec_is_valid_zip_url(pm.url@)
    &&& forall|k: int|
        0 <= k < pm.dependencies@.len() ==> spec_is_reverse_domain(
            #[trigger] pm.dependencies@[k].0@,
        ) && semver_version_ok(pm.dependencies@[k].1@)
    &&& forall|k: int|
        0 <= k < pm.vpm_dependencies@.len() ==> spec_is_reverse_domain(
            #[trigger] pm.vpm_dependencies@[k].0@,
        ) && spec_vpm_range_ok(pm.vpm_dependencies@[k].1@)
    &&& (pm.zip_sha256@.len() > 0 ==> spec_is_sha256_hex(pm.zip_sha256@))
}

impl PackageFetcher {
    /// A fetcher with the given configuration.
    pub fn new(config: FetcherConfig) -> (r: PackageFetcher)
        ensures
            r.config == config,
    {
        PackageFetcher { config }
    }

    /// Whether a string is a 64-character hexadecimal digest.
    pub fn is_valid_sha256_hex(value: &str) -> (r: bool)
        ensures
            r == spec_is_sha256_hex(value@),
    {
        let cs = str_to_chars(value);
        if cs.len() != 64 {
            return false;
        }
        let mut i: usize = 0;
        while i < cs.len()
            invariant
                i <= cs@.len(),
                cs@ == value@,
                forall|j: int| 0 <= j < i ==> spec_is_hex_digit(#[trigger] cs@[j]),
            decreases cs@.len() - i,
        {
            if !is_hex_digit(cs[i]) {
                return false;
            }
            i = i + 1;
        }
        true
    }

    /// How the concurrency budget is split: at most
    /// `min(max_concurrent, package_count)` packages in parallel, and within
    /// each package `max(max_concurrent / packages, 1)` downloads, so the
    /// product never exceeds the budget (unless the floor of one forces a
    /// single download slot).
    pub fn concurrency_plan(&self, package_count: usize) -> (r: (usize, usize))
        requires
            self.config.max_concurrent >= 1,
            package_count >= 1,
        ensures
            r.0 == (if self.config.max_concurrent <= package_count {
                self.config.max_concurrent as int
            } else {
                package_count as int
            }),
            r.1 == (if self.config.max_concurrent as int / r.0 as int >= 1 {
                self.config.max_concurrent as int / r.0 as int
            } else {
                1int
            }),
            1 <= r.0 && 1 <= r.1,
            r.0 * r.1 <= self.config.max_concurrent,
    {
        let mc = self.config.max_concurrent;
        let p = if mc <= package_count {
            mc
        } else {
            package_count
        };
        let d_raw = mc / p;
        let d = if d_raw >= 1 {
            d_raw
        } else {
            1
        };
        proof {
            assert(mc / p >= 1) by (nonlinear_arith)
                requires
                    1 <= p <= mc,
            ;
            assert(p * (mc / p) <= mc) by (nonlinear_arith)
                requires
                    1 <= p,
                    0 <= mc,
            ;
        }
        (p, d)
    }

    /// Validates one downloaded metadata document against the package it
    /// claims to describe and the release it was attached to.
    pub fn validate_package_manifest(
        &self,
        package: &Package,
        release: &Release,
        manifest: &PackageManifest,
    ) -> (r: Result<(), Error>)
        ensures
            r is Ok <==> spec_package_manifest_valid(
                *manifest,
                package.id@,
                release.spec_tag(),
            ),
            r matches Err(e) ==> e matches Error::ConfigValidation(_),
    {
        if !str_eq(manifest.name.as_str(), package.id.as_str()) {
            return Err(
                Error::ConfigValidation(
                    err_for(package, "package.json name does not match the package id"),
                ),
            );
        }
        let expected_version = release.version();
        if !str_eq(manifest.version.as_str(), expected_version) {
            return Err(
                Error::ConfigValidation(
                    err_for(package, "package.json version does not match the release tag"),
                ),
            );
        }
        if !crate::validation::semver_version_is_valid(manifest.version.as_str()) {
            return Err(
                Error::ConfigValidation(
                    err_for(package, "package.json version is not valid SemVer"),
                ),
            );
        }
        if trimmed_len(manifest.display_name.as_str()) == 0 {
            return Err(
                Error::ConfigValidation(
                    err_for(package, "package.json is missing required field 'displayName'"),
                ),
            );
        }
        if trimmed_len(manifest.author.name.as_str()) == 0 {
            return Err(
                Error::ConfigValidation(
                    err_for(package, "package.json is missing required field 'author.name'"),
                ),
            );
        }
        if trimmed_len(manifest.author.email.as_str()) == 0 {
            return Err(
                Error::ConfigValidation(
                    err_for(package, "package.json is missing required field 'author.email'"),
                ),
            );
        }
        if trimmed_len(manifest.unity.as_str()) == 0 {
            if trimmed_len(manifest.unity_release.as_str()) > 0 {
                return Err(
                    Error::ConfigValidation(
                        err_for(package, "package.json field 'unityRelease' requires field 'unity'"),
                    ),
                );
            }
        } else {
            match validate_unity_version(manifest.unity.as_str()) {
                Err(_) => {
                    return Err(
                        Error::ConfigValidation(
                            err_for(package, "package.json field 'unity' is invalid"),
                        ),
                    );
                },
                Ok(()) => {},
            }
        }
        if trimmed_len(manifest.unity_release.as_str()) > 0 {
            match validate_unity_release(manifest.unity_release.as_str()) {
                Err(_) => {
                    return Err(
                        Error::ConfigValidation(
                            err_for(package, "package.json field 'unityRelease' is invalid"),
                        ),
                    );
                },
                Ok(()) => {},
            }
        }
        if trimmed_len(manifest.url.as_str()) == 0 {
            return Err(
                Error::ConfigValidation(
                    err_for(package, "package.json is missing required field 'url'"),
                ),
            );
        }
        match validate_zip_url(manifest.url.as_str()) {
            Err(_) => {
                return Err(
                    Error::ConfigValidation(
                        err_for(package, "package.json field 'url' is invalid"),
                    ),
                );
            },
            Ok(()) => {},
        }
        let mut k: usize = 0;
        while k < manifest.dependencies.len()
            invariant
                k <= manifest.dependencies@.len(),
                forall|j: int|
                    #![all_triggers]
                    0 <= j < k ==> spec_is_reverse_domain(manifest.dependencies@[j].0@)
                        && semver_version_ok(manifest.dependencies@[j].1@),
            decreases manifest.dependencies@.len() - k,
        {
            let dep = &manifest.dependencies[k];
            proof {
                assert(*dep == manifest.dependencies@[k as int]);
            }
            match validate_reverse_domain(dep.0.as_str()) {
                Err(_) => {
                    return Err(
                        Error::ConfigValidation(
                            err_for(
                                package,
                                "package.json field 'dependencies' has an invalid package name",
                            ),
                        ),
                    );
                },
                Ok(()) => {},
            }
            match validate_unity_dependency_version(dep.1.as_str()) {
                Err(_) => {
                    return Err(
                        Error::ConfigValidation(
                            err_for(
                                package,
                                "package.json field 'dependencies' has an invalid version",
                            ),
                        ),
                    );
                },
                Ok(()) => {},
            }
            k = k + 1;
        }
        let mut k2: usize = 0;
        while k2 < manifest.vpm_dependencies.len()
            invariant
                k2 <= manifest.vpm_dependencies@.len(),
                forall|j: int|
                    #![all_triggers]
                    0 <= j < k2 ==> spec_is_reverse_domain(manifest.vpm_dependencies@[j].0@)
                        && spec_vpm_range_ok(manifest.vpm_dependencies@[j].1@),
            decreases manifest.vpm_dependencies@.len() - k2,
        {
            let dep2 = &manifest.vpm_dependencies[k2];
            proof {
                assert(*dep2 == manifest.vpm_dependencies@[k2 as int]);
            }
            match validate_reverse_domain(dep2.0.as_str()) {
                Err(_) => {
                    return Err(
                        Error::ConfigValidation(
                            err_for(
                                package,
                                "package.json field 'vpmDependencies' has an invalid package name",
                            ),
                        ),
                    );
                },
                Ok(()) => {},
            }
            match validate_vpm_dependency_range(dep2.1.as_str()) {
                Err(_) => {
                    return Err(
                        Error::ConfigValidation(
                            err_for(
                                package,
                                "package.json field 'vpmDependencies' has an invalid range",
                            ),
                        ),
                    );
                },
                Ok(()) => {},
            }
            k2 = k2 + 1;
        }
        if !manifest.zip_sha256.as_str().is_empty() && !Self::is_valid_sha256_hex(
            manifest.zip_sha256.as_str(),
        ) {
            return Err(
                Error::ConfigValidation(
                    err_for(
                        package,
                        "package.json field 'zipSHA256' must be a 64-character hex string",
                    ),
                ),
            );
        }
        Ok(())
    }
}

/// The number of characters a string keeps after trimming.
fn trimmed_len(s: &str) -> (r: usize)
    ensures
        r == spec_trim(s@).len(),
{
    let cs = str_to_chars(s);
    let t = trim_vec(&cs);
    t.len()
}

/// Builds a validation message naming the offending package.
fn err_for(package: &Package, what: &str) -> (r: String) {
    let m = what.to_owned();
    let m = m.concat(" for package '");
    let m = m.concat(package.id.as_str());
    m.concat("'")
}

} // verus!

verus! {

impl PackageFetcher {
    /// Reconciles the lockfile against the manifest: packages no longer
    /// declared are dropped, missing ones are inserted empty, a package
    /// whose repository coordinate changed loses its versions, and the
    /// result follows manifest order exactly.
    pub fn reconcile_lockfile(&self, manifest: &Manifest, lockfile: &mut Lockfile)
        requires
            forall|k1: int, k2: int|
                0 <= k1 < k2 < manifest.packages@.len() ==> #[trigger] manifest.packages@[k1].id@
                    != #[trigger] manifest.packages@[k2].id@,
        ensures
            final(lockfile).version == old(lockfile).version,
            final(lockfile).manifest_hash == old(lockfile).manifest_hash,
            final(lockfile).packages@.len() == manifest.packages@.len(),
            forall|k: int|
                #![trigger manifest.packages@[k]]
                0 <= k < manifest.packages@.len() ==> {
                    let fp = final(lockfile).packages@[k];
                    let mp = manifest.packages@[k];
                    &&& fp.id@ == mp.id@
                    &&& fp.repository.owner@ == mp.repository.owner@
                    &&& fp.repository.repo@ == mp.repository.repo@
                    &&& ({
                        let idx = spec_package_index(old(lockfile).packages@, mp.id@);
                        if idx >= 0 && old(lockfile).packages@[idx].repository.owner@
                            == mp.repository.owner@ && old(
                            lockfile,
                        ).packages@[idx].repository.repo@ == mp.repository.repo@ {
                            fp.versions == old(lockfile).packages@[idx].versions
                        } else {
                            fp.versions@.len() == 0
                        }
                    })
                },
    {
        let ghost orig = lockfile.packages@;
        let mut old_packages: Vec<LockedPackage> = Vec::new();
        core::mem::swap(&mut old_packages, &mut lockfile.packages);
        proof {
            assert(old_packages@ == orig);
        }
        // Wrap every old package so one can be taken out without moving the
        // others.
        let mut pool: Vec<Option<LockedPackage>> = Vec::new();
        while old_packages.len() > 0
            invariant
                pool@.len() + old_packages@.len() == orig.len(),
                forall|j: int|
                    0 <= j < pool@.len() ==> #[trigger] pool@[j] == Some(orig[j]),
                old_packages@ == orig.subrange(pool@.len() as int, orig.len() as int),
            decreases old_packages@.len(),
        {
            let p = old_packages.remove(0);
            proof {
                assert(p == orig[pool@.len() as int]);
                assert(old_packages@ =~= orig.subrange(pool@.len() as int + 1, orig.len() as int));
            }
            pool.push(p_some(p));
        }
        let mut out: Vec<LockedPackage> = Vec::new();
        let mut k: usize = 0;
        while k < manifest.packages.len()
            invariant
                k <= manifest.packages@.len(),
                pool@.len() == orig.len(),
                forall|k1: int, k2: int|
                    0 <= k1 < k2 < manifest.packages@.len() ==> #[trigger] manifest.packages@[k1].id@
                        != #[trigger] manifest.packages@[k2].id@,
                forall|j: int|
                    #![trigger pool@[j]]
                    0 <= j < orig.len() ==> (pool@[j] == Some(orig[j]) || (pool@[j] is None
                        && exists|k2: int|
                        0 <= k2 < k && orig[j].id@ == #[trigger] manifest.packages@[k2].id@)),
                out@.len() == k,
                forall|t: int|
                    #![trigger out@[t]]
                    0 <= t < k ==> {
                        let fp = out@[t];
                        let mp = manifest.packages@[t];
                        &&& fp.id@ == mp.id@
                        &&& fp.repository.owner@ == mp.repository.owner@
                        &&& fp.repository.repo@ == mp.repository.repo@
                        &&& ({
                            let idx = spec_package_index(orig, mp.id@);
                            if idx >= 0 && orig[idx].repository.owner@ == mp.repository.owner@
                                && orig[idx].repository.repo@ == mp.repository.repo@ {
                                fp.versions == orig[idx].versions
                            } else {
                                fp.versions@.len() == 0
                            }
                        })
                    },
            decreases manifest.packages@.len() - k,
        {
            let mp = &manifest.packages[k];
            // Find the first old package with this id that is still in the
            // pool.
            let mut found: usize = pool.len();
            let mut j: usize = 0;
            while j < pool.len()
                invariant
                    j <= pool@.len() == orig.len(),
                    mp.id@ == manifest.packages@[k as int].id@,
                    found == pool@.len() || found < j,
                    found == pool@.len() ==> forall|t: int|
                        #![trigger pool@[t]]
                        0 <= t < j ==> !(pool@[t] matches Some(p) && p.id@ == mp.id@),
                    found < pool@.len() ==> (pool@[found as int] matches Some(p) && p.id@
                        == mp.id@) && forall|t: int|
                        #![trigger pool@[t]]
                        0 <= t < found ==> !(pool@[t] matches Some(p) && p.id@ == mp.id@),
                decreases pool@.len() - j,
            {
                if found == pool.len() {
                    let hit = match &pool[j] {
                        Some(p) => str_eq(p.id.as_str(), mp.id.as_str()),
                        None => false,
                    };
                    if hit {
                        found = j;
                    }
                }
                j = j + 1;
            }
            if found < pool.len() {
                // Take the package out of the pool.
                let taken_opt = pool.remove(found);
                pool.insert(found, None);
                let taken = match taken_opt {
                    Some(p) => p,
                    None => {
                        proof {
                            assert(false);
                        }
                        LockedPackage {
                            id: String::new(),
                            repository: Repository { owner: String::new(), repo: String::new() },
                            versions: Vec::new(),
                        }
                    },
                };
                proof {
                    assert(taken == orig[found as int]);
                    // The found slot is the first occurrence of this id in
                    // the original order: earlier Some slots do not match,
                    // and earlier None slots belonged to other manifest ids.
                    assert forall|t: int| 0 <= t < found implies #[trigger] orig[t].id@
                        != mp.id@ by {
                        if pool@[t] is None {
                            let k2 = choose|k2: int|
                                0 <= k2 < k && orig[t].id@ == #[trigger] manifest.packages@[k2].id@;
                            assert(manifest.packages@[k2].id@ != manifest.packages@[k as int].id@);
                        }
                    }
                    crate::lockfile::lemma_package_index_first(orig, mp.id@, found as int);
                }
                let repo_same = str_eq(taken.repository.owner.as_str(), mp.repository.owner.as_str())
                    && str_eq(taken.repository.repo.as_str(), mp.repository.repo.as_str());
                if repo_same {
                    out.push(
                        LockedPackage {
                            id: mp.id.clone(),
                            repository: Repository {
                                owner: mp.repository.owner.clone(),
                                repo: mp.repository.repo.clone(),
                            },
                            versions: taken.versions,
                        },
                    );
                } else {
                    out.push(
                        LockedPackage {
                            id: mp.id.clone(),
                            repository: Repository {
                                owner: mp.repository.owner.clone(),
                                repo: mp.repository.repo.clone(),
                            },
                            versions: Vec::new(),
                        },
                    );
                }
            } else {
                proof {
                    crate::lockfile::lemma_package_index(orig, mp.id@);
                    if spec_package_index(orig, mp.id@) >= 0 {
                        let idx = spec_package_index(orig, mp.id@);
                        assert(orig[idx].id@ == mp.id@);
                        assert(!(pool@[idx] matches Some(p) && p.id@ == mp.id@));
                        assert(pool@[idx] is None);
                        let k2 = choose|k2: int|
                            0 <= k2 < k && orig[idx].id@ == #[trigger] manifest.packages@[k2].id@;
                        assert(false);
                    }
                }
                out.push(
                    LockedPackage {
                        id: mp.id.clone(),
                        repository: Repository {
                            owner: mp.repository.owner.clone(),
                            repo: mp.repository.repo.clone(),
                        },
                        versions: Vec::new(),
                    },
                );
            }
            k = k + 1;
        }
        core::mem::swap(&mut out, &mut lockfile.packages);
    }
}

/// Wraps a package for the reconciliation pool.
fn p_some(p: LockedPackage) -> (r: Option<LockedPackage>)
    ensures
        r == Some(p),
{
    Some(p)
}

} // verus!

verus! {

/// How the locked versions built from download outcomes relate to those
/// outcomes: failed downloads and rejected documents contribute nothing;
/// each accepted document contributes, in order, a locked version carrying
/// the release tag, the asset URL, the hash of the raw document, and the
/// validated metadata itself.
pub open spec fn spec_accepted(
    downloads: Seq<(Release, Option<(String, PackageManifest)>)>,
    package_id: Seq<char>,
    fetched: Seq<LockedVersion>,
) -> bool
    decreases downloads.len(),
{
    if downloads.len() == 0 {
        fetched.len() == 0
    } else {
        let rel = downloads[0].0;
        match downloads[0].1 {
            None => spec_accepted(downloads.drop_first(), package_id, fetched),
            Some((raw, pm)) => {
                if spec_package_manifest_valid(pm, package_id, rel.spec_tag()) {
                    &&& fetched.len() > 0
                    &&& fetched[0].version == pm.version
                    &&& fetched[0].tag@ == rel.spec_tag()
                    &&& fetched[0].url@ == (match rel.spec_asset_url() {
                        Some(u) => u,
                        None => Seq::<char>::empty(),
                    })
                    &&& fetched[0].hash@ == crate::lockfile::spec_hash_line(raw@)
                    &&& fetched[0].manifest == pm
                    &&& spec_accepted(downloads.drop_first(), package_id, fetched.drop_first())
                } else {
                    spec_accepted(downloads.drop_first(), package_id, fetched)
                }
            },
        }
    }
}

/// The versions, in listing order, of the releases that carry the asset.
pub open spec fn spec_fetchable_versions(rs: Seq<Release>) -> Seq<Seq<char>>
    decreases rs.len(),
{
    if rs.len() == 0 {
        Seq::empty()
    } else {
        let rest = spec_fetchable_versions(rs.drop_last());
        if rs.last().spec_asset_url() is Some {
            rest.push(rs.last().spec_version())
        } else {
            rest
        }
    }
}

/// The merge of freshly fetched and previously locked versions, following
/// the upstream listing order: for each listed version, the fetched record
/// is preferred, then the previously locked one; versions available from
/// neither are skipped.  Each record is used at most once.
pub open spec fn spec_merge(
    order: Seq<Seq<char>>,
    fetched: Seq<LockedVersion>,
    existing: Seq<LockedVersion>,
) -> Seq<LockedVersion>
    decreases order.len(),
{
    if order.len() == 0 {
        Seq::empty()
    } else {
        let v = order[0];
        let fi = spec_version_index(fetched, v);
        if fi >= 0 {
            seq![fetched[fi]] + spec_merge(order.drop_first(), fetched.remove(fi), existing)
        } else {
            let ei = spec_version_index(existing, v);
            if ei >= 0 {
                seq![existing[ei]] + spec_merge(order.drop_first(), fetched, existing.remove(ei))
            } else {
                spec_merge(order.drop_first(), fetched, existing)
            }
        }
    }
}

/// The defensive tail: previously locked versions that upstream no longer
/// lists are kept, in their lockfile order, one per version string.
pub open spec fn spec_retain(
    remaining: Seq<LockedVersion>,
    seen: Seq<Seq<char>>,
) -> Seq<LockedVersion>
    decreases remaining.len(),
{
    if remaining.len() == 0 {
        Seq::empty()
    } else if seen.contains(remaining[0].version@) {
        spec_retain(remaining.drop_first(), seen)
    } else {
        seq![remaining[0]] + spec_retain(
            remaining.drop_first(),
            seen.push(remaining[0].version@),
        )
    }
}

/// The number of versions whose version string is not among the previously
/// locked ones.
pub open spec fn spec_new_count(vs: Seq<LockedVersion>, existing: Seq<Seq<char>>) -> int
    decreases vs.len(),
{
    if vs.len() == 0 {
        0
    } else {
        spec_new_count(vs.drop_first(), existing) + (if existing.contains(vs[0].version@) {
            0int
        } else {
            1int
        })
    }
}

impl PackageFetcher {
    /// Builds locked versions out of the download outcomes for one package:
    /// each successfully downloaded and parsed document is validated, and
    /// accepted documents are locked; everything else is counted as failed.
    pub fn collect_fetched(
        &self,
        package: &Package,
        downloads: Vec<(Release, Option<(String, PackageManifest)>)>,
    ) -> (r: (Vec<LockedVersion>, usize))
        ensures
            spec_accepted(downloads@, package.id@, r.0@),
            r.0@.len() + r.1 == downloads@.len(),
        decreases downloads@.len(),
    {
        let mut rest_downloads = downloads;
        let ghost d0 = rest_downloads@;
        if rest_downloads.len() == 0 {
            return (Vec::new(), 0);
        }
        let (release, outcome) = rest_downloads.remove(0);
        proof {
            assert(rest_downloads@ =~= d0.drop_first());
        }
        let (mut rest, rest_failed) = self.collect_fetched(package, rest_downloads);
        match outcome {
            None => (rest, rest_failed + 1),
            Some((raw, pm)) => {
                match self.validate_package_manifest(package, &release, &pm) {
                    Ok(()) => {
                        let url = match release.asset_url() {
                            Some(u) => u.to_owned(),
                            None => String::new(),
                        };
                        let lv = LockedVersion::new(
                            release.tag().to_owned(),
                            url,
                            raw.as_str(),
                            pm,
                        );
                        let ghost rest0 = rest@;
                        rest.insert(0, lv);
                        proof {
                            assert(rest@[0] == lv);
                            assert(rest@.drop_first() =~= rest0);
                        }
                        (rest, rest_failed)
                    },
                    Err(_) => (rest, rest_failed + 1),
                }
            },
        }
    }

    /// The fetchable versions of a release listing, in listing order.
    pub fn release_order(&self, releases: &Vec<Release>) -> (r: Vec<String>)
        ensures
            r.deep_view() == spec_fetchable_versions(releases@),
    {
        let mut r: Vec<String> = Vec::new();
        let mut i: usize = 0;
        while i < releases.len()
            invariant
                i <= releases@.len(),
                r.deep_view() == spec_fetchable_versions(releases@.subrange(0, i as int)),
            decreases releases@.len() - i,
        {
            let ghost prev = r.deep_view();
            let rel = &releases[i];
            if rel.asset_url().is_some() {
                let v = rel.version().to_owned();
                r.push(v);
                proof {
                    assert(r.deep_view() =~~= prev.push(releases@[i as int].spec_version()));
                }
            }
            i = i + 1;
            proof {
                assert(releases@.subrange(0, i as int).drop_last() =~= releases@.subrange(
                    0,
                    i as int - 1,
                ));
                assert(releases@.subrange(0, i as int).last() == releases@[i - 1]);
                assert(r.deep_view() =~~= spec_fetchable_versions(
                    releases@.subrange(0, i as int),
                ));
            }
        }
        proof {
            assert(releases@.subrange(0, releases@.len() as int) =~= releases@);
        }
        r
    }

    /// Merges fetched and previously locked versions along the listing
    /// order, then appends the defensive tail of versions upstream no longer
    /// lists.
    pub fn merge_versions(
        &self,
        order: &Vec<String>,
        mut fetched: Vec<LockedVersion>,
        mut existing: Vec<LockedVersion>,
    ) -> (r: Vec<LockedVersion>)
        ensures
            r@ == spec_merge(order.deep_view(), fetched@, existing@) + spec_retain(
                spec_merge_leftover_existing(order.deep_view(), fetched@, existing@),
                spec_merge(order.deep_view(), fetched@, existing@).map_values(
                    |lv: LockedVersion| lv.version@,
                ),
            ),
    {
        let ghost order0 = order.deep_view();
        let ghost fetched0 = fetched@;
        let ghost existing0 = existing@;
        let mut merged: Vec<LockedVersion> = Vec::new();
        proof {
            assert(order.deep_view().skip(0) =~= order.deep_view());
        }
        let mut i: usize = 0;
        while i < order.len()
            invariant
                i <= order@.len(),
                order0 == order.deep_view(),
                order.deep_view().len() == order@.len(),
                forall|t: int|
                    0 <= t < order@.len() ==> order.deep_view()[t] == #[trigger] order@[t]@,
                spec_merge(order0, fetched0, existing0) == merged@ + spec_merge(
                    order0.skip(i as int),
                    fetched@,
                    existing@,
                ),
                spec_merge_leftover_existing(order0, fetched0, existing0)
                    == spec_merge_leftover_existing(order0.skip(i as int), fetched@, existing@),
            decreases order@.len() - i,
        {
            let ghost ord_rest = order0.skip(i as int);
            proof {
                assert(ord_rest.len() > 0);
                assert(ord_rest[0] == order0[i as int]);
                assert(ord_rest.drop_first() =~= order0.skip(i as int + 1));
            }
            let v = &order[i];
            let fi = find_version(&fetched, v.as_str());
            match fi {
                Some(fidx) => {
                    let lv = fetched.remove(fidx);
                    merged.push(lv);
                },
                None => {
                    let ei = find_version(&existing, v.as_str());
                    match ei {
                        Some(eidx) => {
                            let lv = existing.remove(eidx);
                            merged.push(lv);
                        },
                        None => {},
                    }
                },
            }
            i = i + 1;
        }
        proof {
            assert(order0.skip(order@.len() as int) =~= Seq::<Seq<char>>::empty());
            assert(merged@ == spec_merge(order0, fetched0, existing0));
            assert(spec_merge_leftover_existing(order0, fetched0, existing0) == existing@);
        }
        let ghost merged_after = merged@;
        // The version strings already emitted.
        let mut seen: Vec<String> = Vec::new();
        let mut t: usize = 0;
        while t < merged.len()
            invariant
                t <= merged@.len(),
                merged@ == merged_after,
                seen.deep_view().len() == t,
                forall|w: int|
                    0 <= w < t ==> seen.deep_view()[w] == #[trigger] merged@[w].version@,
            decreases merged@.len() - t,
        {
            seen.push(merged[t].version.clone());
            t = t + 1;
        }
        let ghost seen_start = merged_after.map_values(|lv: LockedVersion| lv.version@);
        proof {
            assert(seen.deep_view() =~= seen_start);
        }
        let ghost retain_start_existing = existing@;
        // The defensive tail: keep remaining previously locked versions
        // whose version string has not been emitted yet.
        while existing.len() > 0
            invariant
                merged@.len() >= merged_after.len(),
                merged@.subrange(0, merged_after.len() as int) == merged_after,
                spec_retain(retain_start_existing, seen_start) == merged@.skip(
                    merged_after.len() as int,
                ) + spec_retain(existing@, seen.deep_view()),
            decreases existing@.len(),
        {
            let ghost ex_rest = existing@;
            let ghost seen_now = seen.deep_view();
            let lv = existing.remove(0);
            proof {
                assert(existing@ =~= ex_rest.drop_first());
                assert(lv == ex_rest[0]);
            }
            let mut in_seen = false;
            let mut q: usize = 0;
            while q < seen.len()
                invariant
                    q <= seen@.len(),
                    seen.deep_view() == seen_now,
                    in_seen <==> exists|w: int|
                        0 <= w < q && seen.deep_view()[w] == lv.version@,
                decreases seen@.len() - q,
            {
                proof {
                    assert(seen.deep_view()[q as int] == seen@[q as int]@);
                }
                if str_eq(seen[q].as_str(), lv.version.as_str()) {
                    in_seen = true;
                }
                q = q + 1;
            }
            proof {
                if in_seen {
                    assert(seen_now.contains(lv.version@));
                } else {
                    if seen_now.contains(lv.version@) {
                        let w = choose|w: int|
                            0 <= w < seen_now.len() && seen_now[w] == lv.version@;
                        assert(false);
                    }
                }
            }
            if !in_seen {
                let ghost prev_seen = seen.deep_view();
                let ghost prev_merged = merged@;
                seen.push(lv.version.clone());
                merged.push(lv);
                proof {
                    assert(seen.deep_view() =~= prev_seen.push(ex_rest[0].version@));
                    assert(spec_retain(ex_rest, seen_now) == seq![ex_rest[0]] + spec_retain(
                        ex_rest.drop_first(),
                        seen_now.push(ex_rest[0].version@),
                    ));
                    assert(merged@.subrange(0, merged_after.len() as int) =~= merged_after);
                    assert(merged@.skip(merged_after.len() as int) =~= prev_merged.skip(
                        merged_after.len() as int,
                    ) + seq![ex_rest[0]]);
                    assert(merged@.skip(merged_after.len() as int) + spec_retain(
                        existing@,
                        seen.deep_view(),
                    ) =~= prev_merged.skip(merged_after.len() as int) + spec_retain(
                        ex_rest,
                        seen_now,
                    ));
                }
            } else {
                proof {
                    assert(spec_retain(ex_rest, seen_now) == spec_retain(
                        ex_rest.drop_first(),
                        seen_now,
                    ));
                }
            }
        }
        proof {
            assert(spec_retain(Seq::<LockedVersion>::empty(), seen.deep_view())
                =~= Seq::<LockedVersion>::empty());
            assert(merged@.skip(merged_after.len() as int) + spec_retain(
                existing@,
                seen.deep_view(),
            ) =~= merged@.skip(merged_after.len() as int));
            assert(merged@ =~= merged@.subrange(0, merged_after.len() as int) + merged@.skip(
                merged_after.len() as int,
            ));
            assert(merged@ =~= merged_after + spec_retain(retain_start_existing, seen_start));
        }
        merged
    }
}

/// What is left of the previously locked versions once the merge has taken
/// its picks.
pub open spec fn spec_merge_leftover_existing(
    order: Seq<Seq<char>>,
    fetched: Seq<LockedVersion>,
    existing: Seq<LockedVersion>,
) -> Seq<LockedVersion>
    decreases order.len(),
{
    if order.len() == 0 {
        existing
    } else {
        let v = order[0];
        let fi = spec_version_index(fetched, v);
        if fi >= 0 {
            spec_merge_leftover_existing(order.drop_first(), fetched.remove(fi), existing)
        } else {
            let ei = spec_version_index(existing, v);
            if ei >= 0 {
                spec_merge_leftover_existing(order.drop_first(), fetched, existing.remove(ei))
            } else {
                spec_merge_leftover_existing(order.drop_first(), fetched, existing)
            }
        }
    }
}

/// The first position holding the given version, if any.
fn find_version(vs: &Vec<LockedVersion>, version: &str) -> (r: Option<usize>)
    ensures
        r matches Some(i) ==> spec_version_index(vs@, version@) == i && i < vs@.len(),
        r is None ==> spec_version_index(vs@, version@) < 0,
{
    proof {
        crate::lockfile::lemma_version_index(vs@, version@);
    }
    let mut i: usize = 0;
    while i < vs.len()
        invariant
            i <= vs@.len(),
            forall|k: int| 0 <= k < i ==> #[trigger] vs@[k].version@ != version@,
        decreases vs@.len() - i,
    {
        if str_eq(vs[i].version.as_str(), version) {
            proof {
                crate::lockfile::lemma_version_index_first(vs@, version@, i as int);
            }
            return Some(i);
        }
        i = i + 1;
    }
    None
}

} // verus!

verus! {

/// The version strings of a sequence of locked versions.
pub open spec fn spec_versions_of(vs: Seq<LockedVersion>) -> Seq<Seq<char>> {
    vs.map_values(|lv: LockedVersion| lv.version@)
}

/// The full merged result for one package: when upstream listed nothing
/// fetchable, the previously locked versions are kept unchanged; otherwise
/// the listing-ordered merge followed by the defensive tail.
pub open spec fn spec_merged_full(
    order: Seq<Seq<char>>,
    fetched: Seq<LockedVersion>,
    existing: Seq<LockedVersion>,
) -> Seq<LockedVersion> {
    if order.len() == 0 {
        existing
    } else {
        spec_merge(order, fetched, existing) + spec_retain(
            spec_merge_leftover_existing(order, fetched, existing),
            spec_versions_of(spec_merge(order, fetched, existing)),
        )
    }
}

/// The failures summed over all packages.
pub open spec fn spec_total_failed(outcomes: Seq<PackageFetchResult>) -> int
    decreases outcomes.len(),
{
    if outcomes.len() == 0 {
        0
    } else {
        outcomes[0].failed_count + spec_total_failed(outcomes.drop_first())
    }
}

impl PackageFetcher {
    /// Processes one package: validates and locks the downloaded documents,
    /// merges them with the previously locked versions along the upstream
    /// listing order, and counts what was new and what failed.
    pub fn fetch_package(
        &self,
        package: &Package,
        existing_package: LockedPackage,
        releases: &Vec<Release>,
        downloads: Vec<(Release, Option<(String, PackageManifest)>)>,
    ) -> (r: PackageFetchResult)
        ensures
            r.package_id@ == package.id@,
            r.existing_count == existing_package.versions@.len(),
            exists|fetched: Seq<LockedVersion>|
                #![all_triggers]
                spec_accepted(downloads@, package.id@, fetched) && fetched.len() + r.failed_count
                    == downloads@.len() && r.versions@ == spec_merged_full(
                    spec_fetchable_versions(releases@),
                    fetched,
                    existing_package.versions@,
                ),
            r.new_count == spec_new_count(
                r.versions@,
                spec_versions_of(existing_package.versions@),
            ),
    {
        let existing_versions = existing_package.existing_versions();
        proof {
            assert(existing_versions.deep_view() =~= spec_versions_of(
                existing_package.versions@,
            ));
        }
        let (fetched, failed_count) = self.collect_fetched(package, downloads);
        let ghost fetchedv = fetched@;
        let order = self.release_order(releases);
        let ghost existing0 = existing_package.versions@;
        let versions = if order.len() == 0 {
            proof {
                assert(order.deep_view().len() == 0);
                assert(spec_fetchable_versions(releases@).len() == 0);
            }
            existing_package.versions
        } else {
            self.merge_versions(&order, fetched, existing_package.versions)
        };
        let new_count = count_new(&versions, &existing_versions);
        PackageFetchResult {
            package_id: package.id.clone(),
            versions,
            existing_count: existing_versions.len(),
            new_count,
            failed_count,
        }
    }

    /// Sorts per-package outcomes back into manifest order, so that
    /// completion order never leaks into what callers observe.
    pub fn sort_outcomes(&self, outcomes: Vec<(usize, PackageFetchResult)>) -> (r: Vec<
        (usize, PackageFetchResult),
    >)
        ensures
            r@.len() == outcomes@.len(),
            forall|i: int, j: int|
                0 <= i < j < r@.len() ==> #[trigger] r@[i].0 <= #[trigger] r@[j].0,
            r@.to_multiset() == outcomes@.to_multiset(),
    {

        let mut rest = outcomes;
        let ghost target = rest@.to_multiset();
        let mut r: Vec<(usize, PackageFetchResult)> = Vec::new();
        proof {
            r@.to_multiset_ensures();
            assert(r@.to_multiset() =~= Multiset::<(usize, PackageFetchResult)>::empty());
            assert(r@.to_multiset().add(rest@.to_multiset()) =~= target);
        }
        while rest.len() > 0
            invariant
                target == outcomes@.to_multiset(),
                r@.to_multiset().add(rest@.to_multiset()) == target,
                r@.len() + rest@.len() == outcomes@.len(),
                forall|i: int, j: int|
                    0 <= i < j < r@.len() ==> #[trigger] r@[i].0 <= #[trigger] r@[j].0,
                forall|i: int, j: int|
                    0 <= i < r@.len() && 0 <= j < rest@.len() ==> #[trigger] r@[i].0
                        <= #[trigger] rest@[j].0,
            decreases rest@.len(),
        {
            let mut m: usize = 0;
            let mut j: usize = 1;
            while j < rest.len()
                invariant
                    m < j <= rest@.len(),
                    forall|t: int| 0 <= t < j ==> #[trigger] rest@[t].0 >= rest@[m as int].0,
                decreases rest@.len() - j,
            {
                if rest[j].0 < rest[m].0 {
                    m = j;
                }
                j = j + 1;
            }
            let ghost rest0 = rest@;
            let ghost r0 = r@;
            let x = rest.remove(m);
            r.push(x);
            proof {
                assert(rest@ == rest0.remove(m as int));
                vstd::seq_lib::to_multiset_remove(rest0, m as int);
                assert(r@ == r0.push(x));
                vstd::seq_lib::to_multiset_build(r0, x);
                rest0.to_multiset_ensures();
                assert(rest0.to_multiset().count(x) > 0) by {
                    assert(rest0.contains(x));
                }
                assert(r@.to_multiset().add(rest@.to_multiset()) =~= r0.to_multiset().add(
                    rest0.to_multiset(),
                ));
                assert forall|i2: int, j2: int|
                    0 <= i2 < r@.len() && 0 <= j2 < rest@.len() implies #[trigger] r@[i2].0
                    <= #[trigger] rest@[j2].0 by {
                    if j2 < m {
                        assert(rest@[j2] == rest0[j2]);
                    } else {
                        assert(rest@[j2] == rest0[j2 + 1]);
                    }
                }
            }
        }
        proof {
            rest@.to_multiset_ensures();
            assert(rest@.to_multiset() =~= Multiset::<(usize, PackageFetchResult)>::empty());
            assert(r@.to_multiset() =~= target);
        }
        r
    }
}

/// How many of the versions are new relative to the previously locked
/// version strings.
fn count_new(vs: &Vec<LockedVersion>, existing: &Vec<String>) -> (r: usize)
    ensures
        r == spec_new_count(vs@, existing.deep_view()),
{
    let ghost ex = existing.deep_view();
    let mut r: usize = 0;
    proof {
        assert(vs@.skip(0) =~= vs@);
    }
    let mut i: usize = 0;
    while i < vs.len()
        invariant
            i <= vs@.len(),
            r <= i,
            ex == existing.deep_view(),
            spec_new_count(vs@, ex) == r + spec_new_count(vs@.skip(i as int), ex),
        decreases vs@.len() - i,
    {
        proof {
            assert(vs@.skip(i as int)[0] == vs@[i as int]);
            assert(vs@.skip(i as int).drop_first() =~= vs@.skip(i as int + 1));
        }
        let v = &vs[i];
        let mut found = false;
        let mut j: usize = 0;
        while j < existing.len()
            invariant
                j <= existing@.len(),
                ex == existing.deep_view(),
                v == vs@[i as int],
                found <==> exists|w: int| 0 <= w < j && ex[w] == v.version@,
            decreases existing@.len() - j,
        {
            proof {
                assert(ex[j as int] == existing@[j as int]@);
            }
            if str_eq(existing[j].as_str(), v.version.as_str()) {
                found = true;
            }
            j = j + 1;
        }
        proof {
            if found {
                assert(ex.contains(vs@[i as int].version@));
            } else {
                if ex.contains(vs@[i as int].version@) {
                    let w = choose|w: int| 0 <= w < ex.len() && ex[w] == vs@[i as int].version@;
                    assert(false);
                }
            }
        }
        if !found {
            r = r + 1;
        }
        i = i + 1;
    }
    proof {
        assert(vs@.skip(vs@.len() as int) =~= Seq::<LockedVersion>::empty());
    }
    r
}

} // verus!

verus! {

/// The first index among outcomes holding the given package id, or -1.
pub open spec fn spec_outcome_index(outcomes: Seq<PackageFetchResult>, id: Seq<char>) -> int
    decreases outcomes.len(),
{
    if outcomes.len() == 0 {
        -1
    } else if outcomes[0].package_id@ == id {
        0
    } else {
        let r = spec_outcome_index(outcomes.drop_first(), id);
        if r < 0 {
            -1
        } else {
            r + 1
        }
    }
}

/// A found outcome index lies inside the sequence and holds the id.
pub proof fn lemma_outcome_index(outcomes: Seq<PackageFetchResult>, id: Seq<char>)
    ensures
        spec_outcome_index(outcomes, id) >= 0 ==> spec_outcome_index(outcomes, id)
            < outcomes.len() && outcomes[spec_outcome_index(outcomes, id)].package_id@ == id,
        spec_outcome_index(outcomes, id) < 0 ==> forall|k: int|
            0 <= k < outcomes.len() ==> #[trigger] outcomes[k].package_id@ != id,
    decreases outcomes.len(),
{
    if outcomes.len() > 0 && outcomes[0].package_id@ != id {
        lemma_outcome_index(outcomes.drop_first(), id);
        if spec_outcome_index(outcomes, id) < 0 {
            assert forall|k: int|
                0 <= k < outcomes.len() implies #[trigger] outcomes[k].package_id@ != id by {
                if k > 0 {
                    assert(outcomes.drop_first()[k - 1] == outcomes[k]);
                }
            }
        }
    }
}

impl PackageFetcher {
    /// Finishes a fetch: writes each package's merged versions into the
    /// reconciled lockfile and decides the overall result.  A package the
    /// lockfile does not know is a configuration error; any per-release
    /// failure makes the whole fetch fail with the failure count, and in
    /// both error cases the lockfile is left untouched.
    pub fn fetch(
        &self,
        lockfile: &mut Lockfile,
        outcomes: Vec<PackageFetchResult>,
    ) -> (r: Result<(), Error>)
        requires
            forall|k1: int, k2: int|
                0 <= k1 < k2 < old(lockfile).packages@.len() ==> #[trigger] old(
                    lockfile,
                ).packages@[k1].id@ != #[trigger] old(lockfile).packages@[k2].id@,
            spec_total_failed(outcomes@) <= usize::MAX,
        ensures
            r is Ok <==> (spec_total_failed(outcomes@) == 0 && forall|j: int|
                0 <= j < outcomes@.len() ==> spec_package_index(
                    old(lockfile).packages@,
                    #[trigger] outcomes@[j].package_id@,
                ) >= 0),
            r matches Err(e) ==> *final(lockfile) == *old(lockfile) && ((e
                matches Error::FetchPartialFailure { count } && count == spec_total_failed(
                outcomes@,
            ) && count > 0) || e matches Error::ConfigValidation(_)),
            r is Ok ==> {
                &&& final(lockfile).version == old(lockfile).version
                &&& final(lockfile).manifest_hash == old(lockfile).manifest_hash
                &&& final(lockfile).packages@.len() == old(lockfile).packages@.len()
                &&& forall|k: int|
                    #![trigger final(lockfile).packages@[k]]
                    0 <= k < old(lockfile).packages@.len() ==> {
                        let op = old(lockfile).packages@[k];
                        let fp = final(lockfile).packages@[k];
                        &&& fp.id == op.id
                        &&& fp.repository == op.repository
                        &&& ({
                            let oi = spec_outcome_index(outcomes@, op.id@);
                            if oi >= 0 {
                                fp.versions == outcomes@[oi].versions
                            } else {
                                fp.versions == op.versions
                            }
                        })
                    }
            },
            outcomes@.len() == 0 ==> r is Ok && final(lockfile).packages@
                == old(lockfile).packages@ && final(lockfile).version == old(lockfile).version
                && final(lockfile).manifest_hash == old(lockfile).manifest_hash,
    {
        let ghost outs0 = outcomes@;
        // First pass: sum failures and require every outcome's package to be
        // known, without touching the lockfile.
        let mut total_failed: usize = 0;
        proof {
            assert(outs0.subrange(0, 0) =~= Seq::<PackageFetchResult>::empty());
        }
        let mut j: usize = 0;
        while j < outcomes.len()
            invariant
                j <= outcomes@.len(),
                outcomes@ == outs0,
                spec_total_failed(outs0) <= usize::MAX,
                total_failed == spec_total_failed(outs0.subrange(0, j as int)),
                forall|t: int|
                    0 <= t < j ==> spec_package_index(
                        lockfile.packages@,
                        #[trigger] outs0[t].package_id@,
                    ) >= 0,
            decreases outcomes@.len() - j,
        {
            let present = lockfile.get_package(outcomes[j].package_id.as_str());
            if present.is_none() {
                proof {
                    crate::lockfile::lemma_package_index(
                        lockfile.packages@,
                        outs0[j as int].package_id@,
                    );
                }
                return Err(
                    Error::ConfigValidation(
                        "The lockfile is missing a package after reconciliation".to_owned(),
                    ),
                );
            }
            proof {
                lemma_total_failed_prefix(outs0, j as int + 1);
                lemma_total_failed_bound(outs0, j as int + 1);
            }
            total_failed = total_failed + outcomes[j].failed_count;
            j = j + 1;
        }
        proof {
            assert(outs0.subrange(0, outs0.len() as int) =~= outs0);
        }
        if total_failed > 0 {
            return Err(Error::FetchPartialFailure { count: total_failed });
        }
        // Second pass: move each outcome's versions into its package.
        let ghost orig = lockfile.packages@;
        let mut old_packages: Vec<LockedPackage> = Vec::new();
        core::mem::swap(&mut old_packages, &mut lockfile.packages);
        let mut pool: Vec<Option<PackageFetchResult>> = Vec::new();
        let mut rest = outcomes;
        while rest.len() > 0
            invariant
                pool@.len() + rest@.len() == outs0.len(),
                forall|t: int| 0 <= t < pool@.len() ==> #[trigger] pool@[t] == Some(outs0[t]),
                rest@ == outs0.subrange(pool@.len() as int, outs0.len() as int),
            decreases rest@.len(),
        {
            let o = rest.remove(0);
            proof {
                assert(o == outs0[pool@.len() as int]);
                assert(rest@ =~= outs0.subrange(pool@.len() as int + 1, outs0.len() as int));
            }
            pool.push(o_some(o));
        }
        let mut out: Vec<LockedPackage> = Vec::new();
        let mut k: usize = 0;
        while k < old_packages.len()
            invariant
                k <= old_packages@.len(),
                old_packages@.len() == orig.len(),
                forall|t: int| k <= t < orig.len() ==> #[trigger] old_packages@[t] == orig[t],
                pool@.len() == outs0.len(),
                forall|k1: int, k2: int|
                    0 <= k1 < k2 < orig.len() ==> #[trigger] orig[k1].id@
                        != #[trigger] orig[k2].id@,
                forall|t: int|
                    #![trigger pool@[t]]
                    0 <= t < outs0.len() ==> (pool@[t] == Some(outs0[t]) || (pool@[t] is None
                        && exists|k2: int| 0 <= k2 < k && outs0[t].package_id@ == #[trigger] orig[k2].id@)),
                out@.len() == k,
                forall|t: int|
                    #![trigger out@[t]]
                    0 <= t < k ==> {
                        let op = orig[t];
                        let fp = out@[t];
                        &&& fp.id == op.id
                        &&& fp.repository == op.repository
                        &&& ({
                            let oi = spec_outcome_index(outs0, op.id@);
                            if oi >= 0 {
                                fp.versions == outs0[oi].versions
                            } else {
                                fp.versions == op.versions
                            }
                        })
                    },
            decreases old_packages@.len() - k,
        {
            let pkg = &old_packages[k];
            let mut found: usize = pool.len();
            let mut t: usize = 0;
            while t < pool.len()
                invariant
                    t <= pool@.len(),
                    pkg.id@ == orig[k as int].id@,
                    found == pool@.len() || found < t,
                    found == pool@.len() ==> forall|w: int|
                        #![trigger pool@[w]]
                        0 <= w < t ==> !(pool@[w] matches Some(o) && o.package_id@ == pkg.id@),
                    found < pool@.len() ==> (pool@[found as int] matches Some(o) && o.package_id@
                        == pkg.id@) && forall|w: int|
                        #![trigger pool@[w]]
                        0 <= w < found ==> !(pool@[w] matches Some(o) && o.package_id@ == pkg.id@),
                decreases pool@.len() - t,
            {
                if found == pool.len() {
                    let hit = match &pool[t] {
                        Some(o) => str_eq(o.package_id.as_str(), pkg.id.as_str()),
                        None => false,
                    };
                    if hit {
                        found = t;
                    }
                }
                t = t + 1;
            }
            let pkg_owned = replace_with_empty(&mut old_packages, k);
            if found < pool.len() {
                let taken_opt = pool.remove(found);
                pool.insert(found, None);
                let taken = match taken_opt {
                    Some(o) => o,
                    None => {
                        proof {
                            assert(false);
                        }
                        PackageFetchResult {
                            package_id: String::new(),
                            versions: Vec::new(),
                            existing_count: 0,
                            new_count: 0,
                            failed_count: 0,
                        }
                    },
                };
                proof {
                    assert(taken == outs0[found as int]);
                    assert forall|w: int| 0 <= w < found implies #[trigger] outs0[w].package_id@
                        != pkg_owned.id@ by {
                        if pool@[w] is None {
                            let k2 = choose|k2: int|
                                0 <= k2 < k && outs0[w].package_id@ == #[trigger] orig[k2].id@;
                            assert(orig[k2].id@ != orig[k as int].id@);
                        }
                    }
                    lemma_outcome_index_first(outs0, pkg_owned.id@, found as int);
                }
                out.push(
                    LockedPackage {
                        id: pkg_owned.id,
                        repository: pkg_owned.repository,
                        versions: taken.versions,
                    },
                );
            } else {
                proof {
                    lemma_outcome_index(outs0, pkg_owned.id@);
                    if spec_outcome_index(outs0, pkg_owned.id@) >= 0 {
                        let oi = spec_outcome_index(outs0, pkg_owned.id@);
                        assert(!(pool@[oi] matches Some(o) && o.package_id@ == pkg_owned.id@));
                        assert(pool@[oi] is None);
                        let k2 = choose|k2: int|
                            0 <= k2 < k && outs0[oi].package_id@ == #[trigger] orig[k2].id@;
                        assert(false);
                    }
                }
                out.push(pkg_owned);
            }
            k = k + 1;
        }
        core::mem::swap(&mut out, &mut lockfile.packages);
        proof {
            if outs0.len() == 0 {
                assert(lockfile.packages@ =~= orig) by {
                    assert forall|w: int| 0 <= w < orig.len() implies lockfile.packages@[w]
                        == orig[w] by {
                        assert(spec_outcome_index(outs0, orig[w].id@) < 0);
                    }
                }
            }
        }
        Ok(())
    }
}

/// When `id` first occurs at `i` among the outcomes, the first index is `i`.
pub proof fn lemma_outcome_index_first(outcomes: Seq<PackageFetchResult>, id: Seq<char>, i: int)
    requires
        0 <= i < outcomes.len(),
        outcomes[i].package_id@ == id,
        forall|k: int| 0 <= k < i ==> #[trigger] outcomes[k].package_id@ != id,
    ensures
        spec_outcome_index(outcomes, id) == i,
    decreases i,
{
    if i > 0 {
        assert(outcomes.drop_first()[i - 1] == outcomes[i]);
        assert(forall|k: int|
            0 <= k < i - 1 ==> #[trigger] outcomes.drop_first()[k].package_id@ != id);
        lemma_outcome_index_first(outcomes.drop_first(), id, i - 1);
    }
}

/// The sum over a prefix never exceeds the sum over the whole.
proof fn lemma_total_failed_mono(outcomes: Seq<PackageFetchResult>, j: int)
    requires
        0 <= j <= outcomes.len(),
    ensures
        spec_total_failed(outcomes.subrange(0, j)) <= spec_total_failed(outcomes),
    decreases outcomes.len(),
{
    lemma_total_failed_bound(outcomes, j);
}

/// Prefix sums of failure counts relate by one step.
proof fn lemma_total_failed_prefix(outcomes: Seq<PackageFetchResult>, j: int)
    requires
        1 <= j <= outcomes.len(),
    ensures
        spec_total_failed(outcomes.subrange(0, j)) == spec_total_failed(
            outcomes.subrange(0, j - 1),
        ) + outcomes[j - 1].failed_count,
    decreases j,
{
    let pre = outcomes.subrange(0, j);
    assert(pre[0] == outcomes[0]);
    if j == 1 {
        assert(pre.drop_first() =~= Seq::<PackageFetchResult>::empty());
        assert(outcomes.subrange(0, 0) =~= Seq::<PackageFetchResult>::empty());
        assert(spec_total_failed(outcomes.subrange(0, 0)) == 0);
    } else {
        assert(pre.drop_first() =~= outcomes.subrange(1, j));
        assert(outcomes.subrange(0, j - 1).drop_first() =~= outcomes.subrange(1, j - 1));
        lemma_total_failed_prefix2(outcomes, j);
    }
}

/// Helper: sums over `[1, j)` relate by one step too.
proof fn lemma_total_failed_prefix2(outcomes: Seq<PackageFetchResult>, j: int)
    requires
        2 <= j <= outcomes.len(),
    ensures
        spec_total_failed(outcomes.subrange(1, j)) == spec_total_failed(
            outcomes.subrange(1, j - 1),
        ) + outcomes[j - 1].failed_count,
    decreases j,
{
    let s = outcomes.subrange(1, j);
    lemma_total_failed_last(s);
    assert(s.drop_last() =~= outcomes.subrange(1, j - 1));
    assert(s.last() == outcomes[j - 1]);
}

/// The sum splits off its last element.
proof fn lemma_total_failed_last(s: Seq<PackageFetchResult>)
    requires
        s.len() > 0,
    ensures
        spec_total_failed(s) == spec_total_failed(s.drop_last()) + s.last().failed_count,
    decreases s.len(),
{
    if s.len() > 1 {
        lemma_total_failed_last(s.drop_first());
        assert(s.drop_first().drop_last() =~= s.drop_last().drop_first());
        assert(s.drop_first().last() == s.last());
    } else {
        assert(s.drop_last() =~= Seq::<PackageFetchResult>::empty());
        assert(s.drop_first() =~= Seq::<PackageFetchResult>::empty());
    }
}

/// A prefix's failure sum is bounded by the total.
proof fn lemma_total_failed_bound(outcomes: Seq<PackageFetchResult>, j: int)
    requires
        0 <= j <= outcomes.len(),
    ensures
        spec_total_failed(outcomes.subrange(0, j)) <= spec_total_failed(outcomes),
        spec_total_failed(outcomes) >= 0,
    decreases outcomes.len() - j,
{
    lemma_total_failed_nonneg(outcomes);
    if j < outcomes.len() {
        lemma_total_failed_prefix(outcomes, j + 1);
        lemma_total_failed_bound(outcomes, j + 1);
    } else {
        assert(outcomes.subrange(0, j) =~= outcomes);
    }
}

/// Failure sums are never negative.
proof fn lemma_total_failed_nonneg(outcomes: Seq<PackageFetchResult>)
    ensures
        spec_total_failed(outcomes) >= 0,
    decreases outcomes.len(),
{
    if outcomes.len() > 0 {
        lemma_total_failed_nonneg(outcomes.drop_first());
    }
}

/// Wraps an outcome for the assignment pool.
fn o_some(o: PackageFetchResult) -> (r: Option<PackageFetchResult>)
    ensures
        r == Some(o),
{
    Some(o)
}

/// Takes the element at `i` out of the vector, leaving an empty package in
/// its place.
fn replace_with_empty(v: &mut Vec<LockedPackage>, i: usize) -> (r: LockedPackage)
    requires
        i < old(v)@.len(),
    ensures
        r == old(v)@[i as int],
        final(v)@.len() == old(v)@.len(),
        forall|t: int| 0 <= t < final(v)@.len() && t != i ==> final(v)@[t] == old(v)@[t],
{
    let taken = v.remove(i);
    v.insert(
        i,
        LockedPackage {
            id: String::new(),
            repository: Repository { owner: String::new(), repo: String::new() },
            versions: Vec::new(),
        },
    );
    taken
}

/// Records the freshly computed manifest hash once a fetch has fully
/// succeeded, so the saved lockfile matches the manifest it was fetched
/// against.
pub fn finish_fetch(lockfile: &mut Lockfile, current_hash: String)
    ensures
        final(lockfile).version == old(lockfile).version,
        final(lockfile).packages == old(lockfile).packages,
        final(lockfile).manifest_hash == Some(current_hash),
{
    lockfile.manifest_hash = Some(current_hash);
}

} // verus!

verus! {

/// The position of a version in the upstream listing, or -1.
pub open spec fn spec_listing_pos(order: Seq<Seq<char>>, v: Seq<char>) -> int
    decreases order.len(),
{
    if order.len() == 0 {
        -1
    } else if order[0] == v {
        0
    } else {
        let r = spec_listing_pos(order.drop_first(), v);
        if r < 0 {
            -1
        } else {
            r + 1
        }
    }
}

/// A version the merge emitted sits in the listing.
proof fn lemma_listing_pos_bounds(order: Seq<Seq<char>>, v: Seq<char>)
    ensures
        spec_listing_pos(order, v) >= 0 ==> spec_listing_pos(order, v) < order.len() && order[
            spec_listing_pos(order, v)
        ] == v,
        spec_listing_pos(order, v) < 0 ==> forall|k: int| 0 <= k < order.len() ==> order[k] != v,
    decreases order.len(),
{
    if order.len() > 0 && order[0] != v {
        lemma_listing_pos_bounds(order.drop_first(), v);
        if spec_listing_pos(order, v) < 0 {
            assert forall|k: int| 0 <= k < order.len() implies order[k] != v by {
                if k > 0 {
                    assert(order.drop_first()[k - 1] == order[k]);
                }
            }
        }
    }
}

/// THE LISTING-ORDER LAW: when the upstream listing carries no duplicate
/// version, every version the merge emits comes from the listing, and the
/// emitted versions follow the listing order exactly — however the
/// downloads finished.  The defensive tail of delisted versions follows
/// separately, after all of these.
pub proof fn lemma_merge_follows_listing(
    order: Seq<Seq<char>>,
    fetched: Seq<LockedVersion>,
    existing: Seq<LockedVersion>,
)
    requires
        forall|i: int, j: int| 0 <= i < j < order.len() ==> order[i] != order[j],
    ensures
        forall|i: int|
            0 <= i < spec_merge(order, fetched, existing).len() ==> spec_listing_pos(
                order,
                #[trigger] spec_merge(order, fetched, existing)[i].version@,
            ) >= 0,
        forall|i: int, j: int|
            0 <= i < j < spec_merge(order, fetched, existing).len() ==> spec_listing_pos(
                order,
                #[trigger] spec_merge(order, fetched, existing)[i].version@,
            ) < spec_listing_pos(
                order,
                #[trigger] spec_merge(order, fetched, existing)[j].version@,
            ),
    decreases order.len(),
{
    if order.len() == 0 {
        return ;
    }
    let v = order[0];
    let m = spec_merge(order, fetched, existing);
    assert(forall|i: int, j: int|
        0 <= i < j < order.drop_first().len() ==> order.drop_first()[i]
            != order.drop_first()[j]) by {
        assert(forall|i: int|
            0 <= i < order.drop_first().len() ==> order.drop_first()[i] == order[i + 1]);
    }
    let fi = spec_version_index(fetched, v);
    let ei = spec_version_index(existing, v);
    crate::lockfile::lemma_version_index(fetched, v);
    crate::lockfile::lemma_version_index(existing, v);
    let (head, rest) = if fi >= 0 {
        (
            seq![fetched[fi]],
            spec_merge(order.drop_first(), fetched.remove(fi), existing),
        )
    } else if ei >= 0 {
        (
            seq![existing[ei]],
            spec_merge(order.drop_first(), fetched, existing.remove(ei)),
        )
    } else {
        (Seq::<LockedVersion>::empty(), spec_merge(order.drop_first(), fetched, existing))
    };
    if fi >= 0 {
        lemma_merge_follows_listing(order.drop_first(), fetched.remove(fi), existing);
    } else if ei >= 0 {
        lemma_merge_follows_listing(order.drop_first(), fetched, existing.remove(ei));
    } else {
        lemma_merge_follows_listing(order.drop_first(), fetched, existing);
    }
    assert(m == head + rest);
    assert forall|i: int| 0 <= i < m.len() implies spec_listing_pos(
        order,
        #[trigger] m[i].version@,
    ) >= 0 && (i >= head.len() ==> spec_listing_pos(order, m[i].version@) == 1
        + spec_listing_pos(order.drop_first(), m[i].version@)) && (i < head.len()
        ==> spec_listing_pos(order, m[i].version@) == 0) by {
        if i < head.len() {
            assert(m[i].version@ == v);
        } else {
            assert(m[i] == rest[i - head.len()]);
            lemma_listing_pos_bounds(order.drop_first(), m[i].version@);
            assert(spec_listing_pos(order.drop_first(), m[i].version@) >= 0);
            let p = spec_listing_pos(order.drop_first(), m[i].version@);
            assert(order.drop_first()[p] == m[i].version@);
            assert(order[p + 1] == m[i].version@);
            assert(m[i].version@ != v) by {
                assert(order[p + 1] != order[0]);
            }
        }
    }
}

} // verus!
