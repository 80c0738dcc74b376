//! The hand-edited manifest: the VPM listing description and its declared
//! packages.

use vstd::prelude::*;

use crate::domain::{str_eq, Repository};
use crate::error::Error;
use crate::validation::{
    spec_has_vpm_prefix, spec_is_reverse_domain, spec_is_valid_url, validate_package_id_prefix,
    validate_reverse_domain, validate_url,
};

verus! {

/// The listing description: its reverse-domain id, display name, author and
/// the URL the generated index will be served from.
#[derive(Debug, Clone)]
pub struct Vpm {
    pub id: String,
    pub name: String,
    pub author: String,
    pub url: String,
}

/// A declared package: its reverse-domain id and the upstream repository its
/// releases come from.
#[derive(Debug, Clone)]
pub struct Package {
    pub id: String,
    pub repository: Repository,
}

/// The manifest: the listing description and the ordered declared packages.
/// Package order is significant; it dictates the order of the generated
/// index.
#[derive(Debug, Clone)]
pub struct Manifest {
    pub vpm: Vpm,
    pub packages: Vec<Package>,
}

/// A well-formed listing description.
pub open spec fn spec_vpm_valid(v: Vpm) -> bool {
    &&& spec_is_reverse_domain(v.id@)
    &&& v.name@.len() > 0
    &&& v.author@.len() > 0
    &&& spec_is_valid_url(v.url@)
}

/// A well-formed package declaration, in itself.
pub open spec fn spec_package_valid(p: Package) -> bool {
    spec_is_reverse_domain(p.id@)
}

/// A well-formed manifest: a valid listing description, every package valid
/// and inside the VPM id namespace, and no two packages with the same id.
pub open spec fn spec_manifest_valid(m: Manifest) -> bool {
    &&& spec_vpm_valid(m.vpm)
    &&& forall|k: int|
        0 <= k < m.packages@.len() ==> spec_package_valid(#[trigger] m.packages@[k])
            && spec_has_vpm_prefix(m.packages@[k].id@, m.vpm.id@)
    &&& forall|k1: int, k2: int|
        0 <= k1 < k2 < m.packages@.len() ==> #[trigger] m.packages@[k1].id@
            != #[trigger] m.packages@[k2].id@
}

impl Vpm {
    /// Checks the listing description: reverse-domain id, non-empty name and
    /// author, valid `http(s)` URL.
    pub fn validate(&self) -> (r: Result<(), Error>)
        ensures
            r is Ok <==> spec_vpm_valid(*self),
            r matches Err(e) ==> !spec_vpm_valid(*self),
    {
        if self.id.as_str().is_empty() {
            return Err(Error::ConfigValidation("VPM id is empty".to_owned()));
        }
        match validate_reverse_domain(self.id.as_str()) {
            Err(e) => {
                return Err(e);
            },
            Ok(()) => {},
        }
        if self.name.as_str().is_empty() {
            return Err(Error::ConfigValidation("VPM name is empty".to_owned()));
        }
        if self.author.as_str().is_empty() {
            return Err(Error::ConfigValidation("VPM author is empty".to_owned()));
        }
        match validate_url(self.url.as_str()) {
            Err(e) => {
                return Err(e);
            },
            Ok(()) => {},
        }
        Ok(())
    }
}

impl Package {
    /// Checks the package declaration: a non-empty reverse-domain id.
    pub fn validate(&self) -> (r: Result<(), Error>)
        ensures
            r is Ok <==> spec_package_valid(*self),
            r matches Err(e) ==> !spec_package_valid(*self),
    {
        if self.id.as_str().is_empty() {
            return Err(Error::ConfigValidation("Package id is empty".to_owned()));
        }
        match validate_reverse_domain(self.id.as_str()) {
            Err(e) => Err(e),
            Ok(()) => Ok(()),
        }
    }

    /// A field-for-field copy.
    pub fn clone_package(&self) -> (r: Package)
        ensures
            r == *self,
    {
        Package {
            id: self.id.clone(),
            repository: Repository {
                owner: self.repository.owner.clone(),
                repo: self.repository.repo.clone(),
            },
        }
    }
}

impl Manifest {
    /// A manifest with the given listing description and no packages.
    pub fn new(vpm: Vpm) -> (r: Manifest)
        ensures
            r.vpm == vpm,
            r.packages@.len() == 0,
    {
        Manifest { vpm, packages: Vec::new() }
    }

    /// Checks the whole manifest: the listing description, each package, the
    /// namespace rule, and id uniqueness.
    pub fn validate(&self) -> (r: Result<(), Error>)
        ensures
            r is Ok <==> spec_manifest_valid(*self),
    {
        match self.vpm.validate() {
            Err(e) => {
                return Err(e);
            },
            Ok(()) => {},
        }
        let mut k: usize = 0;
        while k < self.packages.len()
            invariant
                k <= self.packages@.len(),
                spec_vpm_valid(self.vpm),
                forall|j: int|
                    0 <= j < k ==> spec_package_valid(#[trigger] self.packages@[j])
                        && spec_has_vpm_prefix(self.packages@[j].id@, self.vpm.id@),
                forall|j1: int, j2: int|
                    0 <= j1 < j2 < k ==> #[trigger] self.packages@[j1].id@
                        != #[trigger] self.packages@[j2].id@,
            decreases self.packages@.len() - k,
        {
            let package = &self.packages[k];
            match package.validate() {
                Err(e) => {
                    return Err(e);
                },
                Ok(()) => {},
            }
            match validate_package_id_prefix(package.id.as_str(), self.vpm.id.as_str()) {
                Err(e) => {
                    return Err(e);
                },
                Ok(()) => {},
            }
            let mut j: usize = 0;
            while j < k
                invariant
                    j <= k < self.packages@.len(),
                    forall|t: int|
                        0 <= t < j ==> #[trigger] self.packages@[t].id@
                            != self.packages@[k as int].id@,
                decreases k - j,
            {
                if str_eq(self.packages[j].id.as_str(), self.packages[k].id.as_str()) {
                    let m = "Duplicate package ID: ".to_owned();
                    let m = m.concat(self.packages[k].id.as_str());
                    return Err(Error::ConfigValidation(m));
                }
                j = j + 1;
            }
            k = k + 1;
        }
        Ok(())
    }
}

} // verus!

verus! {

/// The mathematical content of a listing description.
#[verifier::ext_equal]
pub struct VpmView {
    pub id: Seq<char>,
    pub name: Seq<char>,
    pub author: Seq<char>,
    pub url: Seq<char>,
}

/// The mathematical content of a package declaration.
#[verifier::ext_equal]
pub struct PackageView {
    pub id: Seq<char>,
    pub owner: Seq<char>,
    pub repo: Seq<char>,
}

/// The mathematical content of a manifest.
#[verifier::ext_equal]
pub struct ManifestView {
    pub vpm: VpmView,
    pub packages: Seq<PackageView>,
}

impl View for Vpm {
    type V = VpmView;

    open spec fn view(&self) -> VpmView {
        VpmView { id: self.id@, name: self.name@, author: self.author@, url: self.url@ }
    }
}

impl View for Package {
    type V = PackageView;

    open spec fn view(&self) -> PackageView {
        PackageView {
            id: self.id@,
            owner: self.repository.owner@,
            repo: self.repository.repo@,
        }
    }
}

impl View for Manifest {
    type V = ManifestView;

    open spec fn view(&self) -> ManifestView {
        ManifestView {
            vpm: self.vpm@,
            packages: Seq::new(self.packages@.len(), |i: int| self.packages@[i]@),
        }
    }
}

} // verus!

verus! {

/// Validity of a listing description, stated over its mathematical content.
pub open spec fn spec_vpm_valid_view(v: VpmView) -> bool {
    &&& spec_is_reverse_domain(v.id)
    &&& v.name.len() > 0
    &&& v.author.len() > 0
    &&& spec_is_valid_url(v.url)
}

/// Validity of a whole manifest, stated over its mathematical content.
pub open spec fn spec_manifest_valid_view(mv: ManifestView) -> bool {
    &&& spec_vpm_valid_view(mv.vpm)
    &&& forall|k: int|
        0 <= k < mv.packages.len() ==> spec_is_reverse_domain(#[trigger] mv.packages[k].id)
            && spec_has_vpm_prefix(mv.packages[k].id, mv.vpm.id)
    &&& forall|k1: int, k2: int|
        0 <= k1 < k2 < mv.packages.len() ==> #[trigger] mv.packages[k1].id
            != #[trigger] mv.packages[k2].id
}

/// A manifest is valid exactly when its mathematical content is.
pub proof fn lemma_manifest_valid_view(m: Manifest)
    ensures
        spec_manifest_valid(m) <==> spec_manifest_valid_view(m@),
{
    assert(forall|k: int|
        0 <= k < m.packages@.len() ==> #[trigger] m@.packages[k] == m.packages@[k]@);
    if spec_manifest_valid(m) {
        assert forall|k: int|
            0 <= k < m@.packages.len() implies spec_is_reverse_domain(
            #[trigger] m@.packages[k].id,
        ) && spec_has_vpm_prefix(m@.packages[k].id, m@.vpm.id) by {
            assert(m@.packages[k] == m.packages@[k]@);
        }
        assert forall|k1: int, k2: int|
            0 <= k1 < k2 < m@.packages.len() implies #[trigger] m@.packages[k1].id
            != #[trigger] m@.packages[k2].id by {
            assert(m@.packages[k1] == m.packages@[k1]@);
            assert(m@.packages[k2] == m.packages@[k2]@);
        }
        assert(spec_manifest_valid_view(m@));
    }
    if spec_manifest_valid_view(m@) {
        assert forall|k: int|
            0 <= k < m.packages@.len() implies spec_package_valid(#[trigger] m.packages@[k])
            && spec_has_vpm_prefix(m.packages@[k].id@, m.vpm.id@) by {
            assert(m@.packages[k] == m.packages@[k]@);
            assert(spec_is_reverse_domain(m@.packages[k].id));
            assert(spec_has_vpm_prefix(m@.packages[k].id, m@.vpm.id));
        }
        assert forall|k1: int, k2: int|
            0 <= k1 < k2 < m.packages@.len() implies #[trigger] m.packages@[k1].id@
            != #[trigger] m.packages@[k2].id@ by {
            assert(m@.packages[k1] == m.packages@[k1]@);
            assert(m@.packages[k2] == m.packages@[k2]@);
            assert(m@.packages[k1].id != m@.packages[k2].id);
        }
        assert(spec_manifest_valid(m));
    }
}

} // verus!
