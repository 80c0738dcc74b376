//! The manifest-integrity gate: the manifest content hash, the
//! load-with-gate check, and the laws tying the hash to the canonical
//! serialization.

use vstd::prelude::*;

use crate::error::Error;
use crate::lockfile::{compute_hash, spec_hash_line, Lockfile};
use crate::manifest::{Manifest, ManifestView};
use crate::toml_text::{
    lemma_manifest_round_trip, manifest_to_toml, spec_manifest_toml, spec_parse_manifest,
};

verus! {

/// The content hash of a manifest: the hash line of its canonical TOML
/// serialization.  Computed from the in-memory value, never from raw file
/// bytes, so formatting noise cannot affect it.
pub open spec fn spec_manifest_hash(mv: ManifestView) -> Seq<char> {
    spec_hash_line(spec_manifest_toml(mv))
}

/// Computes the content hash of an in-memory manifest.
pub fn compute_manifest_hash_from_manifest(manifest: &Manifest) -> (r: String)
    ensures
        r@ == spec_manifest_hash(manifest@),
{
    let canonical = manifest_to_toml(manifest);
    compute_hash(canonical.as_str())
}

/// What a gated load hands back: the loaded pair and the computed hash.
pub struct HashCheckResult {
    pub manifest: Manifest,
    pub lockfile: Lockfile,
    pub current_hash: String,
}

/// Recomputes the manifest hash and refuses to proceed when the lockfile
/// stores a different one.  A lockfile without a stored hash passes.
pub fn check_and_load(manifest: Manifest, lockfile: Lockfile) -> (r: Result<
    HashCheckResult,
    Error,
>)
    ensures
        r is Ok <==> (match lockfile.manifest_hash {
            Some(h) => h@ == spec_manifest_hash(manifest@),
            None => true,
        }),
        r matches Ok(res) ==> res.manifest == manifest && res.lockfile == lockfile
            && res.current_hash@ == spec_manifest_hash(manifest@),
        r matches Err(e) ==> e matches Error::ManifestHashMismatch,
{
    let current_hash = compute_manifest_hash_from_manifest(&manifest);
    let mismatch = match &lockfile.manifest_hash {
        Some(stored) => !crate::domain::str_eq(stored.as_str(), current_hash.as_str()),
        None => false,
    };
    if mismatch {
        Err(Error::ManifestHashMismatch)
    } else {
        Ok(HashCheckResult { manifest, lockfile, current_hash })
    }
}

/// HASHING IS IDEMPOTENT UNDER CANONICAL SERIALIZATION: saving a manifest
/// and loading it back yields a value with the same content hash, for any
/// manifest whose repository coordinates are well-formed.
pub proof fn lemma_hash_of_round_trip(mv: ManifestView)
    requires
        forall|k: int|
            0 <= k < mv.packages.len() ==> crate::domain::spec_is_owner(
                #[trigger] mv.packages[k].owner,
            ) && crate::domain::spec_is_repo(mv.packages[k].repo),
    ensures
        spec_parse_manifest(spec_manifest_toml(mv)) matches Some(mv2) && spec_manifest_hash(mv2)
            == spec_manifest_hash(mv),
{
    lemma_manifest_round_trip(mv);
}

/// LOAD AFTER SAVE AFTER LOAD IS LOAD: parsing any accepted document,
/// serializing the result canonically, and parsing again gives back exactly
/// the first parse.
pub proof fn lemma_load_save_load(t: Seq<char>)
    requires
        spec_parse_manifest(t) is Some,
    ensures
        spec_parse_manifest(spec_manifest_toml(spec_parse_manifest(t).unwrap()))
            == spec_parse_manifest(t),
{
    crate::toml_text::lemma_parse_repos_valid(t);
    lemma_manifest_round_trip(spec_parse_manifest(t).unwrap());
}

/// TWO DOCUMENTS THAT PARSE ALIKE HASH ALIKE: formatting, whitespace and
/// comment differences cannot change the stored manifest hash, because the
/// hash is taken over the canonical serialization of the parsed value.
pub proof fn lemma_hash_ignores_formatting(t1: Seq<char>, t2: Seq<char>)
    requires
        spec_parse_manifest(t1) == spec_parse_manifest(t2),
        spec_parse_manifest(t1) is Some,
    ensures
        spec_manifest_hash(spec_parse_manifest(t1).unwrap()) == spec_manifest_hash(
            spec_parse_manifest(t2).unwrap(),
        ),
{
}

} // verus!
