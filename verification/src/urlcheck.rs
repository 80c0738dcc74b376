//! URL-liveness checking: the verdicts each HTTP status dictates for the
//! HEAD-then-GET protocol, and the validation summary.

use vstd::prelude::*;

use crate::output::VpmOutput;

verus! {

/// What a HEAD response dictates.
#[derive(Debug, Clone, Copy, PartialEq, Eq, Structural)]
pub enum HeadVerdict {
    /// A success status: the URL is live.
    Valid,
    /// A definitive client error: the URL is dead; no retry.
    Invalid,
    /// A transient condition: try HEAD again after backoff.
    Retry,
    /// The host refuses HEAD: probe with a ranged GET instead.
    FallbackToGet,
}

/// What a ranged-GET response dictates.
#[derive(Debug, Clone, Copy, PartialEq, Eq, Structural)]
pub enum GetVerdict {
    /// A success status: the URL is live.
    Valid,
    /// A client error: the URL is dead; no retry.
    Invalid,
    /// A transient condition: try again after backoff.
    Retry,
}

/// Reads a HEAD status: 2xx is live; 403, 405 and 501 switch to the GET
/// fallback; 429 retries; every other 4xx is dead; everything else —
/// 5xx included — retries.
pub fn classify_head_status(status: u16) -> (r: HeadVerdict)
    ensures
        (200 <= status < 300) ==> r == HeadVerdict::Valid,
        (status == 403 || status == 405 || status == 501) ==> r == HeadVerdict::FallbackToGet,
        status == 429 ==> r == HeadVerdict::Retry,
        (400 <= status < 500 && status != 403 && status != 405 && status != 429) ==> r
            == HeadVerdict::Invalid,
        !(200 <= status < 300) && !(400 <= status < 500) && status != 501 ==> r
            == HeadVerdict::Retry,
{
    if 200 <= status && status < 300 {
        HeadVerdict::Valid
    } else if status == 403 || status == 405 || status == 501 {
        HeadVerdict::FallbackToGet
    } else if status == 429 {
        HeadVerdict::Retry
    } else if 400 <= status && status < 500 {
        HeadVerdict::Invalid
    } else {
        HeadVerdict::Retry
    }
}

/// Reads a ranged-GET status: 2xx is live, 429 retries, every other 4xx is
/// dead, everything else retries.
pub fn classify_get_status(status: u16) -> (r: GetVerdict)
    ensures
        (200 <= status < 300) ==> r == GetVerdict::Valid,
        status == 429 ==> r == GetVerdict::Retry,
        (400 <= status < 500 && status != 429) ==> r == GetVerdict::Invalid,
        !(200 <= status < 300) && !(400 <= status < 500) ==> r == GetVerdict::Retry,
{
    if 200 <= status && status < 300 {
        GetVerdict::Valid
    } else if status == 429 {
        GetVerdict::Retry
    } else if 400 <= status && status < 500 {
        GetVerdict::Invalid
    } else {
        GetVerdict::Retry
    }
}

/// One inaccessible download URL, with the package and version it belongs
/// to.
#[derive(Debug, Clone)]
pub struct InvalidUrl {
    pub package_id: String,
    pub version: String,
    pub url: String,
}

/// What URL validation found: how many URLs were checked, how many were
/// live, and the dead ones.
pub struct ValidationResult {
    pub total: usize,
    pub valid: usize,
    pub invalid: Vec<InvalidUrl>,
}

/// The URL validator's bounds: how many checks run at once and how often a
/// transient failure is retried.
pub struct UrlValidator {
    pub max_concurrent: usize,
    pub max_retries: u32,
}

impl UrlValidator {
    /// A validator with the given bounds.
    pub fn new(max_concurrent: usize, max_retries: u32) -> (r: UrlValidator)
        ensures
            r.max_concurrent == max_concurrent,
            r.max_retries == max_retries,
    {
        UrlValidator { max_concurrent, max_retries }
    }

    /// Summarizes a validation run over the index: the driver hands back the
    /// triples it found dead, and the summary accounts for every collected
    /// URL.
    pub fn validate(&self, output: &VpmOutput, invalid_tuples: Vec<(String, String, String)>)
        -> (r: ValidationResult)
        requires
            invalid_tuples@.len() <= crate::output::spec_url_count(output.packages@),
        ensures
            r.total == crate::output::spec_url_count(output.packages@),
            r.valid == r.total - r.invalid@.len(),
            r.invalid@.len() == invalid_tuples@.len(),
            forall|w: int|
                #![trigger r.invalid@[w]]
                0 <= w < r.invalid@.len() ==> r.invalid@[w].package_id == invalid_tuples@[w].0
                    && r.invalid@[w].version == invalid_tuples@[w].1 && r.invalid@[w].url
                    == invalid_tuples@[w].2,
    {
        let urls = output.collect_urls();
        let total = urls.len();
        let mut invalid: Vec<InvalidUrl> = Vec::new();
        let mut rest = invalid_tuples;
        let ghost tuples0 = rest@;
        proof {
            assert(tuples0.subrange(0, 0) =~= Seq::<(String, String, String)>::empty());
        }
        while rest.len() > 0
            invariant
                invalid@.len() + rest@.len() == tuples0.len(),
                rest@ == tuples0.subrange(invalid@.len() as int, tuples0.len() as int),
                forall|w: int|
                    #![trigger invalid@[w]]
                    0 <= w < invalid@.len() ==> invalid@[w].package_id == tuples0[w].0
                        && invalid@[w].version == tuples0[w].1 && invalid@[w].url == tuples0[w].2,
            decreases rest@.len(),
        {
            let (package_id, version, url) = rest.remove(0);
            proof {
                assert(tuples0.subrange(invalid@.len() as int, tuples0.len() as int)[0]
                    == tuples0[invalid@.len() as int]);
                assert(rest@ =~= tuples0.subrange(invalid@.len() as int + 1, tuples0.len() as int));
            }
            invalid.push(InvalidUrl { package_id, version, url });
        }
        ValidationResult { total, valid: total - invalid.len(), invalid }
    }
}

} // verus!
