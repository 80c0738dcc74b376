//! The crash-safe two-file transaction: the log record, the save plan, and
//! the recovery decision.  Performing the file operations is the caller's
//! business; everything decided here is pure and fully specified.

use vstd::prelude::*;

use crate::cli::spec_with_extension;
use crate::cli::with_extension_str;
use crate::error::Error;
use crate::manifest::Manifest;
use crate::toml_text::{manifest_to_toml, spec_manifest_toml};

verus! {

/// The sidecar transaction log: the byte-for-byte before and after of both
/// files.  `None` records that a file did not exist.
#[derive(Debug, Clone)]
pub struct TxnLog {
    pub old_manifest: Option<String>,
    pub old_lock: Option<String>,
    pub new_manifest: String,
    pub new_lock: String,
}

/// What to do with one file during recovery.
#[derive(Debug, Clone)]
pub enum FileOp {
    /// Leave the file as it is.
    Keep,
    /// Write these exact contents atomically.
    Write(String),
    /// Remove the file if it exists.
    Remove,
}

/// The actions recovery asks for: one operation per file, and whether the
/// log is to be removed afterwards.
#[derive(Debug, Clone)]
pub struct RecoveryPlan {
    pub manifest: FileOp,
    pub lock: FileOp,
    pub remove_log: bool,
}

/// The file contents that an operation leaves behind.
pub open spec fn spec_apply_op(op: FileOp, current: Option<Seq<char>>) -> Option<Seq<char>> {
    match op {
        FileOp::Keep => current,
        FileOp::Write(s) => Some(s@),
        FileOp::Remove => None,
    }
}

/// The transaction log lives beside the manifest, with the `txn` extension.
pub fn transaction_path(config_path: &str) -> (r: String)
    ensures
        r@ == spec_with_extension(config_path@, "txn"@),
{
    with_extension_str(config_path, "txn")
}

/// Whether current contents equal a recorded side: both absent, or both
/// present and byte-for-byte equal.
pub open spec fn spec_matches(current: Option<Seq<char>>, recorded: Option<Seq<char>>) -> bool {
    current == recorded
}

/// Decides how to recover from a transaction log found on disk, given the
/// current contents of both files.
///
/// The writer updates the manifest first, so a single-writer crash leaves
/// the disk in one of three shapes: both files new (finalize), both old
/// (nothing was written), or manifest new with lockfile old (roll back).
/// Any other shape means the files were edited out-of-band; recovery then
/// refuses to touch them.  Every accepted plan removes the log, and applying
/// it leaves either the old pair or the new pair on disk — never a mixture.
pub fn recover_manifest_lock_transaction(
    tx: &TxnLog,
    current_manifest: &Option<String>,
    current_lock: &Option<String>,
) -> (r: Result<RecoveryPlan, Error>)
    ensures
        ({
            let m_old = spec_matches(current_manifest.deep_view(), tx.old_manifest.deep_view());
            let m_new = current_manifest.deep_view() == Some(tx.new_manifest@);
            let l_old = spec_matches(current_lock.deep_view(), tx.old_lock.deep_view());
            let l_new = current_lock.deep_view() == Some(tx.new_lock@);
            &&& (r is Ok <==> ((m_new && l_new) || (m_old && l_old) || (m_new && l_old)))
            &&& ((m_new && l_new) || (m_old && l_old) ==> (r matches Ok(p) && p.manifest is Keep
                && p.lock is Keep && p.remove_log))
            &&& (!(m_new && l_new) && !(m_old && l_old) && (m_new && l_old) ==> (r matches Ok(p)
                && p.remove_log && (match tx.old_manifest {
                Some(om) => p.manifest matches FileOp::Write(w) && w@ == om@,
                None => p.manifest is Remove,
            }) && (match tx.old_lock {
                Some(ol) => p.lock matches FileOp::Write(w) && w@ == ol@,
                None => p.lock is Remove,
            })))
            &&& (r matches Ok(p) ==> (p.remove_log && {
                let final_m = spec_apply_op(p.manifest, current_manifest.deep_view());
                let final_l = spec_apply_op(p.lock, current_lock.deep_view());
                (final_m == Some(tx.new_manifest@) && final_l == Some(tx.new_lock@)) || (final_m
                    == tx.old_manifest.deep_view() && final_l == tx.old_lock.deep_view())
            }))
            &&& (r matches Err(e) ==> e matches Error::ConfigValidation(_))
        }),
{
    let manifest_is_old = opt_eq(current_manifest, &tx.old_manifest);
    let manifest_is_new = opt_is(current_manifest, &tx.new_manifest);
    let lock_is_old = opt_eq(current_lock, &tx.old_lock);
    let lock_is_new = opt_is(current_lock, &tx.new_lock);

    if manifest_is_new && lock_is_new {
        return Ok(RecoveryPlan { manifest: FileOp::Keep, lock: FileOp::Keep, remove_log: true });
    }
    if manifest_is_old && lock_is_old {
        return Ok(RecoveryPlan { manifest: FileOp::Keep, lock: FileOp::Keep, remove_log: true });
    }
    if manifest_is_new && lock_is_old {
        let manifest_op = match &tx.old_manifest {
            Some(om) => FileOp::Write(om.clone()),
            None => FileOp::Remove,
        };
        let lock_op = match &tx.old_lock {
            Some(ol) => FileOp::Write(ol.clone()),
            None => FileOp::Remove,
        };
        return Ok(RecoveryPlan { manifest: manifest_op, lock: lock_op, remove_log: true });
    }
    Err(
        Error::ConfigValidation(
            "Found an unresolved manifest/lock transaction, but the current files do not match a recoverable state. Please inspect the files and remove the transaction file manually.".to_owned(),
        ),
    )
}

/// Whether both are absent, or both present and equal.
fn opt_eq(a: &Option<String>, b: &Option<String>) -> (r: bool)
    ensures
        r == (a.deep_view() == b.deep_view()),
{
    match (a, b) {
        (None, None) => true,
        (Some(x), Some(y)) => {
            let e = crate::domain::str_eq(x.as_str(), y.as_str());
            proof {
                if !e {
                    assert(a.deep_view() matches Some(av) && av == x@);
                    assert(b.deep_view() matches Some(bv) && bv == y@);
                }
            }
            e
        },
        _ => false,
    }
}

/// Whether `a` holds exactly the string `b`.
fn opt_is(a: &Option<String>, b: &String) -> (r: bool)
    ensures
        r == (a.deep_view() == Some(b@)),
{
    match a {
        None => false,
        Some(x) => crate::domain::str_eq(x.as_str(), b.as_str()),
    }
}

/// Builds the transaction log for committing a new manifest and lockfile
/// pair.  The manifest is rendered in its canonical form; the lockfile text
/// is supplied by the caller.  The caller then writes the log, the manifest,
/// the lockfile, and removes the log, in that order.
pub fn save_manifest_and_lock(
    manifest: &Manifest,
    new_lock_text: String,
    old_manifest: Option<String>,
    old_lock: Option<String>,
) -> (tx: TxnLog)
    ensures
        tx.new_manifest@ == spec_manifest_toml(manifest@),
        tx.new_lock == new_lock_text,
        tx.old_manifest == old_manifest,
        tx.old_lock == old_lock,
{
    TxnLog {
        old_manifest,
        old_lock,
        new_manifest: manifest_to_toml(manifest),
        new_lock: new_lock_text,
    }
}

} // verus!
