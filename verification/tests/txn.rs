use voyager::error::Error;
use voyager::manifest::{Manifest, Vpm};
use voyager::toml_text::manifest_to_toml;
use voyager::txn::{
    recover_manifest_lock_transaction, save_manifest_and_lock, transaction_path, FileOp, TxnLog,
};

fn sample_manifest(name: &str) -> Manifest {
    Manifest {
        vpm: Vpm {
            id: "com.example.vpm".to_string(),
            name: name.to_string(),
            author: "Author".to_string(),
            url: "https://example.com/index.json".to_string(),
        },
        packages: vec![],
    }
}

fn sample_tx() -> TxnLog {
    TxnLog {
        old_manifest: Some("old manifest".to_string()),
        old_lock: Some("old lock".to_string()),
        new_manifest: "new manifest".to_string(),
        new_lock: "new lock".to_string(),
    }
}

#[test]
fn transaction_path_sits_beside_the_manifest() {
    assert_eq!(transaction_path("voyager.toml"), "voyager.txn");
    assert_eq!(transaction_path("some/dir/voyager.toml"), "some/dir/voyager.txn");
}

#[test]
fn finalizes_committed_state_when_log_remains() {
    let tx = sample_tx();
    let plan = recover_manifest_lock_transaction(
        &tx,
        &Some("new manifest".to_string()),
        &Some("new lock".to_string()),
    )
    .unwrap();
    assert!(matches!(plan.manifest, FileOp::Keep));
    assert!(matches!(plan.lock, FileOp::Keep));
    assert!(plan.remove_log);
}

#[test]
fn finalizes_rolled_back_state_when_log_remains() {
    let tx = sample_tx();
    let plan = recover_manifest_lock_transaction(
        &tx,
        &Some("old manifest".to_string()),
        &Some("old lock".to_string()),
    )
    .unwrap();
    assert!(matches!(plan.manifest, FileOp::Keep));
    assert!(matches!(plan.lock, FileOp::Keep));
    assert!(plan.remove_log);
}

#[test]
fn recovers_partial_write_by_rolling_back() {
    let tx = sample_tx();
    let plan = recover_manifest_lock_transaction(
        &tx,
        &Some("new manifest".to_string()),
        &Some("old lock".to_string()),
    )
    .unwrap();
    assert!(matches!(plan.manifest, FileOp::Write(w) if w == "old manifest"));
    assert!(matches!(plan.lock, FileOp::Write(w) if w == "old lock"));
    assert!(plan.remove_log);
}

#[test]
fn recovers_partial_write_when_original_files_did_not_exist() {
    let tx = TxnLog {
        old_manifest: None,
        old_lock: None,
        new_manifest: "new manifest".to_string(),
        new_lock: "new lock".to_string(),
    };
    let plan =
        recover_manifest_lock_transaction(&tx, &Some("new manifest".to_string()), &None).unwrap();
    assert!(matches!(plan.manifest, FileOp::Remove));
    assert!(matches!(plan.lock, FileOp::Remove));
    assert!(plan.remove_log);
}

#[test]
fn returns_error_for_ambiguous_state_without_overwriting_files() {
    let tx = sample_tx();
    let result = recover_manifest_lock_transaction(
        &tx,
        &Some("user edited".to_string()),
        &Some("old lock".to_string()),
    );
    assert!(matches!(result, Err(Error::ConfigValidation(_))));
}

#[test]
fn lock_only_new_is_also_ambiguous() {
    let tx = sample_tx();
    let result = recover_manifest_lock_transaction(
        &tx,
        &Some("old manifest".to_string()),
        &Some("new lock".to_string()),
    );
    assert!(matches!(result, Err(Error::ConfigValidation(_))));
}

#[test]
fn saves_both_files_on_success() {
    let manifest = sample_manifest("New");
    let tx = save_manifest_and_lock(
        &manifest,
        "lock text".to_string(),
        Some("old m".to_string()),
        None,
    );
    assert_eq!(tx.new_manifest, manifest_to_toml(&manifest));
    assert_eq!(tx.new_lock, "lock text");
    assert_eq!(tx.old_manifest.as_deref(), Some("old m"));
    assert!(tx.old_lock.is_none());
}
