//! Curation engine for a VPM package index: manifest and lockfile models,
//! validation rules, the crash-safe two-file transaction planner, the
//! manifest-integrity hash gate, the fetch reconciliation pipeline, and the
//! URL-liveness decision logic.

pub mod chars;
pub mod cli;
pub mod domain;
pub mod error;
pub mod fetch;
pub mod gate;
pub mod lockfile;
pub mod manifest;
pub mod output;
pub mod retry;
pub mod toml_text;
pub mod txn;
pub mod urlcheck;
pub mod validation;
