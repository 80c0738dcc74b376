//! The library's error kinds and the process exit code each one maps to.

use vstd::prelude::*;

verus! {

/// Process exit codes following the sysexits.h conventions where applicable.
#[derive(Debug, Clone, Copy, PartialEq, Eq, Structural)]
pub struct ExitCode(pub i32);

impl ExitCode {
    /// General error.
    pub fn failure() -> (r: ExitCode)
        ensures
            r.0 == 1,
    {
        ExitCode(1)
    }

    /// Configuration error (invalid configuration, validation failure).
    pub fn config() -> (r: ExitCode)
        ensures
            r.0 == 78,
    {
        ExitCode(78)
    }

    /// I/O error (file read or write failed).
    pub fn io() -> (r: ExitCode)
        ensures
            r.0 == 74,
    {
        ExitCode(74)
    }

    /// Network or service unavailable.
    pub fn unavailable() -> (r: ExitCode)
        ensures
            r.0 == 69,
    {
        ExitCode(69)
    }

    /// Data format error (JSON or TOML parsing failed).
    pub fn data() -> (r: ExitCode)
        ensures
            r.0 == 65,
    {
        ExitCode(65)
    }
}

/// Every failure the library reports.  Payloads carry the offending value or a
/// short description; rendering for the terminal is left to callers.
#[derive(Debug, Clone)]
pub enum Error {
    /// Filesystem failure outside a specific read or write.
    Io(String),
    /// Reading the named file failed.
    FileRead { path: String },
    /// Writing the named file failed.
    FileWrite { path: String },
    /// The named file does not hold well-formed TOML of the expected shape.
    TomlParse { path: String, message: String },
    /// A value could not be rendered as TOML.
    TomlSerialize { path: String },
    /// A validation rule on user-supplied configuration failed.
    ConfigValidation(String),
    /// A repository coordinate is not of the form `owner/repo`.
    InvalidRepository(String),
    /// An identifier is not in reverse domain notation.
    InvalidPackageId(String),
    /// A URL failed validation; the second field says why.
    InvalidUrl(String, String),
    /// The upstream release API reported a failure.
    GitHub { message: String },
    /// An HTTP request failed.
    Http { url: String },
    /// A document from the named source is not well-formed JSON.
    JsonParse { source_name: String, message: String },
    /// A value could not be rendered as JSON.
    JsonSerialize(String),
    /// A release carries no asset with the configured name.
    PackageJsonNotFound { tag: String },
    /// Writing the generated index failed.
    OutputWrite { path: String },
    /// URL validation found inaccessible URLs.
    UrlValidation { count: usize },
    /// The named repository does not exist upstream.
    RepositoryNotFound(String),
    /// Fetch finished but some releases failed; the lockfile was not updated.
    FetchPartialFailure { count: usize },
    /// The manifest changed on disk since the lockfile hash was recorded.
    ManifestHashMismatch,
    /// The task runtime could not start.
    RuntimeInit(String),
}

impl Error {
    /// The exit code of this error kind.
    pub fn exit_code(&self) -> (r: ExitCode)
        ensures
            r.0 == self.spec_exit_code(),
    {
        match self {
            Error::Io(_) => ExitCode::io(),
            Error::FileRead { .. } => ExitCode::io(),
            Error::FileWrite { .. } => ExitCode::io(),
            Error::OutputWrite { .. } => ExitCode::io(),
            Error::TomlParse { .. } => ExitCode::data(),
            Error::TomlSerialize { .. } => ExitCode::data(),
            Error::JsonParse { .. } => ExitCode::data(),
            Error::JsonSerialize(_) => ExitCode::data(),
            Error::ConfigValidation(_) => ExitCode::config(),
            Error::InvalidRepository(_) => ExitCode::config(),
            Error::InvalidPackageId(_) => ExitCode::config(),
            Error::InvalidUrl(_, _) => ExitCode::config(),
            Error::ManifestHashMismatch => ExitCode::config(),
            Error::GitHub { .. } => ExitCode::unavailable(),
            Error::Http { .. } => ExitCode::unavailable(),
            Error::RepositoryNotFound(_) => ExitCode::unavailable(),
            Error::UrlValidation { .. } => ExitCode::unavailable(),
            Error::FetchPartialFailure { .. } => ExitCode::unavailable(),
            Error::PackageJsonNotFound { .. } => ExitCode::failure(),
            Error::RuntimeInit(_) => ExitCode::failure(),
        }
    }

    /// The exit code mapping, stated once: I/O errors exit 74, format errors
    /// 65, configuration errors 78, remote-side errors 69, the rest 1.
    pub open spec fn spec_exit_code(&self) -> int {
        match self {
            Error::Io(_)
            | Error::FileRead { .. }
            | Error::FileWrite { .. }
            | Error::OutputWrite { .. } => 74,
            Error::TomlParse { .. }
            | Error::TomlSerialize { .. }
            | Error::JsonParse { .. }
            | Error::JsonSerialize(_) => 65,
            Error::ConfigValidation(_)
            | Error::InvalidRepository(_)
            | Error::InvalidPackageId(_)
            | Error::InvalidUrl(_, _)
            | Error::ManifestHashMismatch => 78,
            Error::GitHub { .. }
            | Error::Http { .. }
            | Error::RepositoryNotFound(_)
            | Error::UrlValidation { .. }
            | Error::FetchPartialFailure { .. } => 69,
            Error::PackageJsonNotFound { .. } | Error::RuntimeInit(_) => 1,
        }
    }
}

} // verus!
