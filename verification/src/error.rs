//! The error taxonomy of the install engine.

use vstd::prelude::*;
use vstd::string::StringExecFns;

verus! {

/// Everything that can go wrong while resolving, fetching or installing.
///
/// Transport failures carry the text of the underlying error.
#[derive(Debug, Clone)]
pub enum WaxError {
    HttpError(String),
    JsonError(String),
    IoError(String),
    FormulaNotFound(String),
    CaskNotFound(String),
    CacheError(String),
    ChecksumMismatch { expected: String, actual: String },
    BottleNotAvailable(String),
    DependencyCycle(String),
    InstallError(String),
    NotInstalled(String),
    LockfileError(String),
    InvalidInput(String),
    PlatformNotSupported(String),
    ParseError(String),
    BuildError(String),
    TapError(String),
}

/// Result type used throughout the library.
pub type Result<T> = core::result::Result<T, WaxError>;

impl WaxError {
    /// The fixed text that introduces each kind of error.
    pub open spec fn headline(&self) -> Seq<char> {
        match self {
            WaxError::HttpError(_) => "HTTP error: "@,
            WaxError::JsonError(_) => "JSON error: "@,
            WaxError::IoError(_) => "IO error: "@,
            WaxError::FormulaNotFound(_) => "Formula not found: "@,
            WaxError::CaskNotFound(_) => "Cask not found: "@,
            WaxError::CacheError(_) => "Cache error: "@,
            WaxError::ChecksumMismatch { .. } => "Checksum mismatch: expected "@,
            WaxError::BottleNotAvailable(_) => "Bottle not available for platform: "@,
            WaxError::DependencyCycle(_) => "Dependency cycle detected: "@,
            WaxError::InstallError(_) => "Installation failed: "@,
            WaxError::NotInstalled(_) => "Package not installed: "@,
            WaxError::LockfileError(_) => "Lockfile error: "@,
            WaxError::InvalidInput(_) => "Invalid input: "@,
            WaxError::PlatformNotSupported(_) => "Operation not supported on this platform: "@,
            WaxError::ParseError(_) => "Parse error: "@,
            WaxError::BuildError(_) => "Build error: "@,
            WaxError::TapError(_) => "Tap error: "@,
        }
    }

    /// The detail that follows the headline.
    pub open spec fn detail(&self) -> Seq<char> {
        match self {
            WaxError::HttpError(m) => m@,
            WaxError::JsonError(m) => m@,
            WaxError::IoError(m) => m@,
            WaxError::FormulaNotFound(m) => m@,
            WaxError::CaskNotFound(m) => m@,
            WaxError::CacheError(m) => m@,
            WaxError::ChecksumMismatch { expected, actual } => expected@ + ", got "@ + actual@,
            WaxError::BottleNotAvailable(m) => m@,
            WaxError::DependencyCycle(m) => m@,
            WaxError::InstallError(m) => m@,
            WaxError::NotInstalled(m) => m@,
            WaxError::LockfileError(m) => m@,
            WaxError::InvalidInput(m) => m@,
            WaxError::PlatformNotSupported(m) => m@,
            WaxError::ParseError(m) => m@,
            WaxError::BuildError(m) => m@,
            WaxError::TapError(m) => m@,
        }
    }

    /// The text shown to the user for this error.
    pub open spec fn text(&self) -> Seq<char> {
        self.headline() + self.detail()
    }

    /// Renders the error as the line shown to the user.
    pub fn message(&self) -> (out: String)
        ensures
            out@ == self.text(),
    {
        match self {
            WaxError::HttpError(m) => String::from_str("HTTP error: ").concat(m.as_str()),
            WaxError::JsonError(m) => String::from_str("JSON error: ").concat(m.as_str()),
            WaxError::IoError(m) => String::from_str("IO error: ").concat(m.as_str()),
            WaxError::FormulaNotFound(m) => String::from_str("Formula not found: ").concat(
                m.as_str(),
            ),
            WaxError::CaskNotFound(m) => String::from_str("Cask not found: ").concat(m.as_str()),
            WaxError::CacheError(m) => String::from_str("Cache error: ").concat(m.as_str()),
            WaxError::ChecksumMismatch { expected, actual } => {
                let out = String::from_str("Checksum mismatch: expected ").concat(
                    expected.as_str(),
                ).concat(", got ").concat(actual.as_str());
                assert(out@ =~= self.text());
                out
            },
            WaxError::BottleNotAvailable(m) => String::from_str(
                "Bottle not available for platform: ",
            ).concat(m.as_str()),
            WaxError::DependencyCycle(m) => String::from_str("Dependency cycle detected: ").concat(
                m.as_str(),
            ),
            WaxError::InstallError(m) => String::from_str("Installation failed: ").concat(
                m.as_str(),
            ),
            WaxError::NotInstalled(m) => String::from_str("Package not installed: ").concat(
                m.as_str(),
            ),
            WaxError::LockfileError(m) => String::from_str("Lockfile error: ").concat(m.as_str()),
            WaxError::InvalidInput(m) => String::from_str("Invalid input: ").concat(m.as_str()),
            WaxError::PlatformNotSupported(m) => String::from_str(
                "Operation not supported on this platform: ",
            ).concat(m.as_str()),
            WaxError::ParseError(m) => String::from_str("Parse error: ").concat(m.as_str()),
            WaxError::BuildError(m) => String::from_str("Build error: ").concat(m.as_str()),
            WaxError::TapError(m) => String::from_str("Tap error: ").concat(m.as_str()),
        }
    }
}

} // verus!
