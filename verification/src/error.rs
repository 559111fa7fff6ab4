//! The closed set of failure kinds that tracking operations report.

use vstd::prelude::*;
use vstd::string::StringExecFns;

verus! {

/// Why a tracking operation failed.
///
/// Failures that originate outside the library (filesystem reads and writes,
/// directory walks, background workers) arrive here as carried message
/// strings; the library itself produces `NotADirectory`, `NotFound` and
/// `SerializationError`.
#[derive(Debug, Clone, PartialEq, Eq)]
pub enum FileTrackerError {
    /// The root path exists but is not a directory.
    NotADirectory,
    /// No persisted state exists where some was expected.
    NotFound,
    /// A read, write or metadata query failed.
    IoError(String),
    /// A directory walk failed part-way through.
    ScanError(String),
    /// A background scan task failed to complete.
    JoinError(String),
    /// Persisted state was present but could not be decoded.
    SerializationError(String),
}

impl FileTrackerError {
    /// The name of the error's variant, as a character sequence.
    pub open spec fn spec_kind_name(&self) -> Seq<char> {
        match self {
            FileTrackerError::NotADirectory => "NotADirectory"@,
            FileTrackerError::NotFound => "NotFound"@,
            FileTrackerError::IoError(_) => "IoError"@,
            FileTrackerError::ScanError(_) => "ScanError"@,
            FileTrackerError::JoinError(_) => "JoinError"@,
            FileTrackerError::SerializationError(_) => "SerializationError"@,
        }
    }

    /// The detail text carried by the error, as a character sequence.
    pub open spec fn spec_details(&self) -> Seq<char> {
        match self {
            FileTrackerError::NotADirectory => "The specified path is not a directory"@,
            FileTrackerError::NotFound => "No persisted state was found"@,
            FileTrackerError::IoError(s) => s@,
            FileTrackerError::ScanError(s) => s@,
            FileTrackerError::JoinError(s) => s@,
            FileTrackerError::SerializationError(s) => s@,
        }
    }

    /// The full human-readable message, as a character sequence.
    pub open spec fn spec_message(&self) -> Seq<char> {
        match self {
            FileTrackerError::NotADirectory => "The specified path is not a directory"@,
            FileTrackerError::NotFound => "No persisted state was found"@,
            FileTrackerError::IoError(s) => "I/O error: "@ + s@,
            FileTrackerError::ScanError(s) => "File scanning error: "@ + s@,
            FileTrackerError::JoinError(s) => "Background task error: "@ + s@,
            FileTrackerError::SerializationError(s) => "Serialization error: "@ + s@,
        }
    }

    /// Returns the name of the error's variant.
    pub fn kind_name(&self) -> (r: String)
        ensures
            r@ == self.spec_kind_name(),
    {
        match self {
            FileTrackerError::NotADirectory => "NotADirectory".to_owned(),
            FileTrackerError::NotFound => "NotFound".to_owned(),
            FileTrackerError::IoError(_) => "IoError".to_owned(),
            FileTrackerError::ScanError(_) => "ScanError".to_owned(),
            FileTrackerError::JoinError(_) => "JoinError".to_owned(),
            FileTrackerError::SerializationError(_) => "SerializationError".to_owned(),
        }
    }

    /// Returns the detail text carried by the error.
    pub fn details(&self) -> (r: String)
        ensures
            r@ == self.spec_details(),
    {
        match self {
            FileTrackerError::NotADirectory => {
                "The specified path is not a directory".to_owned()
            },
            FileTrackerError::NotFound => "No persisted state was found".to_owned(),
            FileTrackerError::IoError(s) => s.clone(),
            FileTrackerError::ScanError(s) => s.clone(),
            FileTrackerError::JoinError(s) => s.clone(),
            FileTrackerError::SerializationError(s) => s.clone(),
        }
    }

    /// Returns the full human-readable message.
    pub fn message(&self) -> (r: String)
        ensures
            r@ == self.spec_message(),
    {
        match self {
            FileTrackerError::NotADirectory => {
                "The specified path is not a directory".to_owned()
            },
            FileTrackerError::NotFound => "No persisted state was found".to_owned(),
            FileTrackerError::IoError(s) => {
                let mut r = "I/O error: ".to_owned();
                r.append(s.as_str());
                r
            },
            FileTrackerError::ScanError(s) => {
                let mut r = "File scanning error: ".to_owned();
                r.append(s.as_str());
                r
            },
            FileTrackerError::JoinError(s) => {
                let mut r = "Background task error: ".to_owned();
                r.append(s.as_str());
                r
            },
            FileTrackerError::SerializationError(s) => {
                let mut r = "Serialization error: ".to_owned();
                r.append(s.as_str());
                r
            },
        }
    }
}

} // verus!
