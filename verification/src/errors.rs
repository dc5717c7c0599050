//! The failure kinds of the retention workflow and their descriptions.

use vstd::prelude::*;

verus! {

/// Everything that can go wrong before or during a retention run.
/// Configuration and path-validity errors are fatal; per-file deletion
/// failures are reported and recovered from by the caller.
#[derive(Clone, Copy, Debug, PartialEq, Eq, Structural)]
pub enum RetentionError {
    /// Incompatible mode flags, rejected before any filesystem access.
    ConfigurationError,
    /// The target path does not exist.
    PathNotFound,
    /// The target path is a file, not a directory.
    PathNotADirectory,
    /// No eligible regular file anywhere in scope.
    EmptyResult,
    /// An individual file could not be removed.
    DeletionFailure,
    /// A scan or metadata read failed.
    IOFailure,
}

impl RetentionError {
    pub open spec fn spec_message(self) -> Seq<char> {
        match self {
            RetentionError::ConfigurationError => "Incompatible mode flags."@,
            RetentionError::PathNotFound => "The provided path does not exist."@,
            RetentionError::PathNotADirectory => "The provided path is a file, not a directory."@,
            RetentionError::EmptyResult => "No files found in the directory. Remember that the program only works with files, not directories."@,
            RetentionError::DeletionFailure => "A file could not be deleted."@,
            RetentionError::IOFailure => "A filesystem operation failed."@,
        }
    }

    /// A human-readable description of the error.
    pub fn message(&self) -> (s: String)
        ensures
            s@ == self.spec_message(),
    {
        match self {
            RetentionError::ConfigurationError => "Incompatible mode flags.".to_owned(),
            RetentionError::PathNotFound => "The provided path does not exist.".to_owned(),
            RetentionError::PathNotADirectory => "The provided path is a file, not a directory."
                .to_owned(),
            RetentionError::EmptyResult => "No files found in the directory. Remember that the program only works with files, not directories."
                .to_owned(),
            RetentionError::DeletionFailure => "A file could not be deleted.".to_owned(),
            RetentionError::IOFailure => "A filesystem operation failed.".to_owned(),
        }
    }
}

} // verus!
