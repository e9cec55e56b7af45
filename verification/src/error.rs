//! The three ways a command fails.

use vstd::prelude::*;
use vstd::string::StringExecFns;

verus! {

/// Why a command failed. Each failure ends the call that met it: nothing is
/// tried again.
#[derive(Debug, Clone, PartialEq, Eq)]
pub enum CommandError {
    /// The path did not exist when it was checked. Holds the path.
    FileNotFound(String),
    /// The path existed, but reading it or its metadata failed. Holds the
    /// reason.
    ReadError(String),
    /// Writing failed. Holds the reason.
    WriteError(String),
}

/// A `CommandError` as a value of specifications.
pub enum ErrorModel {
    FileNotFound(Seq<char>),
    ReadError(Seq<char>),
    WriteError(Seq<char>),
}

impl ErrorModel {
    /// The message shown to the user: what kind of failure, then its detail.
    pub open spec fn message(self) -> Seq<char> {
        match self {
            ErrorModel::FileNotFound(path) => "File not found: "@ + path,
            ErrorModel::ReadError(reason) => "Failed to read file: "@ + reason,
            ErrorModel::WriteError(reason) => "Failed to write file: "@ + reason,
        }
    }
}

impl View for CommandError {
    type V = ErrorModel;

    open spec fn view(&self) -> ErrorModel {
        match self {
            CommandError::FileNotFound(path) => ErrorModel::FileNotFound(path@),
            CommandError::ReadError(reason) => ErrorModel::ReadError(reason@),
            CommandError::WriteError(reason) => ErrorModel::WriteError(reason@),
        }
    }
}

impl CommandError {
    /// The message shown to the user.
    pub fn message(&self) -> (text: String)
        ensures
            text@ == self@.message(),
    {
        match self {
            CommandError::FileNotFound(path) => String::from_str("File not found: ").concat(
                path.as_str(),
            ),
            CommandError::ReadError(reason) => String::from_str("Failed to read file: ").concat(
                reason.as_str(),
            ),
            CommandError::WriteError(reason) => String::from_str("Failed to write file: ").concat(
                reason.as_str(),
            ),
        }
    }
}

} // verus!
