//! The two kinds of failure of a run: one of the repository layer, and one
//! of file input and output.

use vstd::prelude::*;

verus! {

#[verifier::external_type_specification]
#[verifier::external_body]
pub struct ExGitError(git2::Error);

#[verifier::external_type_specification]
#[verifier::external_body]
pub struct ExIoError(std::io::Error);

/// Why a run stopped.
pub enum RTrimError {
    /// Discovering the repository, diffing, or reading or writing the index failed.
    Git(git2::Error),
    /// Opening, reading, writing or renaming a file failed.
    Io(std::io::Error),
}

impl From<git2::Error> for RTrimError {
    fn from(e: git2::Error) -> (r: RTrimError) {
        RTrimError::Git(e)
    }
}

impl vstd::std_specs::convert::FromSpecImpl<git2::Error> for RTrimError {
    open spec fn obeys_from_spec() -> bool {
        true
    }

    open spec fn from_spec(e: git2::Error) -> RTrimError {
        RTrimError::Git(e)
    }
}

impl From<std::io::Error> for RTrimError {
    fn from(e: std::io::Error) -> (r: RTrimError) {
        RTrimError::Io(e)
    }
}

impl vstd::std_specs::convert::FromSpecImpl<std::io::Error> for RTrimError {
    open spec fn obeys_from_spec() -> bool {
        true
    }

    open spec fn from_spec(e: std::io::Error) -> RTrimError {
        RTrimError::Io(e)
    }
}

/// Relies on git2's `Error::message`: the message that the repository layer
/// gave, copied into a string.
#[verifier::external_body]
fn git_message(e: &git2::Error) -> (r: String) {
    e.message().to_string()
}

/// Relies on std::io::Error's `Display`: the description of the failure.
#[verifier::external_body]
fn io_message(e: &std::io::Error) -> (r: String) {
    e.to_string()
}

impl RTrimError {
    /// The repository layer's message for a repository failure, the
    /// description of the failure otherwise.
    pub fn message(&self) -> (r: String) {
        match self {
            RTrimError::Git(e) => git_message(e),
            RTrimError::Io(e) => io_message(e),
        }
    }
}

} // verus!
