//! Failures of a directory read.

use vstd::prelude::*;
use vstd::string::StringExecFns;

verus! {

/// `std::io::Error`, carried through as an opaque value.
#[verifier::external_type_specification]
#[verifier::external_body]
pub struct ExIoError(std::io::Error);

/// Why a directory could not be listed.
#[derive(Debug)]
pub enum FilesError {
    /// Enumerating the directory failed; the cause is kept for diagnostics.
    Io(std::io::Error),
    /// The path does not denote a readable directory.
    InvalidPath,
}

impl From<std::io::Error> for FilesError {
    fn from(err: std::io::Error) -> (error: Self) {
        FilesError::Io(err)
    }
}

impl vstd::std_specs::convert::FromSpecImpl<std::io::Error> for FilesError {
    open spec fn obeys_from_spec() -> bool {
        true
    }

    open spec fn from_spec(err: std::io::Error) -> Self {
        FilesError::Io(err)
    }
}

/// `Display` of `std::io::Error`: the text that the platform gives for the
/// failure. The text depends on the operating system, so nothing is claimed
/// of it.
#[verifier::external_body]
fn io_error_text(err: &std::io::Error) -> (text: String) {
    format!("{}", err)
}

/// The message for an I/O failure whose cause reads `detail`.
pub fn io_failure_message(detail: &str) -> (text: String)
    ensures
        text@ == "IO error: "@ + detail@,
{
    let mut text = String::from_str("IO error: ");
    text.append(detail);
    text
}

impl FilesError {
    /// The text shown to a user for this failure.
    pub fn message(&self) -> (text: String)
        ensures
            self is InvalidPath ==> text@ == "Invalid path provided"@,
            self is Io ==> exists|detail: Seq<char>| text@ == "IO error: "@ + detail,
    {
        match self {
            FilesError::Io(err) => {
                let detail = io_error_text(err);
                let text = io_failure_message(detail.as_str());
                assert(text@ == "IO error: "@ + detail@);
                text
            },
            FilesError::InvalidPath => String::from_str("Invalid path provided"),
        }
    }
}

} // verus!
