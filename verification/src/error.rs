//! The ways in which a run of the tool can fail, and how a failure is told.

use vstd::prelude::*;
use vstd::string::*;

verus! {

/// Why a run did not complete.
#[derive(Debug, PartialEq, Eq)]
pub enum Error {
    /// The argument list does not hold a program name, a query and a file
    /// name.
    MissingArgument,
    /// The file could not be read. Holds the reason in words.
    Io(String),
}

/// The exit status of a run that completed, whether or not it found a line.
pub const EXIT_SUCCESS: i32 = 0;

/// The exit status of a run that failed.
pub const EXIT_FAILURE: i32 = 1;

impl Error {
    /// The reason for the failure, in words.
    pub open spec fn spec_reason(&self) -> Seq<char> {
        match self {
            Error::MissingArgument => "not enough arguments"@,
            Error::Io(reason) => reason@,
        }
    }

    /// What introduces the reason in the line that tells of the failure.
    pub open spec fn spec_heading(&self) -> Seq<char> {
        match self {
            Error::MissingArgument => "Problem parsing arguments: "@,
            Error::Io(_) => "Application Error: "@,
        }
    }

    /// The line that tells of the failure: the heading, then the reason.
    pub open spec fn spec_report(&self) -> Seq<char> {
        self.spec_heading() + self.spec_reason()
    }

    /// The reason for the failure, in words.
    pub fn reason(&self) -> (reason: String)
        ensures
            reason@ == self.spec_reason(),
    {
        match self {
            Error::MissingArgument => String::from_str("not enough arguments"),
            Error::Io(reason) => reason.clone(),
        }
    }

    /// The line to write to the error stream for this failure.
    pub fn report(&self) -> (line: String)
        ensures
            line@ == self.spec_report(),
    {
        match self {
            Error::MissingArgument => String::from_str("Problem parsing arguments: ").concat(
                "not enough arguments",
            ),
            Error::Io(reason) => String::from_str("Application Error: ").concat(reason.as_str()),
        }
    }
}

/// The status with which the process exits after a run that ended in
/// `outcome`.
pub fn exit_status(outcome: &Result<(), Error>) -> (status: i32)
    ensures
        status == if outcome is Ok { EXIT_SUCCESS } else { EXIT_FAILURE },
{
    match outcome {
        Ok(_) => EXIT_SUCCESS,
        Err(_) => EXIT_FAILURE,
    }
}

} // verus!
