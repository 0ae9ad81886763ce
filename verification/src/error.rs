use vstd::prelude::*;

verus! {

/// The category of a failure, which the command layer maps to an exit status.
#[derive(Clone, Copy, PartialEq, Eq, Debug)]
pub enum ErrorKind {
    InvalidArgs,
    Unexpected,
    TargetNotFound,
    FileNotFound,
}

/// A failure with its category and a human-readable message.
#[derive(Debug)]
pub struct CliError {
    pub kind: ErrorKind,
    pub message: String,
}

pub type CliResult<T> = Result<T, CliError>;

impl CliError {
    pub fn invalid_args(message: String) -> (e: CliError)
        ensures
            e.kind == ErrorKind::InvalidArgs,
            e.message@ == message@,
    {
        CliError { kind: ErrorKind::InvalidArgs, message }
    }

    pub fn unexpected(message: String) -> (e: CliError)
        ensures
            e.kind == ErrorKind::Unexpected,
            e.message@ == message@,
    {
        CliError { kind: ErrorKind::Unexpected, message }
    }

    pub fn target_not_found(message: String) -> (e: CliError)
        ensures
            e.kind == ErrorKind::TargetNotFound,
            e.message@ == message@,
    {
        CliError { kind: ErrorKind::TargetNotFound, message }
    }
}

} // verus!
