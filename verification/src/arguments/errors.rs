//! What can go wrong while the arguments are read.

use vstd::prelude::*;

verus! {

/// A file that could not be used, by its path.
#[derive(Debug)]
pub enum FileErr {
    /// The file could not be opened.
    Open(String),
    /// The file could not be read.
    Read(String),
    /// The file could not be written.
    Write(String),
}

/// Why the arguments could not be read. An index is the position, among the
/// arguments, of the one that is at fault.
#[derive(Debug)]
pub enum ParseErr {
    /// The value of a delay or of a timeout is not a number.
    DelayNaN(usize),
    /// A delay or a timeout was asked for without a value.
    DelayNoValue,
    /// A file of inputs, or the file that queues the inputs, failed.
    File(FileErr),
    /// The argument is not an option of this program.
    InvalidArgument(usize),
    /// The number of jobs, given here as it was written, is not a number.
    JobsNaN(String),
    /// A number of jobs was asked for without a value.
    JobsNoValue,
    /// The value of the number of arguments for each job is not a number.
    MaxArgsNaN(usize),
    /// A number of arguments for each job was asked for without a value.
    MaxArgsNoValue,
    /// No input was given at all.
    NoArguments,
    /// Nothing follows the `:::` that introduces the inputs.
    InputVarsNotDefined,
    /// The lists of inputs have more combinations than can be counted.
    TooManyInputs,
}

/// A `FileErr` as a plain value: the characters of its path.
pub enum FileError {
    Open(Seq<char>),
    Read(Seq<char>),
    Write(Seq<char>),
}

/// A `ParseErr` as a plain value, with text as characters.
pub enum ParseError {
    DelayNaN(usize),
    DelayNoValue,
    File(FileError),
    InvalidArgument(usize),
    JobsNaN(Seq<char>),
    JobsNoValue,
    MaxArgsNaN(usize),
    MaxArgsNoValue,
    NoArguments,
    InputVarsNotDefined,
    TooManyInputs,
}

impl View for FileErr {
    type V = FileError;

    open spec fn view(&self) -> FileError {
        match self {
            FileErr::Open(path) => FileError::Open(path@),
            FileErr::Read(path) => FileError::Read(path@),
            FileErr::Write(path) => FileError::Write(path@),
        }
    }
}

impl View for ParseErr {
    type V = ParseError;

    open spec fn view(&self) -> ParseError {
        match self {
            ParseErr::DelayNaN(index) => ParseError::DelayNaN(*index),
            ParseErr::DelayNoValue => ParseError::DelayNoValue,
            ParseErr::File(file) => ParseError::File(file@),
            ParseErr::InvalidArgument(index) => ParseError::InvalidArgument(*index),
            ParseErr::JobsNaN(value) => ParseError::JobsNaN(value@),
            ParseErr::JobsNoValue => ParseError::JobsNoValue,
            ParseErr::MaxArgsNaN(index) => ParseError::MaxArgsNaN(*index),
            ParseErr::MaxArgsNoValue => ParseError::MaxArgsNoValue,
            ParseErr::NoArguments => ParseError::NoArguments,
            ParseErr::InputVarsNotDefined => ParseError::InputVarsNotDefined,
            ParseErr::TooManyInputs => ParseError::TooManyInputs,
        }
    }
}

/// A result with its error as a plain value.
pub open spec fn outcome<T>(result: Result<T, ParseErr>) -> Result<T, ParseError> {
    match result {
        Ok(value) => Ok(value),
        Err(error) => Err(error@),
    }
}

} // verus!
