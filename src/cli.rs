//! The failures of the command-line extractor, each with its message.

use vstd::prelude::*;

verus! {

/// Why the extractor stopped.
#[derive(Clone, Copy, Debug, PartialEq, Eq, Structural)]
pub enum Error {
    /// No archive path was given.
    InvalidInput,
    /// The archive could not be opened.
    Io,
    /// The archive's index could not be read.
    InvalidHeader,
}

impl Error {
    /// The message shown to the user for this failure.
    pub fn message(&self) -> (r: &'static str)
        ensures
            r@ == match *self {
                Error::InvalidInput => "Missing argument for .arz file path! Cannot continue."@,
                Error::Io => "Failed to open the given file for reading."@,
                Error::InvalidHeader =>
                    "Invalid file header, cannot read the given file as an ARZ database!"@,
            },
    {
        match self {
            Error::InvalidInput => "Missing argument for .arz file path! Cannot continue.",
            Error::Io => "Failed to open the given file for reading.",
            Error::InvalidHeader =>
                "Invalid file header, cannot read the given file as an ARZ database!",
        }
    }
}

} // verus!
