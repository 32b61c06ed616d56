use vstd::prelude::*;

verus! {

/// Errors of the command line: its arguments and the file it reads.
#[derive(Debug, Clone, Copy, PartialEq, Eq, Structural)]
pub enum ProgramError {
    ArgumentMissing,
    PathMissing,
    InvalidAmountOfArguments,
    InvalidFilePath,
    InvalidFileFormat,
    ErrorWhileReadingFile,
}

impl ProgramError {
    /// The user-visible text of each error.
    pub open spec fn text(self) -> Seq<char> {
        match self {
            ProgramError::ArgumentMissing => "Invalid arguments: regex and path missing"@,
            ProgramError::PathMissing => "Invalid arguments: path missing"@,
            ProgramError::InvalidAmountOfArguments => "Invalid amount of arguments"@,
            ProgramError::InvalidFilePath => "Invalid file path"@,
            ProgramError::InvalidFileFormat => "Invalid file format"@,
            ProgramError::ErrorWhileReadingFile => "An error occurred while reading file"@,
        }
    }

    /// Returns the error message for the ProgramError.
    pub fn message(&self) -> (r: &'static str)
        ensures
            r@ == self.text(),
    {
        match self {
            ProgramError::ArgumentMissing => "Invalid arguments: regex and path missing",
            ProgramError::PathMissing => "Invalid arguments: path missing",
            ProgramError::InvalidAmountOfArguments => "Invalid amount of arguments",
            ProgramError::InvalidFilePath => "Invalid file path",
            ProgramError::InvalidFileFormat => "Invalid file format",
            ProgramError::ErrorWhileReadingFile => "An error occurred while reading file",
        }
    }
}

} // verus!
