use vstd::prelude::*;

verus! {

/// Errors found while compiling a pattern or evaluating a line.
#[derive(Debug, Clone, Copy, PartialEq, Eq, Structural)]
pub enum RegexError {
    InvalidRange,
    InvalidBackslash,
    NoAsciiCharacter,
    InvalidBracket,
    InvalidClass,
}

impl RegexError {
    /// The user-visible text of each error.
    pub open spec fn text(self) -> Seq<char> {
        match self {
            RegexError::InvalidRange => "Invalid regex: invalid range"@,
            RegexError::InvalidBackslash => "Invalid regex: invalid backslash"@,
            RegexError::NoAsciiCharacter => "Non-ascii characters in input"@,
            RegexError::InvalidBracket => "Invalid bracket in regex"@,
            RegexError::InvalidClass => "Invalid character class in regex"@,
        }
    }

    /// Returns the error message for the RegexError.
    pub fn message(&self) -> (r: &'static str)
        ensures
            r@ == self.text(),
    {
        match self {
            RegexError::InvalidRange => "Invalid regex: invalid range",
            RegexError::InvalidBackslash => "Invalid regex: invalid backslash",
            RegexError::NoAsciiCharacter => "Non-ascii characters in input",
            RegexError::InvalidBracket => "Invalid bracket in regex",
            RegexError::InvalidClass => "Invalid character class in regex",
        }
    }
}

} // verus!
