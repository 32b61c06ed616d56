use vstd::prelude::*;

use crate::regex::regex_error::RegexError;

verus! {

/// A named class of characters, written `[[:name:]]` in a pattern.
#[derive(Debug, Clone, Copy, PartialEq, Eq, Structural)]
pub enum RegexClass {
    Alnum,
    Alpha,
    Digit,
    Lower,
    Upper,
    Space,
    Punct,
}

pub open spec fn is_lower(c: char) -> bool {
    'a' <= c <= 'z'
}

pub open spec fn is_upper(c: char) -> bool {
    'A' <= c <= 'Z'
}

pub open spec fn is_digit(c: char) -> bool {
    '0' <= c <= '9'
}

/// Horizontal tab, line feed, vertical tab, form feed, carriage return and space.
pub open spec fn is_space(c: char) -> bool {
    ('\t' <= c <= '\r') || c == ' '
}

/// The printable ASCII characters that are neither letters, digits nor space.
pub open spec fn is_punct(c: char) -> bool {
    ('!' <= c <= '/') || (':' <= c <= '@') || ('[' <= c <= '`') || ('{' <= c <= '~')
}

impl RegexClass {
    /// Membership of a character in the class.
    pub open spec fn contains(self, c: char) -> bool {
        match self {
            RegexClass::Alnum => is_lower(c) || is_upper(c) || is_digit(c),
            RegexClass::Alpha => is_lower(c) || is_upper(c),
            RegexClass::Digit => is_digit(c),
            RegexClass::Lower => is_lower(c),
            RegexClass::Upper => is_upper(c),
            RegexClass::Space => is_space(c),
            RegexClass::Punct => is_punct(c),
        }
    }

    /// Given a char, returns if it matches the RegexClass.
    pub fn matches(&self, c: char) -> (r: bool)
        ensures
            r == self.contains(c),
    {
        let lower = 'a' <= c && c <= 'z';
        let upper = 'A' <= c && c <= 'Z';
        let digit = '0' <= c && c <= '9';
        match self {
            RegexClass::Alnum => lower || upper || digit,
            RegexClass::Alpha => lower || upper,
            RegexClass::Digit => digit,
            RegexClass::Lower => lower,
            RegexClass::Upper => upper,
            RegexClass::Space => ('\t' <= c && c <= '\r') || c == ' ',
            RegexClass::Punct => ('!' <= c && c <= '/') || (':' <= c && c <= '@') || ('[' <= c
                && c <= '`') || ('{' <= c && c <= '~'),
        }
    }
}

/// The class that a name stands for, if any.
pub open spec fn class_named(name: Seq<char>) -> Option<RegexClass> {
    if name == "alnum"@ {
        Some(RegexClass::Alnum)
    } else if name == "alpha"@ {
        Some(RegexClass::Alpha)
    } else if name == "digit"@ {
        Some(RegexClass::Digit)
    } else if name == "lower"@ {
        Some(RegexClass::Lower)
    } else if name == "upper"@ {
        Some(RegexClass::Upper)
    } else if name == "space"@ {
        Some(RegexClass::Space)
    } else if name == "punct"@ {
        Some(RegexClass::Punct)
    } else {
        None
    }
}

fn names(class: &String, name: &str) -> (r: bool)
    ensures
        r == (class@ == name@),
{
    let owned = name.to_owned();
    *class == owned
}

/// Given the name of a class, returns the corresponding RegexClass.
pub fn determinate_regex_class(class: String) -> (r: Result<RegexClass, RegexError>)
    ensures
        match class_named(class@) {
            Some(k) => r == Ok::<RegexClass, RegexError>(k),
            None => r == Err::<RegexClass, RegexError>(RegexError::InvalidClass),
        },
{
    if names(&class, "alnum") {
        Ok(RegexClass::Alnum)
    } else if names(&class, "alpha") {
        Ok(RegexClass::Alpha)
    } else if names(&class, "digit") {
        Ok(RegexClass::Digit)
    } else if names(&class, "lower") {
        Ok(RegexClass::Lower)
    } else if names(&class, "upper") {
        Ok(RegexClass::Upper)
    } else if names(&class, "space") {
        Ok(RegexClass::Space)
    } else if names(&class, "punct") {
        Ok(RegexClass::Punct)
    } else {
        Err(RegexError::InvalidClass)
    }
}

} // verus!
