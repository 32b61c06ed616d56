use vstd::prelude::*;

use super::regex_class::RegexClass;

verus! {

/// The atom of a step: what one repetition of it matches.
#[derive(Debug, Clone)]
pub enum RegexVal {
    Literal(char),
    Wildcard,
    Class(RegexClass),
    Bracket(Vec<char>),
    NotBracket(Vec<char>),
}

/// The mathematical value of a `RegexVal`.
pub enum RegexValView {
    Literal(char),
    Wildcard,
    Class(RegexClass),
    Bracket(Seq<char>),
    NotBracket(Seq<char>),
}

impl View for RegexVal {
    type V = RegexValView;

    open spec fn view(&self) -> RegexValView {
        match self {
            RegexVal::Literal(c) => RegexValView::Literal(*c),
            RegexVal::Wildcard => RegexValView::Wildcard,
            RegexVal::Class(k) => RegexValView::Class(*k),
            RegexVal::Bracket(v) => RegexValView::Bracket(v@),
            RegexVal::NotBracket(v) => RegexValView::NotBracket(v@),
        }
    }
}

impl RegexValView {
    /// Whether one occurrence of the atom is the character `c`.
    pub open spec fn accepts(self, c: char) -> bool {
        match self {
            RegexValView::Literal(l) => c == l,
            RegexValView::Wildcard => true,
            RegexValView::Class(k) => k.contains(c),
            RegexValView::Bracket(s) => s.contains(c),
            RegexValView::NotBracket(s) => !s.contains(c),
        }
    }

    /// The number of bytes of `s` that one occurrence of the atom consumes at its start.
    pub open spec fn width(self, s: Seq<char>) -> nat {
        if s.len() > 0 && self.accepts(s[0]) {
            utf8_width(s[0])
        } else {
            0
        }
    }
}

/// The number of bytes that UTF-8 takes for a character.
pub open spec fn utf8_width(c: char) -> nat {
    if (c as u32) < 0x80 {
        1
    } else if (c as u32) < 0x800 {
        2
    } else if (c as u32) < 0x10000 {
        3
    } else {
        4
    }
}

fn char_width(c: char) -> (r: usize)
    ensures
        r == utf8_width(c),
{
    let u = c as u32;
    if u < 0x80 {
        1
    } else if u < 0x800 {
        2
    } else if u < 0x10000 {
        3
    } else {
        4
    }
}

fn holds(v: &Vec<char>, c: char) -> (r: bool)
    ensures
        r == v@.contains(c),
{
    let mut i: usize = 0;
    while i < v.len()
        invariant
            i <= v.len(),
            forall|j: int| 0 <= j < i ==> v@[j] != c,
        decreases v.len() - i,
    {
        if v[i] == c {
            return true;
        }
        i = i + 1;
    }
    false
}

impl RegexVal {
    /// Whether one occurrence of the atom is the character `c`.
    pub fn accepts(&self, c: char) -> (r: bool)
        ensures
            r == self@.accepts(c),
    {
        match self {
            RegexVal::Literal(l) => c == *l,
            RegexVal::Wildcard => true,
            RegexVal::Class(class) => class.matches(c),
            RegexVal::Bracket(vec) => holds(vec, c),
            RegexVal::NotBracket(vec) => !holds(vec, c),
        }
    }

    /// Given a string, returns how many of its bytes, at its start, one occurrence
    /// of the atom consumes: the width of the first character, or 0.
    pub fn matches(&self, value: &str) -> (r: usize)
        ensures
            r == self@.width(value@),
    {
        if value.is_empty() {
            return 0;
        }
        let c = value.get_char(0);
        if self.accepts(c) {
            char_width(c)
        } else {
            0
        }
    }
}

} // verus!
