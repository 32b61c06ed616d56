use vstd::prelude::*;

verus! {

/// How many times a step's atom is to be matched.
#[derive(Debug, Clone, Copy, PartialEq, Eq, Structural)]
pub enum RegexRep {
    /// Exactly `n` times.
    Exact(usize),
    /// Zero or more times, greedily, giving back one match at a time.
    Any,
    /// Between `min` and `max` times, greedily; a missing bound is no bound.
    Range { min: Option<usize>, max: Option<usize> },
}

} // verus!
