//! The pattern language: what program a pattern compiles to, or which error.
use vstd::prelude::*;

use super::regex_class::{class_named, is_digit};
use super::regex_error::RegexError;
use super::regex_rep::RegexRep;
use super::regex_val::RegexValView;
use super::RegexStepView;

verus! {

/// A matching step with no anchor flag.
pub open spec fn plain(val: RegexValView, rep: RegexRep) -> RegexStepView {
    RegexStepView { val, rep, anchoring_start: false, anchoring_end: false }
}

/// A step that matches its atom once.
pub open spec fn once(val: RegexValView) -> RegexStepView {
    plain(val, RegexRep::Exact(1))
}

/// The zero-or-more wildcard that `$` puts in front of the program.
pub open spec fn end_filler() -> RegexStepView {
    plain(RegexValView::Wildcard, RegexRep::Any)
}

/// The sentinel that ends a program whose pattern holds `$`.
pub open spec fn end_anchor() -> RegexStepView {
    RegexStepView {
        val: RegexValView::Wildcard,
        rep: RegexRep::Any,
        anchoring_start: false,
        anchoring_end: true,
    }
}

/// The sentinel that ends a program whose pattern holds `^`.
pub open spec fn start_anchor() -> RegexStepView {
    RegexStepView {
        val: RegexValView::Wildcard,
        rep: RegexRep::Any,
        anchoring_start: true,
        anchoring_end: false,
    }
}

/// A quantifier: sets the repetition of the last step, or, with no step yet,
/// adds a wildcard step with that repetition.
pub open spec fn requantify(steps: Seq<RegexStepView>, rep: RegexRep) -> Seq<RegexStepView> {
    if steps.len() == 0 {
        seq![plain(RegexValView::Wildcard, rep)]
    } else {
        let last = steps.last();
        steps.update(
            steps.len() - 1,
            RegexStepView {
                val: last.val,
                rep,
                anchoring_start: last.anchoring_start,
                anchoring_end: last.anchoring_end,
            },
        )
    }
}

pub open spec fn digit_value(c: char) -> nat {
    ((c as u32) - ('0' as u32)) as nat
}

/// Reads the inside of `{...}` from position `i`: ASCII digits, at most one comma,
/// then `}`. `min` is the bound read before the comma, `count` the number being
/// read, `digits` whether it has any digit. A bound that does not fit in `usize`
/// is an invalid range. Yields the repetition and the position after `}`.
pub open spec fn braces(
    p: Seq<char>,
    i: int,
    comma: bool,
    min: Option<usize>,
    count: nat,
    digits: bool,
) -> Result<(RegexRep, int), RegexError>
    decreases p.len() - i,
{
    if i < 0 || i >= p.len() {
        Err(RegexError::InvalidRange)
    } else {
        let c = p[i];
        if is_digit(c) {
            let v = count * 10 + digit_value(c);
            if v > usize::MAX {
                Err(RegexError::InvalidRange)
            } else {
                braces(p, i + 1, comma, min, v, true)
            }
        } else if c == ',' {
            if comma {
                Err(RegexError::InvalidRange)
            } else {
                braces(
                    p,
                    i + 1,
                    true,
                    if digits {
                        Some(count as usize)
                    } else {
                        None
                    },
                    0,
                    false,
                )
            }
        } else if c == '}' {
            let rep = if !comma {
                RegexRep::Exact(count as usize)
            } else {
                RegexRep::Range {
                    min,
                    max: if digits {
                        Some(count as usize)
                    } else {
                        None
                    },
                }
            };
            Ok((rep, i + 1))
        } else {
            Err(RegexError::InvalidRange)
        }
    }
}

/// Reads the characters of a bracket expression from position `i` up to the
/// closing `]`, a backslash taking the next character literally. Yields the
/// characters after `acc` and the position after `]`.
pub open spec fn bracket_set(p: Seq<char>, i: int, acc: Seq<char>) -> Result<(Seq<char>, int), RegexError>
    decreases p.len() - i,
{
    if i < 0 || i >= p.len() {
        Err(RegexError::InvalidBracket)
    } else if p[i] == ']' {
        Ok((acc, i + 1))
    } else if p[i] == '\\' {
        if i + 1 >= p.len() {
            Err(RegexError::InvalidBackslash)
        } else {
            bracket_set(p, i + 2, acc.push(p[i + 1]))
        }
    } else {
        bracket_set(p, i + 1, acc.push(p[i]))
    }
}

/// The position of the first `:]` at or after `j`.
pub open spec fn class_end(p: Seq<char>, j: int) -> Option<int>
    decreases p.len() - j,
{
    if j < 0 || j + 1 >= p.len() {
        None
    } else if p[j] == ':' && p[j + 1] == ']' {
        Some(j)
    } else {
        class_end(p, j + 1)
    }
}

/// Reads a bracket expression whose `[` stands just before position `i`:
/// `[^...]`, `[[:name:]]` or `[...]`. Yields the atom and the position after it.
pub open spec fn bracket(p: Seq<char>, i: int) -> Result<(RegexValView, int), RegexError> {
    if i < 0 || i >= p.len() {
        Err(RegexError::InvalidBracket)
    } else if p[i] == '^' {
        match bracket_set(p, i + 1, seq![]) {
            Ok((s, j)) => Ok((RegexValView::NotBracket(s), j)),
            Err(e) => Err(e),
        }
    } else if p[i] == '[' && i + 1 < p.len() && p[i + 1] == ':' {
        match class_end(p, i + 2) {
            None => Err(RegexError::InvalidClass),
            Some(e) => match class_named(p.subrange(i + 2, e)) {
                None => Err(RegexError::InvalidClass),
                Some(k) => match bracket_set(p, e + 2, seq![]) {
                    Ok((_, j)) => Ok((RegexValView::Class(k), j)),
                    Err(err) => Err(err),
                },
            },
        }
    } else if p[i] == '\\' {
        if i + 1 >= p.len() {
            Err(RegexError::InvalidBackslash)
        } else {
            match bracket_set(p, i + 2, seq![p[i + 1]]) {
                Ok((s, j)) => Ok((RegexValView::Bracket(s), j)),
                Err(e) => Err(e),
            }
        }
    } else {
        match bracket_set(p, i + 1, seq![p[i]]) {
            Ok((s, j)) => Ok((RegexValView::Bracket(s), j)),
            Err(e) => Err(e),
        }
    }
}

pub proof fn lemma_braces_advances(
    p: Seq<char>,
    i: int,
    comma: bool,
    min: Option<usize>,
    count: nat,
    digits: bool,
)
    ensures
        braces(p, i, comma, min, count, digits) matches Ok((_, j)) ==> i < j <= p.len(),
    decreases p.len() - i,
{
    if 0 <= i < p.len() {
        let c = p[i];
        if is_digit(c) {
            lemma_braces_advances(p, i + 1, comma, min, count * 10 + digit_value(c), true);
        } else if c == ',' && !comma {
            lemma_braces_advances(
                p,
                i + 1,
                true,
                if digits {
                    Some(count as usize)
                } else {
                    None
                },
                0,
                false,
            );
        }
    }
}

pub proof fn lemma_bracket_set_advances(p: Seq<char>, i: int, acc: Seq<char>)
    ensures
        bracket_set(p, i, acc) matches Ok((_, j)) ==> i < j <= p.len(),
    decreases p.len() - i,
{
    if 0 <= i < p.len() && p[i] != ']' {
        if p[i] == '\\' {
            if i + 1 < p.len() {
                lemma_bracket_set_advances(p, i + 2, acc.push(p[i + 1]));
            }
        } else {
            lemma_bracket_set_advances(p, i + 1, acc.push(p[i]));
        }
    }
}

pub proof fn lemma_class_end_bounds(p: Seq<char>, j: int)
    ensures
        class_end(p, j) matches Some(e) ==> j <= e && e + 1 < p.len(),
    decreases p.len() - j,
{
    if 0 <= j && j + 1 < p.len() && !(p[j] == ':' && p[j + 1] == ']') {
        lemma_class_end_bounds(p, j + 1);
    }
}

pub proof fn lemma_bracket_advances(p: Seq<char>, i: int)
    ensures
        bracket(p, i) matches Ok((_, j)) ==> i < j <= p.len(),
{
    if 0 <= i < p.len() {
        lemma_bracket_set_advances(p, i + 1, seq![]);
        lemma_bracket_set_advances(p, i + 2, seq![]);
        lemma_bracket_set_advances(p, i + 1, seq![p[i]]);
        if i + 1 < p.len() {
            lemma_bracket_set_advances(p, i + 2, seq![p[i + 1]]);
        }
        lemma_class_end_bounds(p, i + 2);
        if let Some(e) = class_end(p, i + 2) {
            lemma_bracket_set_advances(p, e + 2, seq![]);
        }
    }
}

/// Compiles the pattern from position `i` on, with `steps` compiled so far,
/// `anchored` telling whether a `^` was seen and `ended` whether a `$` was. Only the
/// first `$` places the end sentinel, so a program has at most one.
pub open spec fn compile_from(
    p: Seq<char>,
    i: int,
    steps: Seq<RegexStepView>,
    anchored: bool,
    ended: bool,
) -> Result<
    Seq<RegexStepView>,
    RegexError,
>
    decreases p.len() - i,
{
    if i < 0 || i >= p.len() {
        Ok(
            if anchored {
                steps.push(start_anchor())
            } else {
                steps
            },
        )
    } else {
        let c = p[i];
        proof {
            lemma_braces_advances(p, i + 1, false, None, 0, false);
            lemma_bracket_advances(p, i + 1);
        }
        if c == '.' {
            compile_from(p, i + 1, steps.push(once(RegexValView::Wildcard)), anchored, ended)
        } else if c == '*' {
            compile_from(p, i + 1, requantify(steps, RegexRep::Any), anchored, ended)
        } else if c == '?' {
            compile_from(
                p,
                i + 1,
                requantify(steps, RegexRep::Range { min: Some(0), max: Some(1) }),
                anchored,
                ended,
            )
        } else if c == '+' {
            compile_from(
                p,
                i + 1,
                requantify(steps, RegexRep::Range { min: Some(1), max: None }),
                anchored,
                ended,
            )
        } else if c == '{' {
            if steps.len() == 0 {
                compile_from(p, i + 1, steps, anchored, ended)
            } else {
                match braces(p, i + 1, false, None, 0, false) {
                    Err(e) => Err(e),
                    Ok((rep, j)) => compile_from(p, j, requantify(steps, rep), anchored, ended),
                }
            }
        } else if c == '^' {
            compile_from(p, i + 1, steps, true, ended)
        } else if c == '$' {
            if ended {
                compile_from(p, i + 1, steps, anchored, true)
            } else {
                compile_from(p, i + 1, seq![end_filler()] + steps.push(end_anchor()), anchored, true)
            }
        } else if c == '[' {
            match bracket(p, i + 1) {
                Err(e) => Err(e),
                Ok((v, j)) => compile_from(p, j, steps.push(once(v)), anchored, ended),
            }
        } else if c == '\\' {
            if i + 1 >= p.len() {
                Err(RegexError::InvalidBackslash)
            } else {
                compile_from(p, i + 2, steps.push(once(RegexValView::Literal(p[i + 1]))), anchored, ended)
            }
        } else {
            compile_from(p, i + 1, steps.push(once(RegexValView::Literal(c))), anchored, ended)
        }
    }
}

/// The program that a pattern compiles to, or the error that rejects it.
pub open spec fn compile_spec(p: Seq<char>) -> Result<Seq<RegexStepView>, RegexError> {
    compile_from(p, 0, seq![], false, false)
}

} // verus!
