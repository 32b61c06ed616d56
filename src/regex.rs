//! The pattern engine: a one-pass compiler from a pattern to a program of steps, and
//! an evaluator that runs a program on a line with a queue of steps and a
//! backtracking stack.
pub mod grammar;
pub mod machine;
pub mod regex_class;
pub mod regex_error;
pub mod regex_rep;
pub mod regex_val;

use vstd::prelude::*;

use std::collections::VecDeque;

use crate::text::{chars_of, string_from_chars};
use grammar::{
    braces, bracket, bracket_set, class_end, compile_from, compile_spec, digit_value, end_anchor,
    end_filler, lemma_braces_advances, lemma_bracket_advances, once, plain, requantify,
    start_anchor,
};
use machine::{
    accepts_at, any_frames, backtrack_spec, choice_points, consumed, full_queue, greedy, held,
    lemma_any_frames_measures, lemma_backtrack_measures, lemma_push_measures, matches_from,
    matches_line, matches_some_column, run, run_of, steps_of,
};
use regex_class::determinate_regex_class;
use regex_error::RegexError;
use regex_rep::RegexRep;
use regex_val::{RegexVal, RegexValView};

verus! {

/// One step of a program: an atom, how often to match it, and whether the step is
/// an anchor sentinel rather than a matching step.
#[derive(Debug, Clone)]
pub struct RegexStep {
    pub val: RegexVal,
    pub rep: RegexRep,
    pub anchoring_start: bool,
    pub anchoring_end: bool,
}

/// The mathematical value of a `RegexStep`.
pub struct RegexStepView {
    pub val: RegexValView,
    pub rep: RegexRep,
    pub anchoring_start: bool,
    pub anchoring_end: bool,
}

impl View for RegexStep {
    type V = RegexStepView;

    open spec fn view(&self) -> RegexStepView {
        RegexStepView {
            val: self.val@,
            rep: self.rep,
            anchoring_start: self.anchoring_start,
            anchoring_end: self.anchoring_end,
        }
    }
}

/// A frame of the backtracking stack: which step of the program matched, how many
/// positions it consumed, and whether it may give them back.
#[derive(Debug, Clone, Copy)]
pub struct EvaluatedStep {
    pub step: usize,
    pub match_size: usize,
    pub backtrackable: bool,
}

/// The views of a sequence of steps.
pub open spec fn step_views(v: Seq<RegexStep>) -> Seq<RegexStepView> {
    v.map_values(|s: RegexStep| s@)
}

/// A compiled pattern: its steps in order.
#[derive(Debug, Clone)]
pub struct Regex {
    pub steps: Vec<RegexStep>,
}

impl View for Regex {
    type V = Seq<RegexStepView>;

    open spec fn view(&self) -> Seq<RegexStepView> {
        step_views(self.steps@)
    }
}

impl<'a> TryFrom<&'a str> for Regex {
    type Error = &'static str;

    /// Compiles a pattern; see `Regex::new`.
    fn try_from(expression: &'a str) -> Result<Regex, &'static str> {
        Regex::new(expression)
    }
}

impl<'a> vstd::std_specs::convert::TryFromSpecImpl<&'a str> for Regex {
    open spec fn obeys_try_from_spec() -> bool {
        false
    }

    open spec fn try_from_spec(expression: &'a str) -> Result<Regex, &'static str> {
        arbitrary()
    }
}

/// The outcome of evaluating one line.
#[derive(Debug, Clone)]
pub struct LineEvaluated {
    pub result: bool,
    pub line: String,
}

fn new_step(val: RegexVal, rep: RegexRep) -> (r: RegexStep)
    ensures
        r@ == plain(val@, rep),
{
    RegexStep { val, rep, anchoring_start: false, anchoring_end: false }
}

/// `.`: a wildcard step.
fn point_char() -> (r: Option<RegexStep>)
    ensures
        r matches Some(s) && s@ == once(RegexValView::Wildcard),
{
    Some(new_step(RegexVal::Wildcard, RegexRep::Exact(1)))
}

/// Sets the repetition of the last step; with no step yet, returns a wildcard
/// step with that repetition.
fn quantify(steps: &mut Vec<RegexStep>, rep: RegexRep) -> (r: Option<RegexStep>)
    ensures
        match r {
            Some(s) => old(steps)@.len() == 0 && final(steps)@.len() == 0 && seq![s@]
                == requantify(step_views(old(steps)@), rep),
            None => step_views(final(steps)@) == requantify(step_views(old(steps)@), rep),
        },
{
    match steps.pop() {
        None => Some(new_step(RegexVal::Wildcard, rep)),
        Some(mut last) => {
            last.rep = rep;
            steps.push(last);
            assert(step_views(final(steps)@) =~= requantify(step_views(old(steps)@), rep));
            None
        },
    }
}

/// `*`: zero or more of the preceding step.
fn wildcard_char(steps: &mut Vec<RegexStep>) -> (r: Option<RegexStep>)
    ensures
        match r {
            Some(s) => old(steps)@.len() == 0 && final(steps)@.len() == 0 && seq![s@]
                == requantify(step_views(old(steps)@), RegexRep::Any),
            None => step_views(final(steps)@) == requantify(step_views(old(steps)@), RegexRep::Any),
        },
{
    quantify(steps, RegexRep::Any)
}

/// `?`: zero or one of the preceding step.
fn option_char(steps: &mut Vec<RegexStep>) -> (r: Option<RegexStep>)
    ensures
        match r {
            Some(s) => old(steps)@.len() == 0 && final(steps)@.len() == 0 && seq![s@]
                == requantify(step_views(old(steps)@), RegexRep::Range { min: Some(0), max: Some(1) }),
            None => step_views(final(steps)@) == requantify(
                step_views(old(steps)@),
                RegexRep::Range { min: Some(0), max: Some(1) },
            ),
        },
{
    quantify(steps, RegexRep::Range { min: Some(0), max: Some(1) })
}

/// `+`: one or more of the preceding step.
fn option_one_or_more_char(steps: &mut Vec<RegexStep>) -> (r: Option<RegexStep>)
    ensures
        match r {
            Some(s) => old(steps)@.len() == 0 && final(steps)@.len() == 0 && seq![s@]
                == requantify(step_views(old(steps)@), RegexRep::Range { min: Some(1), max: None }),
            None => step_views(final(steps)@) == requantify(
                step_views(old(steps)@),
                RegexRep::Range { min: Some(1), max: None },
            ),
        },
{
    quantify(steps, RegexRep::Range { min: Some(1), max: None })
}

/// `{...}`: the repetition bounds of the preceding step, read from `pos`, just
/// after `{`. With no preceding step nothing is read.
fn repetition_char(steps: &mut Vec<RegexStep>, chars: &Vec<char>, pos: &mut usize) -> (r: Result<
    Option<RegexStep>,
    RegexError,
>)
    requires
        *old(pos) <= chars.len(),
    ensures
        old(steps)@.len() == 0 ==> r == Ok::<Option<RegexStep>, RegexError>(None) && final(steps)@
            == old(steps)@ && *final(pos) == *old(pos),
        r is Err ==> final(steps)@ == old(steps)@,
        old(steps)@.len() > 0 ==> match braces(chars@, *old(pos) as int, false, None, 0, false) {
            Err(e) => r == Err::<Option<RegexStep>, RegexError>(e),
            Ok((rep, j)) => r == Ok::<Option<RegexStep>, RegexError>(None) && *final(pos) == j
                && step_views(final(steps)@) == requantify(step_views(old(steps)@), rep),
        },
{
    if steps.len() == 0 {
        return Ok(None);
    }
    let ghost p = chars@;
    let ghost start = *pos as int;
    let mut min: Option<usize> = None;
    let mut count: usize = 0;
    let mut is_comma = false;
    let mut digits = false;
    while *pos < chars.len()
        invariant
            p == chars@,
            start == *old(pos) as int,
            *pos <= chars.len(),
            old(steps)@.len() > 0,
            steps@ == old(steps)@,
            braces(p, start, false, None, 0, false) == braces(
                p,
                *pos as int,
                is_comma,
                min,
                count as nat,
                digits,
            ),
        decreases chars.len() - *pos,
    {
        let c = chars[*pos];
        *pos = *pos + 1;
        if '0' <= c && c <= '9' {
            let d = (c as u32 - '0' as u32) as usize;
            assert(d == digit_value(c));
            if count > (usize::MAX - d) / 10 {
                assert(count * 10 + d > usize::MAX) by (nonlinear_arith)
                    requires
                        count > (usize::MAX - d) / 10,
                        d <= 9,
                ;
                return Err(RegexError::InvalidRange);
            }
            assert(count * 10 + d <= usize::MAX) by (nonlinear_arith)
                requires
                    count <= (usize::MAX - d) / 10,
                    d <= 9,
            ;
            count = count * 10 + d;
            digits = true;
        } else if c == ',' {
            if is_comma {
                return Err(RegexError::InvalidRange);
            }
            is_comma = true;
            min = if digits {
                Some(count)
            } else {
                None
            };
            count = 0;
            digits = false;
        } else if c == '}' {
            let rep = if !is_comma {
                RegexRep::Exact(count)
            } else {
                RegexRep::Range {
                    min,
                    max: if digits {
                        Some(count)
                    } else {
                        None
                    },
                }
            };
            let r = quantify(steps, rep);
            assert(r is None);
            return Ok(None);
        } else {
            return Err(RegexError::InvalidRange);
        }
    }
    Err(RegexError::InvalidRange)
}

/// `^`: the match must begin at the start of the line.
fn anchor_start_char(anchoring_start: &mut bool) -> (r: Option<RegexStep>)
    ensures
        *final(anchoring_start),
        r is None,
{
    *anchoring_start = true;
    None
}

/// `$`: the first one puts a zero-or-more wildcard in front of the program and
/// returns the sentinel that checks the end of the line; a later one does nothing.
fn anchor_end_char(steps: &mut Vec<RegexStep>, anchoring_end: &mut bool) -> (r: Option<RegexStep>)
    ensures
        *final(anchoring_end),
        *old(anchoring_end) ==> r is None && final(steps)@ == old(steps)@,
        !*old(anchoring_end) ==> (r matches Some(s) && seq![end_filler()] + step_views(
            old(steps)@,
        ).push(end_anchor()) == step_views(final(steps)@).push(s@)),
{
    if *anchoring_end {
        return None;
    }
    *anchoring_end = true;
    steps.insert(0, new_step(RegexVal::Wildcard, RegexRep::Any));
    let s = RegexStep {
        val: RegexVal::Wildcard,
        rep: RegexRep::Any,
        anchoring_start: false,
        anchoring_end: true,
    };
    assert(seq![end_filler()] + step_views(old(steps)@).push(end_anchor()) =~= step_views(
        steps@,
    ).push(s@));
    Some(s)
}

/// Reads bracket characters from `pos` up to and past the closing `]`, adding them
/// to `set`.
fn read_bracket_set(chars: &Vec<char>, pos: &mut usize, set: &mut Vec<char>) -> (r: Result<
    (),
    RegexError,
>)
    requires
        *old(pos) <= chars.len(),
    ensures
        match bracket_set(chars@, *old(pos) as int, old(set)@) {
            Err(e) => r == Err::<(), RegexError>(e),
            Ok((s, j)) => r is Ok && final(set)@ == s && *final(pos) == j,
        },
{
    let ghost goal = bracket_set(chars@, *old(pos) as int, old(set)@);
    while *pos < chars.len()
        invariant
            goal == bracket_set(chars@, *old(pos) as int, old(set)@),
            *pos <= chars.len(),
            goal == bracket_set(chars@, *pos as int, set@),
        decreases chars.len() - *pos,
    {
        let c = chars[*pos];
        *pos = *pos + 1;
        if c == ']' {
            return Ok(());
        } else if c == '\\' {
            if *pos == chars.len() {
                return Err(RegexError::InvalidBackslash);
            }
            set.push(chars[*pos]);
            *pos = *pos + 1;
        } else {
            set.push(c);
        }
    }
    Err(RegexError::InvalidBracket)
}

/// `[...]`: a bracket expression, read from `pos`, just after `[`.
fn bracket_char(chars: &Vec<char>, pos: &mut usize) -> (r: Result<Option<RegexStep>, RegexError>)
    requires
        *old(pos) <= chars.len(),
    ensures
        match bracket(chars@, *old(pos) as int) {
            Err(e) => r == Err::<Option<RegexStep>, RegexError>(e),
            Ok((v, j)) => r matches Ok(Some(s)) && s@ == once(v) && *final(pos) == j,
        },
{
    let ghost p = chars@;
    let ghost i = *pos as int;
    if *pos == chars.len() {
        return Err(RegexError::InvalidBracket);
    }
    let first = chars[*pos];
    *pos = *pos + 1;
    let mut set: Vec<char> = Vec::new();
    if first == '^' {
        read_bracket_set(chars, pos, &mut set)?;
        return Ok(Some(new_step(RegexVal::NotBracket(set), RegexRep::Exact(1))));
    }
    if first == '[' && *pos < chars.len() && chars[*pos] == ':' {
        let start = *pos + 1;
        let mut e = start;
        while chars.len() - e > 1 && !(chars[e] == ':' && chars[e + 1] == ']')
            invariant
                start <= e <= chars.len(),
                start == i + 2,
                p == chars@,
                class_end(p, start as int) == class_end(p, e as int),
            decreases chars.len() - e,
        {
            e = e + 1;
        }
        if chars.len() - e <= 1 {
            return Err(RegexError::InvalidClass);
        }
        let mut name: Vec<char> = Vec::new();
        let mut j = start;
        while j < e
            invariant
                start <= j <= e,
                e < chars.len(),
                name@ == p.subrange(start as int, j as int),
                p == chars@,
            decreases e - j,
        {
            name.push(chars[j]);
            assert(name@ =~= p.subrange(start as int, j + 1));
            j = j + 1;
        }
        let class = match determinate_regex_class(string_from_chars(name.as_slice())) {
            Ok(class) => class,
            Err(_) => return Err(RegexError::InvalidClass),
        };
        *pos = e + 2;
        read_bracket_set(chars, pos, &mut set)?;
        return Ok(Some(new_step(RegexVal::Class(class), RegexRep::Exact(1))));
    }
    if first == '\\' {
        if *pos == chars.len() {
            return Err(RegexError::InvalidBackslash);
        }
        set.push(chars[*pos]);
        *pos = *pos + 1;
    } else {
        set.push(first);
    }
    read_bracket_set(chars, pos, &mut set)?;
    Ok(Some(new_step(RegexVal::Bracket(set), RegexRep::Exact(1))))
}

/// `\`: the next character of the pattern, at `pos`, taken literally.
fn escape_char(chars: &Vec<char>, pos: &mut usize) -> (r: Result<Option<RegexStep>, RegexError>)
    requires
        *old(pos) <= chars.len(),
    ensures
        *old(pos) == chars.len() ==> r == Err::<Option<RegexStep>, RegexError>(
            RegexError::InvalidBackslash,
        ),
        *old(pos) < chars.len() ==> (r matches Ok(Some(s)) && s@ == once(
            RegexValView::Literal(chars@[*old(pos) as int]),
        ) && *final(pos) == *old(pos) + 1),
{
    if *pos == chars.len() {
        return Err(RegexError::InvalidBackslash);
    }
    let literal = chars[*pos];
    *pos = *pos + 1;
    Ok(Some(new_step(RegexVal::Literal(literal), RegexRep::Exact(1))))
}

/// Any other character: a literal step.
fn regular_char(c: char) -> (r: Option<RegexStep>)
    ensures
        r matches Some(s) && s@ == once(RegexValView::Literal(c)),
{
    Some(new_step(RegexVal::Literal(c), RegexRep::Exact(1)))
}

/// Whether the atom matches each of the `n` characters of `line` from `index` on.
fn run_matches(val: &RegexVal, line: &Vec<char>, index: usize, n: usize) -> (r: bool)
    requires
        index <= line.len(),
    ensures
        r == run_of(val@, line@, index as int, n as nat),
        r ==> index + n <= line.len(),
{
    if n > line.len() - index {
        assert(!accepts_at(val@, line@, index + n - 1));
        return false;
    }
    let mut i: usize = 0;
    while i < n
        invariant
            i <= n,
            index + n <= line.len(),
            run_of(val@, line@, index as int, i as nat),
        decreases n - i,
    {
        if !val.accepts(line[index + i]) {
            assert(!accepts_at(val@, line@, index + i));
            return false;
        }
        i = i + 1;
    }
    true
}

/// Counts the characters from `index` on that the atom matches, as many as it can
/// but no more than `cap`.
fn count_greedy(val: &RegexVal, line: &Vec<char>, index: usize, cap: Option<usize>) -> (m: usize)
    requires
        index <= line.len(),
    ensures
        m == greedy(
            val@,
            line@,
            index as int,
            match cap {
                Some(c) => Some(c as nat),
                None => None,
            },
        ),
        index + m <= line.len(),
{
    let ghost spec_cap = match cap {
        Some(c) => Some(c as nat),
        None => None::<nat>,
    };
    let mut m: usize = 0;
    loop
        invariant
            spec_cap == match cap {
                Some(c) => Some(c as nat),
                None => None::<nat>,
            },
            index + m <= line.len(),
            cap matches Some(c) ==> m <= c,
            greedy(val@, line@, index as int, spec_cap) == m + greedy(
                val@,
                line@,
                index + m,
                match cap {
                    Some(c) => Some((c - m) as nat),
                    None => None,
                },
            ),
        decreases line.len() - index - m,
    {
        let room = match cap {
            Some(c) => m < c,
            None => true,
        };
        let ghost rest_cap = match cap {
            Some(c) => Some((c - m) as nat),
            None => None::<nat>,
        };
        if !room || index + m == line.len() || !val.accepts(line[index + m]) {
            assert(greedy(val@, line@, index + m, rest_cap) == 0);
            return m;
        }
        assert(greedy(val@, line@, index + m, rest_cap) == 1 + greedy(
            val@,
            line@,
            index + m + 1,
            match cap {
                Some(c) => Some((c - (m + 1)) as nat),
                None => None,
            },
        ));
        m = m + 1;
    }
}

/// Gives `current` back to the front of the queue, then pops frames until one that
/// can give back its width, returning the others to the front of the queue. Returns
/// the total width popped, or `None` when no frame can give any back.
fn backtrack(current: usize, evaluated: &mut Vec<EvaluatedStep>, next: &mut VecDeque<usize>) -> (r:
    Option<usize>)
    requires
        consumed(old(evaluated)@) <= usize::MAX,
    ensures
        match backtrack_spec(old(evaluated)@, seq![current] + old(next)@, 0) {
            None => r is None && final(evaluated)@.len() == 0 && final(next)@ == steps_of(
                old(evaluated)@,
            ) + seq![current] + old(next)@,
            Some((b, st, q)) => r == Some(b as usize) && final(evaluated)@ == st && final(next)@
                == q,
        },
{
    let ghost stack0 = evaluated@;
    let ghost queue0 = seq![current] + next@;
    let mut back_size: usize = 0;
    next.push_front(current);
    loop
        invariant
            stack0 == old(evaluated)@,
            queue0 == seq![current] + old(next)@,
            evaluated@ == stack0.take(evaluated@.len() as int),
            evaluated@.len() <= stack0.len(),
            next@ == steps_of(stack0.skip(evaluated@.len() as int)) + queue0,
            backtrack_spec(stack0, queue0, 0) == backtrack_spec(
                evaluated@,
                next@,
                back_size as nat,
            ),
            back_size + consumed(evaluated@) == consumed(stack0),
            consumed(stack0) <= usize::MAX,
        decreases evaluated@.len(),
    {
        let ghost before = evaluated@;
        let e = match evaluated.pop() {
            None => {
                assert(backtrack_spec(before, next@, back_size as nat) is None);
                assert(stack0.skip(0) =~= stack0);
                assert(steps_of(stack0) + queue0 =~= steps_of(stack0) + seq![current] + old(
                    next,
                )@);
                return None;
            },
            Some(e) => e,
        };
        proof {
            assert(before.drop_last() == evaluated@ && before.last() == e);
            assert(evaluated@.push(e) =~= before);
            lemma_push_measures(evaluated@, e);
        }
        back_size = back_size + e.match_size;
        if e.backtrackable {
            return Some(back_size);
        }
        let ghost k = evaluated@.len() as int;
        assert(stack0.take(k) =~= evaluated@);
        assert(stack0.skip(k) =~= seq![e] + stack0.skip(k + 1));
        assert(steps_of(seq![e] + stack0.skip(k + 1)) =~= seq![e.step] + steps_of(
            stack0.skip(k + 1),
        ));
        next.push_front(e.step);
        assert(next@ =~= steps_of(stack0.skip(k)) + queue0);
    }
}

impl Regex {
    /// Compiles a pattern into a program, in one pass over its characters.
    pub fn compile(expression: &str) -> (r: Result<Regex, RegexError>)
        ensures
            match compile_spec(expression@) {
                Ok(prog) => r matches Ok(re) && re@ == prog,
                Err(e) => r matches Err(f) && f == e,
            },
    {
        Regex::compile_chars(&chars_of(expression))
    }

    /// Compiles a pattern given as characters.
    pub fn compile_chars(chars: &Vec<char>) -> (r: Result<Regex, RegexError>)
        ensures
            match compile_spec(chars@) {
                Ok(prog) => r matches Ok(re) && re@ == prog,
                Err(e) => r matches Err(f) && f == e,
            },
    {
        let ghost expression = chars@;
        let mut steps: Vec<RegexStep> = Vec::new();
        let mut anchoring_start = false;
        let mut anchoring_end = false;
        let mut pos: usize = 0;
        assert(step_views(steps@) =~= seq![]);
        while pos < chars.len()
            invariant
                pos <= chars.len(),
                chars@ == expression,
                compile_from(
                    chars@,
                    pos as int,
                    step_views(steps@),
                    anchoring_start,
                    anchoring_end,
                ) == compile_spec(
                    expression,
                ),
            decreases chars.len() - pos,
        {
            let ghost p = chars@;
            let ghost i = pos as int;
            let ghost before = step_views(steps@);
            let ghost anch = anchoring_start;
            let c = chars[pos];
            pos = pos + 1;
            proof {
                lemma_braces_advances(p, i + 1, false, None, 0, false);
                lemma_bracket_advances(p, i + 1);
            }
            let step = if c == '.' {
                point_char()
            } else if c == '*' {
                wildcard_char(&mut steps)
            } else if c == '?' {
                option_char(&mut steps)
            } else if c == '+' {
                option_one_or_more_char(&mut steps)
            } else if c == '{' {
                match repetition_char(&mut steps, &chars, &mut pos) {
                    Ok(s) => s,
                    Err(e) => return Err(e),
                }
            } else if c == '^' {
                anchor_start_char(&mut anchoring_start)
            } else if c == '$' {
                anchor_end_char(&mut steps, &mut anchoring_end)
            } else if c == '[' {
                match bracket_char(&chars, &mut pos) {
                    Ok(s) => s,
                    Err(e) => return Err(e),
                }
            } else if c == '\\' {
                match escape_char(&chars, &mut pos) {
                    Ok(s) => s,
                    Err(e) => return Err(e),
                }
            } else {
                regular_char(c)
            };
            match step {
                Some(s) => {
                    let ghost mid = steps@;
                    steps.push(s);
                    assert(step_views(steps@) =~= step_views(mid).push(s@));
                    proof {
                        if mid.len() == 0 {
                            assert(step_views(steps@) =~= seq![s@]);
                        }
                    }
                },
                None => {},
            }
        }
        if anchoring_start {
            let ghost mid = steps@;
            let s = RegexStep {
                val: RegexVal::Wildcard,
                rep: RegexRep::Any,
                anchoring_start: true,
                anchoring_end: false,
            };
            steps.push(s);
            assert(step_views(steps@) =~= step_views(mid).push(start_anchor()));
        }
        Ok(Regex { steps })
    }

    /// Given a pattern, returns the program it compiles to, or the message of the
    /// error that rejects it.
    pub fn new(expression: &str) -> (r: Result<Self, &'static str>)
        ensures
            match compile_spec(expression@) {
                Ok(prog) => r matches Ok(re) && re@ == prog,
                Err(e) => r matches Err(m) && m@ == e.text(),
            },
    {
        match Regex::compile(expression) {
            Ok(re) => Ok(re),
            Err(e) => Err(e.message()),
        }
    }

    /// Runs the program from start column `column`.
    fn match_from(&self, line: &Vec<char>, column: usize) -> (r: bool)
        requires
            column <= line.len(),
        ensures
            r == matches_from(self@, line@, column as int),
    {
        let ghost prog = self@;
        let mut queue: VecDeque<usize> = VecDeque::new();
        let mut i: usize = 0;
        while i < self.steps.len()
            invariant
                i <= self.steps.len(),
                queue@ == full_queue(i as nat),
            decreases self.steps.len() - i,
        {
            queue.push_back(i);
            assert(queue@ =~= full_queue((i + 1) as nat));
            i = i + 1;
        }
        assert(prog.len() == self.steps.len());
        let mut stack: Vec<EvaluatedStep> = Vec::new();
        let mut index: usize = column;
        loop
            invariant
                prog == self@,
                prog.len() == self.steps.len(),
                run(prog, line@, queue@, stack@, index as int) == matches_from(
                    prog,
                    line@,
                    column as int,
                ),
                index == column + consumed(stack@),
                index <= line.len(),
            decreases queue@.len() + held(stack@), choice_points(stack@), queue@.len(),
        {
            let ghost q0 = queue@;
            let ghost st0 = stack@;
            let si = match queue.pop_front() {
                None => return false,
                Some(si) => si,
            };
            if si >= self.steps.len() {
                return false;
            }
            let step = &self.steps[si];
            assert(prog[si as int] == step@);
            assert(seq![si] + queue@ =~= q0);
            proof {
                lemma_backtrack_measures(st0, q0, 0);
            }
            if step.anchoring_start {
                return column == 0;
            }
            if step.anchoring_end {
                return index == line.len();
            }
            match step.rep {
                RegexRep::Exact(n) => {
                    if run_matches(&step.val, line, index, n) {
                        if queue.len() == 0 {
                            return true;
                        }
                        let f = EvaluatedStep { step: si, match_size: n, backtrackable: false };
                        proof {
                            lemma_push_measures(st0, f);
                        }
                        stack.push(f);
                        index = index + n;
                    } else {
                        match backtrack(si, &mut stack, &mut queue) {
                            None => return false,
                            Some(b) => {
                                index = index - b;
                            },
                        }
                    }
                },
                RegexRep::Any => {
                    let m = count_greedy(&step.val, line, index, None);
                    if queue.len() == 0 {
                        return true;
                    }
                    let mut j: usize = 0;
                    while j < m
                        invariant
                            j <= m,
                            stack@ == st0 + any_frames(si, j as nat),
                        decreases m - j,
                    {
                        stack.push(EvaluatedStep { step: si, match_size: 1, backtrackable: true });
                        assert(stack@ =~= st0 + any_frames(si, (j + 1) as nat));
                        j = j + 1;
                    }
                    proof {
                        lemma_any_frames_measures(st0, si, m as nat);
                    }
                    index = index + m;
                },
                RegexRep::Range { min, max } => {
                    let m = count_greedy(&step.val, line, index, max);
                    let short = match min {
                        Some(lo) => m < lo,
                        None => false,
                    };
                    if short {
                        match backtrack(si, &mut stack, &mut queue) {
                            None => return false,
                            Some(b) => {
                                index = index - b;
                            },
                        }
                    } else {
                        if queue.len() == 0 {
                            return true;
                        }
                        let slack = match min {
                            Some(lo) => lo == 0,
                            None => false,
                        } || match max {
                            Some(hi) => m < hi,
                            None => false,
                        };
                        let f = EvaluatedStep { step: si, match_size: m, backtrackable: slack };
                        proof {
                            lemma_push_measures(st0, f);
                        }
                        stack.push(f);
                        index = index + m;
                    }
                },
            }
        }
    }

    /// Tries each start column of the line in turn.
    fn evaluate_step(&self, line: &Vec<char>) -> (r: bool)
        ensures
            r == matches_some_column(self@, line@),
    {
        let mut k: usize = 0;
        while k < line.len()
            invariant
                k <= line.len(),
                forall|c: int| 0 <= c < k ==> !matches_from(self@, line@, c),
            decreases line.len() - k,
        {
            if self.match_from(line, k) {
                return true;
            }
            k = k + 1;
        }
        false
    }

    /// Evaluates a line: it must be ASCII; the result says whether the program
    /// matches it.
    pub fn evaluate(&self, value: &str) -> (r: Result<LineEvaluated, &'static str>)
        ensures
            match r {
                Ok(le) => value.is_ascii() && le.result == matches_line(self@, value@) && le.line@
                    == value@,
                Err(e) => !value.is_ascii() && e@ == RegexError::NoAsciiCharacter.text(),
            },
    {
        if !value.is_ascii() {
            return Err(RegexError::NoAsciiCharacter.message());
        }
        let line = chars_of(value);
        let result = self.matches_chars(&line);
        Ok(LineEvaluated { result, line: value.to_owned() })
    }

    /// Whether the program matches a line given as characters.
    pub fn matches_chars(&self, line: &Vec<char>) -> (r: bool)
        ensures
            r == matches_line(self@, line@),
    {
        if line.len() == 0 {
            self.steps.len() == 1 && match self.steps[0].val {
                RegexVal::Wildcard => true,
                _ => false,
            }
        } else {
            self.evaluate_step(line)
        }
    }
}

} // verus!
