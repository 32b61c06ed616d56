//! The meaning of a compiled program on a line: a machine with a queue of steps
//! still to match, a stack of matched steps to backtrack into, and a cursor.
//!
//! Lines are ASCII when they are evaluated, so one character is one code unit and
//! every successful atom match is one position wide.
use vstd::prelude::*;

use super::regex_rep::RegexRep;
use super::regex_val::RegexValView;
use super::{EvaluatedStep, RegexStepView};

verus! {

/// The atom matches the character at position `i` of the line.
pub open spec fn accepts_at(v: RegexValView, line: Seq<char>, i: int) -> bool {
    0 <= i < line.len() && v.accepts(line[i])
}

/// The atom matches each of the `n` characters from position `i` on.
pub open spec fn run_of(v: RegexValView, line: Seq<char>, i: int, n: nat) -> bool {
    forall|j: int| i <= j < i + n ==> accepts_at(v, line, j)
}

/// How many consecutive characters from position `i` on the atom matches,
/// taking as many as it can, but no more than `cap`.
pub open spec fn greedy(v: RegexValView, line: Seq<char>, i: int, cap: Option<nat>) -> nat
    decreases line.len() - i,
{
    if cap == Some(0nat) || !accepts_at(v, line, i) {
        0
    } else {
        1 + greedy(
            v,
            line,
            i + 1,
            match cap {
                Some(c) => Some((c - 1) as nat),
                None => None,
            },
        )
    }
}

/// The frames that a zero-or-more step leaves for `m` matched characters: one
/// frame per character, each of which can be given back.
pub open spec fn any_frames(si: usize, m: nat) -> Seq<EvaluatedStep> {
    Seq::new(m, |j: int| EvaluatedStep { step: si, match_size: 1, backtrackable: true })
}

/// The program steps of the frames, in order.
pub open spec fn steps_of(stack: Seq<EvaluatedStep>) -> Seq<usize> {
    stack.map_values(|f: EvaluatedStep| f.step)
}

/// Number of frames that backtracking returns to the queue.
pub open spec fn held(stack: Seq<EvaluatedStep>) -> nat
    decreases stack.len(),
{
    if stack.len() == 0 {
        0
    } else {
        held(stack.drop_last()) + if stack.last().backtrackable {
            0nat
        } else {
            1nat
        }
    }
}

/// Number of frames that can give back what they consumed.
pub open spec fn choice_points(stack: Seq<EvaluatedStep>) -> nat
    decreases stack.len(),
{
    if stack.len() == 0 {
        0
    } else {
        choice_points(stack.drop_last()) + if stack.last().backtrackable {
            1nat
        } else {
            0nat
        }
    }
}

/// Total width consumed by the frames of the stack.
pub open spec fn consumed(stack: Seq<EvaluatedStep>) -> nat
    decreases stack.len(),
{
    if stack.len() == 0 {
        0
    } else {
        (consumed(stack.drop_last()) + stack.last().match_size) as nat
    }
}

/// Pops frames until one that can give back its width: frames that cannot go back
/// to the front of the queue. Yields the total width popped, the stack and the queue
/// that result, or `None` when the stack runs out first.
pub open spec fn backtrack_spec(stack: Seq<EvaluatedStep>, queue: Seq<usize>, given: nat) -> Option<
    (nat, Seq<EvaluatedStep>, Seq<usize>),
>
    decreases stack.len(),
{
    if stack.len() == 0 {
        None
    } else {
        let top = stack.last();
        let g = (given + top.match_size) as nat;
        if top.backtrackable {
            Some((g, stack.drop_last(), queue))
        } else {
            backtrack_spec(stack.drop_last(), seq![top.step] + queue, g)
        }
    }
}

pub proof fn lemma_push_measures(stack: Seq<EvaluatedStep>, f: EvaluatedStep)
    ensures
        held(stack.push(f)) == held(stack) + if f.backtrackable {
            0nat
        } else {
            1nat
        },
        choice_points(stack.push(f)) == choice_points(stack) + if f.backtrackable {
            1nat
        } else {
            0nat
        },
        consumed(stack.push(f)) == consumed(stack) + f.match_size,
{
    assert(stack.push(f).drop_last() =~= stack);
}

pub proof fn lemma_any_frames_measures(stack: Seq<EvaluatedStep>, si: usize, m: nat)
    ensures
        held(stack + any_frames(si, m)) == held(stack),
        choice_points(stack + any_frames(si, m)) == choice_points(stack) + m,
        consumed(stack + any_frames(si, m)) == consumed(stack) + m,
    decreases m,
{
    if m == 0 {
        assert(stack + any_frames(si, m) =~= stack);
    } else {
        let f = EvaluatedStep { step: si, match_size: 1, backtrackable: true };
        assert(stack + any_frames(si, m) =~= (stack + any_frames(si, (m - 1) as nat)).push(f));
        lemma_any_frames_measures(stack, si, (m - 1) as nat);
        lemma_push_measures(stack + any_frames(si, (m - 1) as nat), f);
    }
}

pub proof fn lemma_backtrack_measures(stack: Seq<EvaluatedStep>, queue: Seq<usize>, given: nat)
    ensures
        backtrack_spec(stack, queue, given) matches Some((b, st, q)) ==> {
            &&& q.len() + held(st) == queue.len() + held(stack)
            &&& choice_points(st) + 1 == choice_points(stack)
            &&& b + consumed(st) == given + consumed(stack)
            &&& st.len() < stack.len()
            &&& forall|j: int| 0 <= j < st.len() ==> st[j] == stack[j]
            &&& q == stack.subrange(st.len() + 1int, stack.len() as int).map_values(
                |f: EvaluatedStep| f.step,
            ) + queue
        },
    decreases stack.len(),
{
    if stack.len() > 0 {
        let top = stack.last();
        let rest = stack.drop_last();
        assert(rest.push(top) =~= stack);
        lemma_push_measures(rest, top);
        if !top.backtrackable {
            lemma_backtrack_measures(rest, seq![top.step] + queue, (given + top.match_size) as nat);
            if let Some((b, st, q)) = backtrack_spec(stack, queue, given) {
                assert(stack.subrange(st.len() + 1int, stack.len() as int) =~= rest.subrange(
                    st.len() + 1int,
                    rest.len() as int,
                ).push(top));
                assert(stack.subrange(st.len() + 1int, stack.len() as int).map_values(
                    |f: EvaluatedStep| f.step,
                ) =~= rest.subrange(st.len() + 1int, rest.len() as int).map_values(
                    |f: EvaluatedStep| f.step,
                ).push(top.step));
                assert(q =~= stack.subrange(st.len() + 1int, stack.len() as int).map_values(
                    |f: EvaluatedStep| f.step,
                ) + queue);
            }
        } else {
            assert(stack.subrange(rest.len() + 1int, stack.len() as int).map_values(
                |f: EvaluatedStep| f.step,
            ) =~= Seq::<usize>::empty());
            assert(Seq::<usize>::empty() + queue =~= queue);
        }
    }
}

/// Whether the steps of `queue`, taken in order with `stack` as the matched part,
/// finish successfully with the cursor at `index`.
///
/// A step whose rest of the queue is empty ends the match with success once it has
/// matched. The start sentinel succeeds when the match began at the start column 0,
/// that is when the cursor has advanced from 0 by exactly what the stack consumed;
/// the end sentinel succeeds when the cursor is at the end of the line. An atom that fails makes the machine backtrack: it gives the failing
/// step back to the queue and pops frames until one that can give back its width;
/// when none is left, this start column fails.
pub open spec fn run(
    prog: Seq<RegexStepView>,
    line: Seq<char>,
    queue: Seq<usize>,
    stack: Seq<EvaluatedStep>,
    index: int,
) -> bool
    decreases queue.len() + held(stack), choice_points(stack), queue.len(),
{
    if queue.len() == 0 || queue[0] >= prog.len() {
        false
    } else {
        let si = queue[0];
        let s = prog[si as int];
        let rest = queue.drop_first();
        proof {
            lemma_backtrack_measures(stack, queue, 0);
        }
        let retry = match backtrack_spec(stack, queue, 0) {
            None => false,
            Some((b, st, q)) => run(prog, line, q, st, index - b),
        };
        if s.anchoring_start {
            index == consumed(stack)
        } else if s.anchoring_end {
            index == line.len()
        } else {
            match s.rep {
                RegexRep::Exact(n) => {
                    if !run_of(s.val, line, index, n as nat) {
                        retry
                    } else if rest.len() == 0 {
                        true
                    } else {
                        let f = EvaluatedStep { step: si, match_size: n, backtrackable: false };
                        proof {
                            lemma_push_measures(stack, f);
                        }
                        run(prog, line, rest, stack.push(f), index + n)
                    }
                },
                RegexRep::Any => {
                    let m = greedy(s.val, line, index, None);
                    if rest.len() == 0 {
                        true
                    } else {
                        proof {
                            lemma_any_frames_measures(stack, si, m);
                        }
                        run(prog, line, rest, stack + any_frames(si, m), index + m)
                    }
                },
                RegexRep::Range { min, max } => {
                    let cap = match max {
                        Some(c) => Some(c as nat),
                        None => None,
                    };
                    let m = greedy(s.val, line, index, cap);
                    if min matches Some(lo) && m < lo {
                        retry
                    } else if rest.len() == 0 {
                        true
                    } else {
                        let slack = min == Some(0usize) || (max matches Some(hi) && m < hi);
                        let f = EvaluatedStep { step: si, match_size: m as usize, backtrackable: slack };
                        proof {
                            lemma_push_measures(stack, f);
                        }
                        run(prog, line, rest, stack.push(f), index + m)
                    }
                },
            }
        }
    }
}

/// The queue that every start column begins with: the whole program, in order.
pub open spec fn full_queue(n: nat) -> Seq<usize> {
    Seq::new(n, |i: int| i as usize)
}

/// The program matches when started at column `k`.
pub open spec fn matches_from(prog: Seq<RegexStepView>, line: Seq<char>, k: int) -> bool {
    run(prog, line, full_queue(prog.len()), seq![], k)
}

/// A program of one wildcard step matches the empty line.
pub open spec fn lone_wildcard(prog: Seq<RegexStepView>) -> bool {
    prog.len() == 1 && prog[0].val is Wildcard
}

/// The program matches when started at some column of the line.
pub open spec fn matches_some_column(prog: Seq<RegexStepView>, line: Seq<char>) -> bool {
    exists|k: int| 0 <= k < line.len() && matches_from(prog, line, k)
}

/// The program matches the line: at some start column, or, for the empty line,
/// by being a lone wildcard step.
pub open spec fn matches_line(prog: Seq<RegexStepView>, line: Seq<char>) -> bool {
    if line.len() == 0 {
        lone_wildcard(prog)
    } else {
        matches_some_column(prog, line)
    }
}

} // verus!
