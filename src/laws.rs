//! Laws that relate the compiler and the evaluator, proved over their models.
use vstd::prelude::*;

use crate::regex::grammar::{
    braces, bracket, bracket_set, class_end, compile_from, compile_spec, digit_value, end_anchor,
    end_filler, lemma_braces_advances, lemma_bracket_advances, lemma_class_end_bounds, once, plain,
    requantify, start_anchor,
};
use crate::regex::machine::{
    accepts_at, any_frames, backtrack_spec, choice_points, consumed, full_queue, greedy, held,
    lemma_any_frames_measures, lemma_backtrack_measures, lemma_push_measures, lone_wildcard,
    matches_from, matches_line, run, run_of,
};
use crate::regex::regex_error::RegexError;
use crate::regex::regex_rep::RegexRep;
use crate::regex::regex_val::RegexValView;
use crate::regex::{EvaluatedStep, RegexStepView};
use crate::{grep_lines, hits};

verus! {

/// A character that the pattern language gives a meaning of its own.
pub open spec fn is_meta(c: char) -> bool {
    c == '.' || c == '*' || c == '?' || c == '+' || c == '{' || c == '^' || c == '$' || c == '['
        || c == '\\'
}

/// Text in which every character stands for itself.
pub open spec fn plain_text(x: Seq<char>) -> bool {
    forall|i: int| 0 <= i < x.len() ==> !is_meta(#[trigger] x[i])
}

/// Compilation depends on the pattern alone: equal patterns give equal programs,
/// or equal errors.
pub proof fn compile_is_deterministic(p: Seq<char>, q: Seq<char>)
    requires
        p == q,
    ensures
        compile_spec(p) == compile_spec(q),
{
}

/// Evaluation depends on the program and the line alone.
pub proof fn evaluate_is_deterministic(
    p: Seq<RegexStepView>,
    q: Seq<RegexStepView>,
    l: Seq<char>,
    m: Seq<char>,
)
    requires
        p == q,
        l == m,
    ensures
        matches_line(p, l) == matches_line(q, m),
{
}

/// The program of a single step matches every non-empty line when the step, once
/// it has matched what it could at the first column, is done.
proof fn lemma_single_step_first_column(s: RegexStepView, l: Seq<char>)
    requires
        l.len() > 0,
        !s.anchoring_start,
        !s.anchoring_end,
        s.rep is Any || (s.rep matches RegexRep::Range { min, max } && min == Some(0usize)),
    ensures
        matches_line(seq![s], l),
{
    let prog = seq![s];
    assert(full_queue(1) =~= seq![0usize]);
    assert(full_queue(1).drop_first().len() == 0);
    assert(run(prog, l, full_queue(1), seq![], 0));
    assert(matches_from(prog, l, 0));
}

/// `c{1,}` and `c+` compile to the same program, so they match the same lines.
pub proof fn at_least_once_sugar(c: char, l: Seq<char>)
    requires
        !is_meta(c),
    ensures
        compile_spec(seq![c, '{', '1', ',', '}']) == compile_spec(seq![c, '+']),
        compile_spec(seq![c, '+']) is Ok,
        matches_line(compile_spec(seq![c, '{', '1', ',', '}'])->Ok_0, l) == matches_line(
            compile_spec(seq![c, '+'])->Ok_0,
            l,
        ),
{
    let p = seq![c, '{', '1', ',', '}'];
    let q = seq![c, '+'];
    let lit = seq![once(RegexValView::Literal(c))];
    let rep = RegexRep::Range { min: Some(1usize), max: None };
    let done = requantify(lit, rep);
    assert(compile_from(p, 5, done, false, false) == Ok::<_, RegexError>(done));
    assert(digit_value('1') == 1);
    assert(braces(p, 4, true, Some(1usize), 0, false) == Ok::<
        _,
        RegexError,
    >((rep, 5int)));
    assert(braces(p, 3, false, None, 1, true) == Ok::<
        _,
        RegexError,
    >((rep, 5int)));
    assert(braces(p, 2, false, None, 0, false) == Ok::<
        _,
        RegexError,
    >((rep, 5int)));
    assert(compile_from(p, 1, lit, false, false) == Ok::<_, RegexError>(done));
    assert(seq![].push(once(RegexValView::Literal(c))) =~= lit);
    assert(compile_spec(p) == Ok::<_, RegexError>(done));
    assert(compile_from(q, 2, done, false, false) == Ok::<_, RegexError>(done));
    assert(compile_from(q, 1, lit, false, false) == Ok::<_, RegexError>(done));
    assert(compile_spec(q) == Ok::<_, RegexError>(done));
}

/// `c{0,1}` and `c?` compile to the same program, so they match the same lines.
pub proof fn at_most_once_sugar(c: char, l: Seq<char>)
    requires
        !is_meta(c),
    ensures
        compile_spec(seq![c, '{', '0', ',', '1', '}']) == compile_spec(seq![c, '?']),
        compile_spec(seq![c, '?']) is Ok,
        matches_line(compile_spec(seq![c, '{', '0', ',', '1', '}'])->Ok_0, l) == matches_line(
            compile_spec(seq![c, '?'])->Ok_0,
            l,
        ),
{
    let p = seq![c, '{', '0', ',', '1', '}'];
    let q = seq![c, '?'];
    let lit = seq![once(RegexValView::Literal(c))];
    let rep = RegexRep::Range { min: Some(0usize), max: Some(1usize) };
    let done = requantify(lit, rep);
    assert(digit_value('0') == 0);
    assert(digit_value('1') == 1);
    assert(compile_from(p, 6, done, false, false) == Ok::<_, RegexError>(done));
    assert(braces(p, 5, true, Some(0usize), 1, true) == Ok::<_, RegexError>((rep, 6int)));
    assert(braces(p, 4, true, Some(0usize), 0, false) == Ok::<_, RegexError>((rep, 6int)));
    assert(braces(p, 3, false, None, 0, true) == Ok::<_, RegexError>((rep, 6int)));
    assert(braces(p, 2, false, None, 0, false) == Ok::<_, RegexError>((rep, 6int)));
    assert(compile_from(p, 1, lit, false, false) == Ok::<_, RegexError>(done));
    assert(seq![].push(once(RegexValView::Literal(c))) =~= lit);
    assert(compile_spec(p) == Ok::<_, RegexError>(done));
    assert(compile_from(q, 2, done, false, false) == Ok::<_, RegexError>(done));
    assert(compile_from(q, 1, lit, false, false) == Ok::<_, RegexError>(done));
    assert(compile_spec(q) == Ok::<_, RegexError>(done));
}

/// `c{0,}` and `c*` compile to different programs that match the same lines: every
/// line but the empty one.
pub proof fn zero_or_more_sugar(c: char, l: Seq<char>)
    requires
        !is_meta(c),
    ensures
        compile_spec(seq![c, '{', '0', ',', '}']) is Ok,
        compile_spec(seq![c, '*']) is Ok,
        matches_line(compile_spec(seq![c, '{', '0', ',', '}'])->Ok_0, l) == matches_line(
            compile_spec(seq![c, '*'])->Ok_0,
            l,
        ),
        matches_line(compile_spec(seq![c, '*'])->Ok_0, l) == (l.len() > 0),
{
    let p = seq![c, '{', '0', ',', '}'];
    let q = seq![c, '*'];
    let lit = seq![once(RegexValView::Literal(c))];
    let rep = RegexRep::Range { min: Some(0usize), max: None };
    let done_p = requantify(lit, rep);
    let done_q = requantify(lit, RegexRep::Any);
    assert(digit_value('0') == 0);
    assert(compile_from(p, 5, done_p, false, false) == Ok::<_, RegexError>(done_p));
    assert(braces(p, 4, true, Some(0usize), 0, false) == Ok::<_, RegexError>((rep, 5int)));
    assert(braces(p, 3, false, None, 0, true) == Ok::<_, RegexError>((rep, 5int)));
    assert(braces(p, 2, false, None, 0, false) == Ok::<_, RegexError>((rep, 5int)));
    assert(compile_from(p, 1, lit, false, false) == Ok::<_, RegexError>(done_p));
    assert(seq![].push(once(RegexValView::Literal(c))) =~= lit);
    assert(compile_spec(p) == Ok::<_, RegexError>(done_p));
    assert(compile_from(q, 2, done_q, false, false) == Ok::<_, RegexError>(done_q));
    assert(compile_from(q, 1, lit, false, false) == Ok::<_, RegexError>(done_q));
    assert(compile_spec(q) == Ok::<_, RegexError>(done_q));
    assert(done_p =~= seq![plain(RegexValView::Literal(c), rep)]);
    assert(done_q =~= seq![plain(RegexValView::Literal(c), RegexRep::Any)]);
    if l.len() > 0 {
        lemma_single_step_first_column(plain(RegexValView::Literal(c), rep), l);
        lemma_single_step_first_column(plain(RegexValView::Literal(c), RegexRep::Any), l);
    }
}

proof fn lemma_bracket_set_plain(p: Seq<char>, i: int, acc: Seq<char>, m: int)
    requires
        0 <= i,
        0 <= m,
        i + m < p.len(),
        p[i + m] == ']',
        forall|j: int| i <= j < i + m ==> p[j] != ']' && p[j] != '\\',
    ensures
        bracket_set(p, i, acc) == Ok::<_, RegexError>((acc + p.subrange(i, i + m), i + m + 1)),
    decreases m,
{
    if m == 0 {
        assert(acc + p.subrange(i, i) =~= acc);
    } else {
        lemma_bracket_set_plain(p, i + 1, acc.push(p[i]), m - 1);
        assert(acc.push(p[i]) + p.subrange(i + 1, i + m) =~= acc + p.subrange(i, i + m));
    }
}

/// The characters of a bracket expression that stand for themselves: at least one,
/// none of them `]` or a backslash.
pub open spec fn bracket_body(x: Seq<char>) -> bool {
    x.len() > 0 && forall|i: int| 0 <= i < x.len() ==> #[trigger] x[i] != ']' && x[i] != '\\'
}

/// At each column of a line, `[X]` or `[^X]` matches: the character there is in X or
/// it is not. So one of them matches every non-empty line.
#[verifier::rlimit(80)]
pub proof fn bracket_complement(x: Seq<char>, l: Seq<char>, k: int)
    requires
        bracket_body(x),
        x[0] != '^',
        !(x[0] == '[' && x.len() > 1 && x[1] == ':'),
        0 <= k < l.len(),
    ensures
        compile_spec(seq!['['] + x + seq![']']) is Ok,
        compile_spec(seq!['[', '^'] + x + seq![']']) is Ok,
        matches_from(compile_spec(seq!['['] + x + seq![']'])->Ok_0, l, k) || matches_from(
            compile_spec(seq!['[', '^'] + x + seq![']'])->Ok_0,
            l,
            k,
        ),
        matches_line(compile_spec(seq!['['] + x + seq![']'])->Ok_0, l) || matches_line(
            compile_spec(seq!['[', '^'] + x + seq![']'])->Ok_0,
            l,
        ),
{
    let p = seq!['['] + x + seq![']'];
    let n = seq!['[', '^'] + x + seq![']'];
    let pos = seq![once(RegexValView::Bracket(x))];
    let neg = seq![once(RegexValView::NotBracket(x))];
    lemma_bracket_set_plain(p, 2, seq![x[0]], x.len() - 1);
    assert(seq![x[0]] + p.subrange(2, x.len() + 1int) =~= x);
    assert(bracket(p, 1) == Ok::<_, RegexError>((RegexValView::Bracket(x), p.len() as int)));
    assert(seq![].push(once(RegexValView::Bracket(x))) =~= pos);
    assert(compile_from(p, p.len() as int, pos, false, false) == Ok::<_, RegexError>(pos));
    assert(compile_spec(p) == Ok::<_, RegexError>(pos));
    lemma_bracket_set_plain(n, 2, seq![], x.len() as int);
    assert(seq![] + n.subrange(2, x.len() + 2int) =~= x);
    assert(bracket(n, 1) == Ok::<_, RegexError>((RegexValView::NotBracket(x), n.len() as int)));
    assert(seq![].push(once(RegexValView::NotBracket(x))) =~= neg);
    assert(compile_from(n, n.len() as int, neg, false, false) == Ok::<_, RegexError>(neg));
    assert(compile_spec(n) == Ok::<_, RegexError>(neg));
    assert(full_queue(1) =~= seq![0usize]);
    assert(full_queue(1).drop_first().len() == 0);
    if x.contains(l[k]) {
        assert(run_of(RegexValView::Bracket(x), l, k, 1));
        assert(run(pos, l, full_queue(1), seq![], k));
        assert(matches_from(pos, l, k));
    } else {
        assert(run_of(RegexValView::NotBracket(x), l, k, 1));
        assert(run(neg, l, full_queue(1), seq![], k));
        assert(matches_from(neg, l, k));
    }
}

/// One step per character of `x`, each matching that character once.
pub open spec fn literal_steps(x: Seq<char>) -> Seq<RegexStepView>
    decreases x.len(),
{
    if x.len() == 0 {
        seq![]
    } else {
        literal_steps(x.drop_last()).push(once(RegexValView::Literal(x.last())))
    }
}

/// The character at position `i`, as a value of its type.
proof fn char_at(x: Seq<char>, i: int) -> (c: char)
    requires
        0 <= i < x.len(),
    ensures
        c == x[i],
{
    x[i]
}

proof fn lemma_literal_steps(x: Seq<char>)
    ensures
        literal_steps(x).len() == x.len(),
        forall|i: int| 0 <= i < x.len() ==> #[trigger] literal_steps(x)[i] == once(RegexValView::Literal(x[i])),
    decreases x.len(),
{
    if x.len() > 0 {
        let c = char_at(x, x.len() - 1);
        lemma_literal_steps(x.drop_last());
    }
}

proof fn lemma_compile_plain(
    p: Seq<char>,
    i: int,
    e: int,
    steps: Seq<RegexStepView>,
    anchored: bool,
    ended: bool,
)
    requires
        0 <= i <= e <= p.len(),
        forall|j: int| i <= j < e ==> !is_meta(#[trigger] p[j]),
    ensures
        compile_from(p, i, steps, anchored, ended) == compile_from(
            p,
            e,
            steps + literal_steps(p.subrange(i, e)),
            anchored,
            ended,
        ),
    decreases e - i,
{
    lemma_literal_steps(p.subrange(i, e));
    if i == e {
        assert(steps + literal_steps(p.subrange(i, e)) =~= steps);
    } else {
        let c = char_at(p, i);
        let next = steps.push(once(RegexValView::Literal(c)));
        lemma_compile_plain(p, i + 1, e, next, anchored, ended);
        lemma_literal_steps(p.subrange(i + 1, e));
        assert(next + literal_steps(p.subrange(i + 1, e)) =~= steps + literal_steps(
            p.subrange(i, e),
        ));
    }
}

/// Frames of literal steps `off`, `off + 1`, ... that each matched one character.
pub open spec fn literal_frames(off: int, j: nat) -> Seq<EvaluatedStep> {
    Seq::new(j, |i: int| EvaluatedStep { step: (off + i) as usize, match_size: 1, backtrackable: false })
}

/// The queue of a program of `len` steps once its first `j` steps were taken.
pub open spec fn queue_from(len: nat, j: int) -> Seq<usize> {
    full_queue(len).subrange(j, len as int)
}

proof fn lemma_greedy_wildcard(l: Seq<char>, i: int)
    requires
        0 <= i <= l.len(),
    ensures
        greedy(RegexValView::Wildcard, l, i, None) == l.len() - i,
    decreases l.len() - i,
{
    if i < l.len() {
        lemma_greedy_wildcard(l, i + 1);
    }
}

/// `x` occurs in `l` at position `q`.
pub open spec fn occurs_at(l: Seq<char>, x: Seq<char>, q: int) -> bool {
    0 <= q && q + x.len() <= l.len() && l.subrange(q, q + x.len()) == x
}

/// Looking back from position `p` to position `k`, the last occurrence of `x` in `l`
/// exists and ends the line.
pub open spec fn last_occurrence_ends(l: Seq<char>, x: Seq<char>, k: int, p: int) -> bool
    decreases p - k,
{
    if occurs_at(l, x, p) {
        p + x.len() == l.len()
    } else if p <= k {
        false
    } else {
        last_occurrence_ends(l, x, k, p - 1)
    }
}

/// The program of `X$`: a zero-or-more wildcard, the characters of X, the end sentinel.
pub open spec fn end_program(x: Seq<char>) -> Seq<RegexStepView> {
    seq![end_filler()] + literal_steps(x).push(end_anchor())
}

proof fn lemma_end_backtrack(a: nat, j: nat, n: nat, given: nat)
    requires
        j <= n,
        n < usize::MAX,
    ensures
        backtrack_spec(any_frames(0, a) + literal_frames(1, j), queue_from(n + 2, 1 + j as int), given)
            == if a == 0 {
            None
        } else {
            Some(((given + j + 1) as nat, any_frames(0, (a - 1) as nat), queue_from(n + 2, 1)))
        },
    decreases j,
{
    let stack = any_frames(0, a) + literal_frames(1, j);
    if j == 0 {
        assert(stack =~= any_frames(0, a));
        if a > 0 {
            assert(stack.drop_last() =~= any_frames(0, (a - 1) as nat));
        }
    } else {
        let top = stack.last();
        assert(top == EvaluatedStep { step: j as usize, match_size: 1, backtrackable: false });
        assert(stack.drop_last() =~= any_frames(0, a) + literal_frames(1, (j - 1) as nat));
        assert(seq![top.step] + queue_from(n + 2, 1 + j as int) =~= queue_from(n + 2, j as int));
        lemma_end_backtrack(a, (j - 1) as nat, n, given + 1);
    }
}

proof fn lemma_end_run(x: Seq<char>, l: Seq<char>, k: int, p: int, j: int)
    requires
        x.len() >= 1,
        x.len() < usize::MAX,
        0 <= k <= p <= l.len(),
        0 <= j <= x.len(),
        p + j <= l.len(),
        l.subrange(p, p + j) == x.subrange(0, j),
    ensures
        run(
            end_program(x),
            l,
            queue_from(x.len() + 2, 1 + j),
            any_frames(0, (p - k) as nat) + literal_frames(1, j as nat),
            p + j,
        ) == last_occurrence_ends(l, x, k, p),
    decreases p, x.len() - j,
{
    let n = x.len() as int;
    let prog = end_program(x);
    lemma_literal_steps(x);
    let queue = queue_from((n + 2) as nat, 1 + j);
    let stack = any_frames(0, (p - k) as nat) + literal_frames(1, j as nat);
    assert(queue[0] == 1 + j);
    if j == n {
        assert(prog[n + 1] == end_anchor());
        assert(x.subrange(0, n) =~= x);
        assert(occurs_at(l, x, p));
    } else {
        let c = char_at(x, j);
        assert(prog[1 + j] == once(RegexValView::Literal(c)));
        let rest = queue.drop_first();
        assert(rest =~= queue_from((n + 2) as nat, 1 + j + 1));
        assert(rest.len() > 0);
        if accepts_at(RegexValView::Literal(c), l, p + j) {
            assert(run_of(RegexValView::Literal(c), l, p + j, 1));
            let f = EvaluatedStep { step: (1 + j) as usize, match_size: 1, backtrackable: false };
            assert(stack.push(f) =~= any_frames(0, (p - k) as nat) + literal_frames(1, (j + 1) as nat));
            assert(l.subrange(p, p + j + 1) =~= x.subrange(0, j + 1));
            lemma_end_run(x, l, k, p, j + 1);
        } else {
            assert(!run_of(RegexValView::Literal(c), l, p + j, 1));
            if occurs_at(l, x, p) {
                assert(l.subrange(p, p + n)[j] == l[p + j]);
            }
            lemma_end_backtrack((p - k) as nat, j as nat, n as nat, 0);
            if p > k {
                assert(l.subrange(p - 1, p - 1) =~= x.subrange(0, 0));
                assert(any_frames(0, (p - 1 - k) as nat) + literal_frames(1, 0) =~= any_frames(
                    0,
                    (p - 1 - k) as nat,
                ));
                lemma_end_run(x, l, k, p - 1, 0);
            }
        }
    }
}

proof fn lemma_last_occurrence_found(l: Seq<char>, x: Seq<char>, k: int, p: int)
    requires
        x.len() <= l.len(),
        occurs_at(l, x, l.len() - x.len()),
        k <= l.len() - x.len() <= p <= l.len(),
    ensures
        last_occurrence_ends(l, x, k, p),
    decreases p - k,
{
    if p > l.len() - x.len() {
        lemma_last_occurrence_found(l, x, k, p - 1);
    }
}

proof fn lemma_last_occurrence_ends_line(l: Seq<char>, x: Seq<char>, k: int, p: int)
    requires
        last_occurrence_ends(l, x, k, p),
    ensures
        x.len() <= l.len() && l.skip(l.len() - x.len()) == x,
    decreases p - k,
{
    if occurs_at(l, x, p) {
        assert(l.skip(l.len() - x.len()) =~= l.subrange(p, p + x.len()));
    } else {
        lemma_last_occurrence_ends_line(l, x, k, p - 1);
    }
}

/// A pattern `X$`, with X non-empty plain text, matches exactly the lines that end
/// with X.
pub proof fn end_anchor_law(x: Seq<char>, l: Seq<char>)
    requires
        plain_text(x),
        x.len() > 0,
        x.len() < usize::MAX,
    ensures
        compile_spec(x + seq!['$']) == Ok::<_, RegexError>(end_program(x)),
        matches_line(compile_spec(x + seq!['$'])->Ok_0, l) == (x.len() <= l.len() && l.skip(
            l.len() - x.len(),
        ) == x),
{
    let p = x + seq!['$'];
    let n = x.len() as int;
    let prog = end_program(x);
    lemma_literal_steps(x);
    assert forall|j: int| 0 <= j < n implies !is_meta(#[trigger] p[j]) by {
        assert(p[j] == x[j]);
    }
    lemma_compile_plain(p, 0, n, seq![], false, false);
    assert(p.subrange(0, n) =~= x);
    assert(seq![] + literal_steps(x) =~= literal_steps(x));
    assert(compile_from(p, n + 1, prog, false, true) == Ok::<_, RegexError>(prog));
    assert(compile_spec(p) == Ok::<_, RegexError>(prog));
    if l.len() > 0 {
        assert forall|k: int| 0 <= k < l.len() implies matches_from(prog, l, k)
            == last_occurrence_ends(l, x, k, l.len() as int) by {
            let q = full_queue((n + 2) as nat);
            assert(q[0] == 0);
            assert(prog[0] == end_filler());
            lemma_greedy_wildcard(l, k);
            assert(q.drop_first() =~= queue_from((n + 2) as nat, 1));
            assert(seq![] + any_frames(0, (l.len() - k) as nat) =~= any_frames(
                0,
                (l.len() - k) as nat,
            ) + literal_frames(1, 0));
            assert(l.subrange(l.len() as int, l.len() as int) =~= x.subrange(0, 0));
            lemma_end_run(x, l, k, l.len() as int, 0);
        }
        if n <= l.len() && l.skip(l.len() - n) == x {
            assert(l.subrange(l.len() - n, l.len() as int) =~= l.skip(l.len() - n));
            lemma_last_occurrence_found(l, x, 0, l.len() as int);
            assert(matches_from(prog, l, 0));
        } else {
            assert forall|k: int| 0 <= k < l.len() implies !matches_from(prog, l, k) by {
                if last_occurrence_ends(l, x, k, l.len() as int) {
                    lemma_last_occurrence_ends_line(l, x, k, l.len() as int);
                }
            }
        }
    }
}

/// A lone quantifier `*`, `?` or `+` compiles to one wildcard step, which matches
/// the empty line.
pub proof fn lone_quantifier_matches_empty_line(q: char)
    requires
        q == '*' || q == '?' || q == '+',
    ensures
        compile_spec(seq![q]) is Ok,
        matches_line(compile_spec(seq![q])->Ok_0, seq![]),
{
    let rep = if q == '*' {
        RegexRep::Any
    } else if q == '?' {
        RegexRep::Range { min: Some(0usize), max: Some(1usize) }
    } else {
        RegexRep::Range { min: Some(1usize), max: None }
    };
    let prog = requantify(seq![], rep);
    assert(compile_from(seq![q], 1, prog, false, false) == Ok::<_, RegexError>(prog));
    assert(compile_spec(seq![q]) == Ok::<_, RegexError>(prog));
    assert(lone_wildcard(prog));
}

/// A search keeps exactly the lines that some alternative matches, each of them once.
pub proof fn grep_keeps_each_matching_line_once(alts: Seq<Seq<char>>, lines: Seq<Seq<char>>)
    ensures
        forall|l: Seq<char>|
            #[trigger] grep_lines(alts, lines).contains(l) <==> (lines.contains(l) && hits(alts, l)),
        forall|i: int, j: int|
            0 <= i < j < grep_lines(alts, lines).len() ==> grep_lines(alts, lines)[i]
                != grep_lines(alts, lines)[j],
    decreases lines.len(),
{
    if lines.len() > 0 {
        let init = lines.drop_last();
        grep_keeps_each_matching_line_once(alts, init);
        let prev = grep_lines(alts, init);
        let last = lines.last();
        assert forall|l: Seq<char>| lines.contains(l) <==> (init.contains(l) || l == last) by {
            if lines.contains(l) {
                let i = choose|i: int| 0 <= i < lines.len() && lines[i] == l;
                if i < lines.len() - 1 {
                    assert(init[i] == l);
                }
            }
            if init.contains(l) {
                let i = choose|i: int| 0 <= i < init.len() && init[i] == l;
                assert(lines[i] == l);
            }
            if l == last {
                assert(lines[lines.len() - 1] == l);
            }
        }
        if hits(alts, last) && !prev.contains(last) {
            let out = prev.push(last);
            assert forall|l: Seq<char>| out.contains(l) <==> (prev.contains(l) || l == last) by {
                if out.contains(l) {
                    let i = choose|i: int| 0 <= i < out.len() && out[i] == l;
                    if i < prev.len() {
                        assert(prev[i] == l);
                    }
                }
                if prev.contains(l) {
                    let i = choose|i: int| 0 <= i < prev.len() && prev[i] == l;
                    assert(out[i] == l);
                }
                if l == last {
                    assert(out[prev.len() as int] == l);
                }
            }
            assert forall|i: int, j: int| 0 <= i < j < out.len() implies out[i] != out[j] by {
                if j == prev.len() {
                    assert(prev[i] == out[i]);
                }
            }
        }
    }
}

/// No step of the program is an anchor sentinel.
pub open spec fn sentinel_free(prog: Seq<RegexStepView>) -> bool {
    forall|i: int|
        0 <= i < prog.len() ==> !(#[trigger] prog[i]).anchoring_start && !prog[i].anchoring_end
}

proof fn lemma_backtrack_append(st: Seq<EvaluatedStep>, q: Seq<usize>, t: Seq<usize>, g: nat)
    ensures
        backtrack_spec(st, q + t, g) == match backtrack_spec(st, q, g) {
            None => None,
            Some((b, st2, q2)) => Some((b, st2, q2 + t)),
        },
    decreases st.len(),
{
    if st.len() > 0 {
        let top = st.last();
        assert(seq![top.step] + (q + t) =~= (seq![top.step] + q) + t);
        lemma_backtrack_append(st.drop_last(), seq![top.step] + q, t, (g + top.match_size) as nat);
    }
}

/// With the start sentinel after a sentinel-free program, the run succeeds exactly
/// when the program's own run succeeds and the match began at column 0.
proof fn lemma_greedy_bound(v: RegexValView, l: Seq<char>, i: int, cap: Option<nat>)
    requires
        0 <= i,
    ensures
        greedy(v, l, i, cap) <= if i <= l.len() {
            l.len() - i
        } else {
            0
        },
    decreases l.len() - i,
{
    if !(cap == Some(0nat) || !accepts_at(v, l, i)) {
        lemma_greedy_bound(
            v,
            l,
            i + 1,
            match cap {
                Some(c) => Some((c - 1) as nat),
                None => None,
            },
        );
    }
}

proof fn lemma_start_sentinel_at(prog: Seq<RegexStepView>, l: Seq<char>, st: Seq<EvaluatedStep>, idx: int)
    requires
        prog.len() < usize::MAX,
    ensures
        run(prog.push(start_anchor()), l, seq![prog.len() as usize], st, idx) == (idx == consumed(st)),
{
    let full = prog.push(start_anchor());
    assert(full[prog.len() as int] == start_anchor());
    lemma_backtrack_measures(st, seq![prog.len() as usize], 0);
}

proof fn lemma_start_sentinel_run(
    prog: Seq<RegexStepView>,
    l: Seq<char>,
    q: Seq<usize>,
    st: Seq<EvaluatedStep>,
    idx: int,
    c: int,
)
    requires
        sentinel_free(prog),
        prog.len() < usize::MAX,
        q.len() > 0,
        forall|i: int| 0 <= i < q.len() ==> q[i] < prog.len(),
        forall|i: int| 0 <= i < st.len() ==> (#[trigger] st[i]).step < prog.len(),
        c >= 0,
        idx == c + consumed(st),
        0 <= idx <= l.len(),
        l.len() <= usize::MAX,
    ensures
        run(prog.push(start_anchor()), l, q.push(prog.len() as usize), st, idx) == (c == 0 && run(
            prog,
            l,
            q,
            st,
            idx,
        )),
    decreases q.len() + held(st), choice_points(st), q.len(),
{
    let n = prog.len() as int;
    let full = prog.push(start_anchor());
    let q2 = q.push(n as usize);
    let si = q[0];
    let s = prog[si as int];
    assert(q2[0] == si);
    assert(full[si as int] == s);
    let rest = q.drop_first();
    assert(q2.drop_first() =~= rest.push(n as usize));
    assert(!s.anchoring_start && !s.anchoring_end);
    lemma_backtrack_measures(st, q, 0);
    assert(q2 =~= q + seq![n as usize]);
    lemma_backtrack_append(st, q, seq![n as usize], 0);
    if let Some((b, st2, qq)) = backtrack_spec(st, q, 0) {
        assert(qq + seq![n as usize] =~= qq.push(n as usize));
        assert forall|i: int| 0 <= i < qq.len() implies qq[i] < prog.len() by {
            let popped = st.subrange(st2.len() + 1int, st.len() as int);
            let ps = popped.map_values(|f: EvaluatedStep| f.step);
            assert(qq == ps + q);
            if i < ps.len() {
                assert(ps[i] == st[st2.len() + 1 + i].step);
            }
        }
        assert forall|i: int| 0 <= i < st2.len() implies (#[trigger] st2[i]).step < prog.len() by {
            assert(st2[i] == st[i]);
        }
        lemma_start_sentinel_run(prog, l, qq, st2, idx - b, c);
    }
    match s.rep {
        RegexRep::Exact(k) => {
            let f = EvaluatedStep { step: si, match_size: k, backtrackable: false };
            lemma_push_measures(st, f);
            if run_of(s.val, l, idx, k as nat) {
                if k > 0 {
                    assert(accepts_at(s.val, l, idx + k - 1));
                }
                assert(idx + k <= l.len());
                if rest.len() == 0 {
                    assert(rest.push(n as usize) =~= seq![n as usize]);
                    lemma_start_sentinel_at(prog, l, st.push(f), idx + k);
                } else {
                    lemma_start_sentinel_run(prog, l, rest, st.push(f), idx + k, c);
                }
                assert(run(full, l, q2, st, idx) == run(full, l, rest.push(n as usize), st.push(f), idx + k));
            }
        },
        RegexRep::Any => {
            let m = greedy(s.val, l, idx, None);
            lemma_any_frames_measures(st, si, m);
            let st3 = st + any_frames(si, m);
            assert forall|i: int| 0 <= i < st3.len() implies (#[trigger] st3[i]).step < prog.len() by {
                if i >= st.len() {
                    assert(st3[i] == any_frames(si, m)[i - st.len()]);
                }
            }
            lemma_greedy_bound(s.val, l, idx, None);
            if rest.len() == 0 {
                assert(rest.push(n as usize) =~= seq![n as usize]);
                lemma_start_sentinel_at(prog, l, st3, idx + m);
            } else {
                lemma_start_sentinel_run(prog, l, rest, st3, idx + m, c);
            }
        },
        RegexRep::Range { min, max } => {
            let cap = match max {
                Some(h) => Some(h as nat),
                None => None,
            };
            let m = greedy(s.val, l, idx, cap);
            lemma_greedy_bound(s.val, l, idx, cap);
            let slack = min == Some(0usize) || (max matches Some(hi) && m < hi);
            let f = EvaluatedStep { step: si, match_size: m as usize, backtrackable: slack };
            lemma_push_measures(st, f);
            if !(min matches Some(lo) && m < lo) {
                if rest.len() == 0 {
                    assert(rest.push(n as usize) =~= seq![n as usize]);
                    lemma_start_sentinel_at(prog, l, st.push(f), idx + m);
                } else {
                    lemma_start_sentinel_run(prog, l, rest, st.push(f), idx + m, c);
                }
            }
        },
    }
}

/// Moves a parse result one position to the right.
pub open spec fn shifted<T>(r: Result<(T, int), RegexError>) -> Result<(T, int), RegexError> {
    match r {
        Ok((v, j)) => Ok((v, j + 1)),
        Err(e) => Err(e),
    }
}

proof fn lemma_braces_shift(
    c: char,
    x: Seq<char>,
    i: int,
    comma: bool,
    min: Option<usize>,
    count: nat,
    digits: bool,
)
    requires
        0 <= i,
    ensures
        braces(seq![c] + x, i + 1, comma, min, count, digits) == shifted(
            braces(x, i, comma, min, count, digits),
        ),
    decreases x.len() - i,
{
    let p = seq![c] + x;
    if i < x.len() {
        assert(p[i + 1] == x[i]);
        let d = x[i];
        if crate::regex::regex_class::is_digit(d) {
            lemma_braces_shift(c, x, i + 1, comma, min, count * 10 + digit_value(d), true);
        } else if d == ',' && !comma {
            lemma_braces_shift(
                c,
                x,
                i + 1,
                true,
                if digits {
                    Some(count as usize)
                } else {
                    None
                },
                0,
                false,
            );
        }
    }
}

proof fn lemma_bracket_set_shift(c: char, x: Seq<char>, i: int, acc: Seq<char>)
    requires
        0 <= i,
    ensures
        bracket_set(seq![c] + x, i + 1, acc) == shifted(bracket_set(x, i, acc)),
    decreases x.len() - i,
{
    let p = seq![c] + x;
    if i < x.len() {
        assert(p[i + 1] == x[i]);
        if x[i] == '\\' {
            if i + 1 < x.len() {
                assert(p[i + 2] == x[i + 1]);
                lemma_bracket_set_shift(c, x, i + 2, acc.push(x[i + 1]));
            }
        } else if x[i] != ']' {
            lemma_bracket_set_shift(c, x, i + 1, acc.push(x[i]));
        }
    }
}

proof fn lemma_class_end_shift(c: char, x: Seq<char>, j: int)
    requires
        0 <= j,
    ensures
        class_end(seq![c] + x, j + 1) == match class_end(x, j) {
            Some(e) => Some(e + 1),
            None => None::<int>,
        },
    decreases x.len() - j,
{
    let p = seq![c] + x;
    if j + 1 < x.len() {
        assert(p[j + 1] == x[j] && p[j + 2] == x[j + 1]);
        lemma_class_end_shift(c, x, j + 1);
    }
}

proof fn lemma_bracket_shift(c: char, x: Seq<char>, i: int)
    requires
        0 <= i,
    ensures
        bracket(seq![c] + x, i + 1) == shifted(bracket(x, i)),
{
    let p = seq![c] + x;
    if i < x.len() {
        assert(p[i + 1] == x[i]);
        if i + 1 < x.len() {
            assert(p[i + 2] == x[i + 1]);
            lemma_bracket_set_shift(c, x, i + 2, seq![x[i + 1]]);
        }
        lemma_bracket_set_shift(c, x, i + 1, seq![]);
        lemma_bracket_set_shift(c, x, i + 1, seq![x[i]]);
        lemma_class_end_shift(c, x, i + 2);
        lemma_class_end_bounds(x, i + 2);
        if let Some(e) = class_end(x, i + 2) {
            assert(p.subrange(i + 3, e + 1) =~= x.subrange(i + 2, e));
            lemma_bracket_set_shift(c, x, e + 2, seq![]);
        }
    }
}

/// Compiling after a leading character that adds no step reads the rest as it
/// stands.
proof fn lemma_compile_shift(
    c: char,
    x: Seq<char>,
    i: int,
    steps: Seq<RegexStepView>,
    anchored: bool,
    ended: bool,
)
    requires
        0 <= i,
    ensures
        compile_from(seq![c] + x, i + 1, steps, anchored, ended) == compile_from(
            x,
            i,
            steps,
            anchored,
            ended,
        ),
    decreases x.len() - i,
{
    let p = seq![c] + x;
    if i < x.len() {
        let d = x[i];
        assert(p[i + 1] == d);
        lemma_braces_shift(c, x, i + 1, false, None, 0, false);
        lemma_bracket_shift(c, x, i + 1);
        lemma_braces_advances(x, i + 1, false, None, 0, false);
        lemma_bracket_advances(x, i + 1);
        if i + 1 < x.len() {
            assert(p[i + 2] == x[i + 1]);
        }
        let typed = char_at(x, i);
        if i + 1 < x.len() {
            let next_typed = char_at(x, i + 1);
        }
        if d == '.' {
            lemma_compile_shift(c, x, i + 1, steps.push(once(RegexValView::Wildcard)), anchored, ended);
        } else if d == '*' {
            lemma_compile_shift(c, x, i + 1, requantify(steps, RegexRep::Any), anchored, ended);
        } else if d == '?' {
            lemma_compile_shift(
                c,
                x,
                i + 1,
                requantify(steps, RegexRep::Range { min: Some(0), max: Some(1) }),
                anchored,
                ended,
            );
        } else if d == '+' {
            lemma_compile_shift(
                c,
                x,
                i + 1,
                requantify(steps, RegexRep::Range { min: Some(1), max: None }),
                anchored,
                ended,
            );
        } else if d == '{' {
            if steps.len() == 0 {
                lemma_compile_shift(c, x, i + 1, steps, anchored, ended);
            } else if let Ok((rep, j)) = braces(x, i + 1, false, None, 0, false) {
                lemma_compile_shift(c, x, j, requantify(steps, rep), anchored, ended);
            }
        } else if d == '^' {
            lemma_compile_shift(c, x, i + 1, steps, true, ended);
        } else if d == '$' {
            if ended {
                lemma_compile_shift(c, x, i + 1, steps, anchored, true);
            } else {
                lemma_compile_shift(
                    c,
                    x,
                    i + 1,
                    seq![end_filler()] + steps.push(end_anchor()),
                    anchored,
                    true,
                );
            }
        } else if d == '[' {
            if let Ok((v, j)) = bracket(x, i + 1) {
                lemma_compile_shift(c, x, j, steps.push(once(v)), anchored, ended);
            }
        } else if d == '\\' {
            if i + 1 < x.len() {
                lemma_compile_shift(
                    c,
                    x,
                    i + 2,
                    steps.push(once(RegexValView::Literal(x[i + 1]))),
                    anchored,
                    ended,
                );
            }
        } else {
            lemma_compile_shift(c, x, i + 1, steps.push(once(RegexValView::Literal(d))), anchored, ended);
        }
    }
}

/// Adds the start sentinel to a compiled program.
pub open spec fn with_start_anchor(r: Result<Seq<RegexStepView>, RegexError>) -> Result<
    Seq<RegexStepView>,
    RegexError,
> {
    match r {
        Ok(prog) => Ok(prog.push(start_anchor())),
        Err(e) => Err(e),
    }
}

/// With no `^` or `$` ahead, compiling with the `^` flag set gives the program of
/// the unflagged compilation followed by the start sentinel; that program has no
/// sentinel, and at most one step per character.
proof fn lemma_compile_unanchored(x: Seq<char>, i: int, steps: Seq<RegexStepView>, ended: bool)
    requires
        0 <= i <= x.len(),
        forall|j: int| i <= j < x.len() ==> #[trigger] x[j] != '^' && x[j] != '$',
        sentinel_free(steps),
    ensures
        compile_from(x, i, steps, true, ended) == with_start_anchor(
            compile_from(x, i, steps, false, ended),
        ),
        compile_from(x, i, steps, false, ended) matches Ok(prog) ==> sentinel_free(prog)
            && prog.len() <= steps.len() + x.len() - i,
    decreases x.len() - i,
{
    if i < x.len() {
        let d = x[i];
        let typed = char_at(x, i);
        lemma_braces_advances(x, i + 1, false, None, 0, false);
        lemma_bracket_advances(x, i + 1);
        assert forall|rep: RegexRep| sentinel_free(#[trigger] requantify(steps, rep)) && requantify(
            steps,
            rep,
        ).len() <= steps.len() + 1 by {
            let r = requantify(steps, rep);
            if steps.len() > 0 {
                assert forall|k: int| 0 <= k < r.len() implies !(#[trigger] r[k]).anchoring_start
                    && !r[k].anchoring_end by {
                    assert(steps[k].anchoring_start == r[k].anchoring_start);
                }
            }
        }
        if d == '.' {
            lemma_compile_unanchored(x, i + 1, steps.push(once(RegexValView::Wildcard)), ended);
        } else if d == '*' {
            lemma_compile_unanchored(x, i + 1, requantify(steps, RegexRep::Any), ended);
        } else if d == '?' {
            lemma_compile_unanchored(
                x,
                i + 1,
                requantify(steps, RegexRep::Range { min: Some(0), max: Some(1) }),
                ended,
            );
        } else if d == '+' {
            lemma_compile_unanchored(
                x,
                i + 1,
                requantify(steps, RegexRep::Range { min: Some(1), max: None }),
                ended,
            );
        } else if d == '{' {
            if steps.len() == 0 {
                lemma_compile_unanchored(x, i + 1, steps, ended);
            } else if let Ok((rep, j)) = braces(x, i + 1, false, None, 0, false) {
                lemma_compile_unanchored(x, j, requantify(steps, rep), ended);
            }
        } else if d == '[' {
            if let Ok((v, j)) = bracket(x, i + 1) {
                lemma_compile_unanchored(x, j, steps.push(once(v)), ended);
            }
        } else if d == '\\' {
            if i + 1 < x.len() {
                let next_typed = char_at(x, i + 1);
                lemma_compile_unanchored(
                    x,
                    i + 2,
                    steps.push(once(RegexValView::Literal(x[i + 1]))),
                    ended,
                );
            }
        } else {
            lemma_compile_unanchored(x, i + 1, steps.push(once(RegexValView::Literal(d))), ended);
        }
    }
}

/// A pattern `^X`, with no `^` or `$` in X, compiles to the program of X followed by
/// the start sentinel (or fails as X does). It matches a non-empty line exactly when
/// X's program matches from column 0: the line begins with a match of X. An empty X
/// matches every line.
pub proof fn start_anchor_law(x: Seq<char>, l: Seq<char>)
    requires
        forall|i: int| 0 <= i < x.len() ==> #[trigger] x[i] != '^' && x[i] != '$',
        x.len() < usize::MAX,
        l.len() <= usize::MAX,
    ensures
        compile_spec(seq!['^'] + x) == with_start_anchor(compile_spec(x)),
        compile_spec(x) matches Ok(prog) ==> (l.len() > 0 ==> matches_line(
            prog.push(start_anchor()),
            l,
        ) == (prog.len() == 0 || matches_from(prog, l, 0))),
{
    let p = seq!['^'] + x;
    assert(p[0] == '^');
    lemma_compile_shift('^', x, 0, seq![], true, false);
    lemma_compile_unanchored(x, 0, seq![], false);
    assert(compile_spec(p) == compile_from(p, 1, seq![], true, false));
    if let Ok(prog) = compile_spec(x) {
        if l.len() > 0 {
            let n = prog.len();
            let full = prog.push(start_anchor());
            if n == 0 {
                assert(full_queue(1) =~= seq![0usize]);
                lemma_start_sentinel_at(prog, l, seq![], 0);
                assert(matches_from(full, l, 0));
            } else {
                assert forall|k: int| 0 <= k < l.len() implies matches_from(full, l, k) == (k == 0
                    && matches_from(prog, l, k)) by {
                    assert(full_queue(n + 1) =~= full_queue(n).push(n as usize));
                    lemma_start_sentinel_run(prog, l, full_queue(n), seq![], k, k);
                }
                if matches_from(prog, l, 0) {
                    assert(matches_from(full, l, 0));
                }
            }
        }
    }
}

} // verus!
