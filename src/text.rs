//! Conversions between strings and character sequences.
use vstd::prelude::*;

verus! {

/// The characters of a string, in order.
pub fn chars_of(s: &str) -> (r: Vec<char>)
    ensures
        r@ == s@,
{
    let mut r: Vec<char> = Vec::new();
    for c in it: s.chars()
        invariant
            it.seq() == s@,
            r@ == it.seq().take(it.index() as int),
    {
        r.push(c);
    }
    r
}

/// Relies on `String: FromIterator<char>`: the string holds the given characters, in order.
#[verifier::external_body]
pub(crate) fn string_from_chars(v: &[char]) -> (r: String)
    ensures
        r@ == v@,
{
    v.iter().collect()
}

/// The views of a sequence of character vectors.
pub open spec fn seqs_of(v: Seq<Vec<char>>) -> Seq<Seq<char>> {
    v.map_values(|x: Vec<char>| x@)
}

/// The pieces of `s` between occurrences of `sep`, in order: one more piece than
/// there are separators.
pub open spec fn split_on(s: Seq<char>, sep: char) -> Seq<Seq<char>>
    decreases s.len(),
{
    if s.len() == 0 {
        seq![seq![]]
    } else {
        let rest = split_on(s.drop_last(), sep);
        if s.last() == sep {
            rest.push(seq![])
        } else {
            rest.update(rest.len() - 1, rest.last().push(s.last()))
        }
    }
}

pub proof fn lemma_split_nonempty(s: Seq<char>, sep: char)
    ensures
        split_on(s, sep).len() >= 1,
    decreases s.len(),
{
    if s.len() > 0 {
        lemma_split_nonempty(s.drop_last(), sep);
    }
}

/// Splits `s` at each occurrence of `sep`.
pub fn split_chars(s: &Vec<char>, sep: char) -> (r: Vec<Vec<char>>)
    ensures
        seqs_of(r@) == split_on(s@, sep),
{
    let mut done: Vec<Vec<char>> = Vec::new();
    let mut cur: Vec<char> = Vec::new();
    assert(s@.take(0) =~= Seq::<char>::empty());
    assert(seqs_of(done@).push(cur@) =~= split_on(s@.take(0), sep));
    for i in 0..s.len()
        invariant
            seqs_of(done@).push(cur@) == split_on(s@.take(i as int), sep),
    {
        let ghost prev = split_on(s@.take(i as int), sep);
        assert(s@.take(i + 1).drop_last() =~= s@.take(i as int));
        let c = s[i];
        let ghost old_done = done@;
        if c == sep {
            done.push(cur);
            cur = Vec::new();
            assert(seqs_of(done@) =~= seqs_of(old_done).push(prev.last()));
            assert(seqs_of(done@).push(cur@) =~= prev.push(seq![]));
        } else {
            cur.push(c);
            assert(seqs_of(done@).push(cur@) =~= prev.update(
                prev.len() - 1,
                prev.last().push(c),
            ));
        }
    }
    assert(s@.take(s.len() as int) =~= s@);
    let ghost old_done = done@;
    done.push(cur);
    assert(seqs_of(done@) =~= seqs_of(old_done).push(cur@));
    done
}

/// Whether two character vectors hold the same characters.
pub fn same_chars(a: &Vec<char>, b: &Vec<char>) -> (r: bool)
    ensures
        r == (a@ == b@),
{
    if a.len() != b.len() {
        return false;
    }
    let mut i: usize = 0;
    while i < a.len()
        invariant
            i <= a.len(),
            a.len() == b.len(),
            forall|j: int| 0 <= j < i ==> a@[j] == b@[j],
        decreases a.len() - i,
    {
        if a[i] != b[i] {
            return false;
        }
        i = i + 1;
    }
    assert(a@ =~= b@);
    true
}

/// `needle` occurs in `hay` as a contiguous piece.
pub open spec fn occurs_in(needle: Seq<char>, hay: Seq<char>) -> bool {
    exists|i: int|
        0 <= i && i + needle.len() <= hay.len() && #[trigger] hay.subrange(i, i + needle.len()) == needle
}

/// Whether `needle` occurs in `hay`.
pub fn contains_chars(hay: &Vec<char>, needle: &Vec<char>) -> (r: bool)
    ensures
        r == occurs_in(needle@, hay@),
{
    if needle.len() > hay.len() {
        return false;
    }
    if needle.len() == 0 {
        let ghost k: int = 0;
        assert(hay@.subrange(k, k + needle@.len()) =~= needle@);
        return true;
    }
    let last = hay.len() - needle.len();
    let mut i: usize = 0;
    while i <= last
        invariant
            last == hay.len() - needle.len(),
            forall|k: int| 0 <= k < i ==> #[trigger] hay@.subrange(k, k + needle.len()) != needle@,
        decreases last + 1 - i,
    {
        let mut j: usize = 0;
        while j < needle.len() && hay[i + j] == needle[j]
            invariant
                i <= last,
                last == hay.len() - needle.len(),
                j <= needle.len(),
                forall|m: int| 0 <= m < j ==> hay@[i + m] == needle@[m],
            decreases needle.len() - j,
        {
            j = j + 1;
        }
        if j == needle.len() {
            assert(hay@.subrange(i as int, i + needle.len()) =~= needle@);
            return true;
        }
        assert(hay@.subrange(i as int, i + needle.len())[j as int] != needle@[j as int]);
        i = i + 1;
    }
    assert forall|k: int| 0 <= k && k + needle.len() <= hay.len() implies #[trigger] hay@.subrange(
        k,
        k + needle.len(),
    ) != needle@ by {
        assert(k < i);
    }
    false
}

} // verus!
