//! Line-oriented pattern search: the lines of a text that a pattern matches.
pub mod laws;
pub mod program_error;
pub mod regex;
pub mod text;

use vstd::prelude::*;

use program_error::ProgramError;
use regex::grammar::compile_spec;
use regex::machine::matches_line;
use regex::regex_error::RegexError;
use regex::Regex;
use text::{
    chars_of, contains_chars, lemma_split_nonempty, occurs_in, same_chars, seqs_of, split_chars,
    split_on, string_from_chars,
};
use vstd::std_specs::iter::IteratorSpec;

verus! {

/// The pattern and the path given on the command line.
#[derive(Debug)]
pub struct Arguments {
    pub regex: String,
    pub path: String,
}

impl Arguments {
    /// Given the command line (program name first), returns its pattern and path:
    /// exactly two arguments must follow the program name. Stated for iterators that
    /// yield the items they announce.
    pub fn new<I: Iterator<Item = String>>(mut args: I) -> (r: Result<Arguments, ProgramError>)
        ensures
            args.obeys_prophetic_iter_laws() ==> {
                let items = args.remaining();
                &&& items.len() < 2 ==> r == Err::<Arguments, ProgramError>(
                    ProgramError::ArgumentMissing,
                )
                &&& items.len() == 2 ==> r == Err::<Arguments, ProgramError>(
                    ProgramError::PathMissing,
                )
                &&& items.len() > 3 ==> r == Err::<Arguments, ProgramError>(
                    ProgramError::InvalidAmountOfArguments,
                )
                &&& items.len() == 3 ==> (r matches Ok(a) && a.regex == items[1] && a.path
                    == items[2])
            },
    {
        args.next();
        let regex = match args.next() {
            Some(arg) => arg,
            None => return Err(ProgramError::ArgumentMissing),
        };
        let path = match args.next() {
            Some(arg) => arg,
            None => return Err(ProgramError::PathMissing),
        };
        if args.next().is_some() {
            return Err(ProgramError::InvalidAmountOfArguments);
        }
        Ok(Arguments { regex, path })
    }
}

/// Every character is ASCII.
pub open spec fn ascii_only(s: Seq<char>) -> bool {
    forall|i: int| 0 <= i < s.len() ==> #[trigger] s[i] <= '\u{7f}'
}

/// The views of a sequence of strings.
pub open spec fn strings_of(v: Seq<String>) -> Seq<Seq<char>> {
    v.map_values(|s: String| s@)
}

/// A piece of the pattern that ends with a backslash escapes the `|` after it.
pub open spec fn ends_with_backslash(s: Seq<char>) -> bool {
    s.len() > 0 && s.last() == '\\'
}

/// Groups the pieces of a pattern between bars into alternatives: a piece ending
/// with a backslash is joined, with a literal `|`, to the piece after it. Yields
/// the alternatives complete so far and the one still being joined (empty if none).
pub open spec fn group_pieces(pieces: Seq<Seq<char>>) -> (Seq<Seq<char>>, Seq<char>)
    decreases pieces.len(),
{
    if pieces.len() == 0 {
        (seq![], seq![])
    } else {
        let (alts, pending) = group_pieces(pieces.drop_last());
        let piece = if pending.len() == 0 {
            pieces.last()
        } else {
            pending + seq!['|'] + pieces.last()
        };
        if ends_with_backslash(pieces.last()) {
            (alts, piece)
        } else {
            (alts.push(piece), seq![])
        }
    }
}

/// The alternatives of a pattern, in order.
pub open spec fn alternatives(pattern: Seq<char>) -> Seq<Seq<char>> {
    let (alts, pending) = group_pieces(split_on(pattern, '|'));
    if pending.len() == 0 {
        alts
    } else {
        alts.push(pending)
    }
}

/// The lines of a text; a newline that ends the text starts no further line.
pub open spec fn text_lines(text: Seq<char>) -> Seq<Seq<char>> {
    let pieces = split_on(text, '\n');
    if text.len() > 0 && text.last() == '\n' {
        pieces.drop_last()
    } else {
        pieces
    }
}

/// Some alternative compiles to a program that matches the line.
pub open spec fn hits(alts: Seq<Seq<char>>, line: Seq<char>) -> bool {
    exists|j: int|
        0 <= j < alts.len() && (#[trigger] compile_spec(alts[j]) matches Ok(p) && matches_line(
            p,
            line,
        ))
}

/// The lines that some alternative matches, each kept once, in the order of their
/// first occurrence.
pub open spec fn grep_lines(alts: Seq<Seq<char>>, lines: Seq<Seq<char>>) -> Seq<Seq<char>>
    decreases lines.len(),
{
    if lines.len() == 0 {
        seq![]
    } else {
        let prev = grep_lines(alts, lines.drop_last());
        let l = lines.last();
        if hits(alts, l) && !prev.contains(l) {
            prev.push(l)
        } else {
            prev
        }
    }
}

/// The first error among the compilations of the alternatives, in order.
pub open spec fn first_compile_error(alts: Seq<Seq<char>>) -> Option<RegexError>
    decreases alts.len(),
{
    if alts.len() == 0 {
        None
    } else {
        match compile_spec(alts[0]) {
            Err(e) => Some(e),
            Ok(_) => first_compile_error(alts.drop_first()),
        }
    }
}

/// What searching a text with a pattern yields. The first alternative is compiled
/// first, then every line must be ASCII, then the other alternatives are compiled;
/// the first of these to fail gives the error.
pub open spec fn grep_spec(pattern: Seq<char>, text: Seq<char>) -> Result<Seq<Seq<char>>, RegexError> {
    let alts = alternatives(pattern);
    let lines = text_lines(text);
    if alts.len() == 0 {
        Ok(seq![])
    } else if compile_spec(alts[0]) is Err {
        Err(compile_spec(alts[0])->Err_0)
    } else if exists|i: int| 0 <= i < lines.len() && !ascii_only(#[trigger] lines[i]) {
        Err(RegexError::NoAsciiCharacter)
    } else {
        match first_compile_error(alts) {
            Some(e) => Err(e),
            None => Ok(grep_lines(alts, lines)),
        }
    }
}

fn append_chars(dst: &mut Vec<char>, src: &Vec<char>)
    ensures
        final(dst)@ == old(dst)@ + src@,
{
    for i in 0..src.len()
        invariant
            dst@ == old(dst)@ + src@.take(i as int),
    {
        dst.push(src[i]);
        assert(old(dst)@ + src@.take(i + 1) =~= (old(dst)@ + src@.take(i as int)).push(src@[i as int]));
    }
    assert(src@.take(src.len() as int) =~= src@);
}

/// Splits a pattern into its alternatives.
fn alternatives_of(pattern: &Vec<char>) -> (r: Vec<Vec<char>>)
    ensures
        seqs_of(r@) == alternatives(pattern@),
{
    let pieces = split_chars(pattern, '|');
    let mut alts: Vec<Vec<char>> = Vec::new();
    let mut pending: Vec<char> = Vec::new();
    assert(seqs_of(pieces@).take(0) =~= Seq::<Seq<char>>::empty());
    assert(seqs_of(alts@) =~= Seq::<Seq<char>>::empty());
    for i in 0..pieces.len()
        invariant
            (seqs_of(alts@), pending@) == group_pieces(seqs_of(pieces@).take(i as int)),
    {
        let ghost ps = seqs_of(pieces@);
        assert(ps.take(i + 1).drop_last() =~= ps.take(i as int));
        let piece = &pieces[i];
        let mut joined: Vec<char> = Vec::new();
        if pending.len() > 0 {
            append_chars(&mut joined, &pending);
            joined.push('|');
        }
        append_chars(&mut joined, piece);
        assert(pending@.len() > 0 ==> joined@ =~= pending@ + seq!['|'] + piece@);
        assert(pending@.len() == 0 ==> joined@ =~= piece@);
        let escaped = piece.len() > 0 && piece[piece.len() - 1] == '\\';
        if escaped {
            pending = joined;
        } else {
            let ghost before = alts@;
            alts.push(joined);
            pending = Vec::new();
            assert(seqs_of(alts@) =~= seqs_of(before).push(joined@));
            assert(pending@ =~= Seq::<char>::empty());
        }
    }
    assert(seqs_of(pieces@).take(pieces.len() as int) =~= seqs_of(pieces@));
    if pending.len() > 0 {
        let ghost before = alts@;
        let ghost last = pending@;
        alts.push(pending);
        assert(seqs_of(alts@) =~= seqs_of(before).push(last));
    }
    alts
}

/// Splits a text into its lines.
fn lines_of(text: &Vec<char>) -> (r: Vec<Vec<char>>)
    ensures
        seqs_of(r@) == text_lines(text@),
{
    let mut pieces = split_chars(text, '\n');
    if text.len() > 0 && text[text.len() - 1] == '\n' {
        proof {
            lemma_split_nonempty(text@, '\n');
        }
        let ghost before = pieces@;
        pieces.pop();
        assert(seqs_of(pieces@) =~= seqs_of(before).drop_last());
    }
    pieces
}

fn is_ascii_line(line: &Vec<char>) -> (r: bool)
    ensures
        r == ascii_only(line@),
{
    for i in 0..line.len()
        invariant
            forall|j: int| 0 <= j < i ==> #[trigger] line@[j] <= '\u{7f}',
    {
        if line[i] > '\u{7f}' {
            return false;
        }
    }
    true
}

fn all_ascii(lines: &Vec<Vec<char>>) -> (r: bool)
    ensures
        r == forall|i: int| 0 <= i < lines.len() ==> ascii_only(#[trigger] seqs_of(lines@)[i]),
{
    for i in 0..lines.len()
        invariant
            forall|j: int| 0 <= j < i ==> ascii_only(#[trigger] seqs_of(lines@)[j]),
    {
        if !is_ascii_line(&lines[i]) {
            assert(!ascii_only(seqs_of(lines@)[i as int]));
            return false;
        }
    }
    true
}

fn holds_line(kept: &Vec<Vec<char>>, line: &Vec<char>) -> (r: bool)
    ensures
        r == seqs_of(kept@).contains(line@),
{
    for i in 0..kept.len()
        invariant
            forall|j: int| 0 <= j < i ==> seqs_of(kept@)[j] != line@,
    {
        if same_chars(&kept[i], line) {
            assert(seqs_of(kept@)[i as int] == line@);
            return true;
        }
    }
    false
}

fn any_program_matches(progs: &Vec<Regex>, alts: Ghost<Seq<Seq<char>>>, line: &Vec<char>) -> (r: bool)
    requires
        progs.len() == alts@.len(),
        forall|j: int| 0 <= j < progs.len() ==> compile_spec(alts@[j]) == Ok::<_, RegexError>(progs[j]@),
    ensures
        r == hits(alts@, line@),
{
    for j in 0..progs.len()
        invariant
            progs.len() == alts@.len(),
            forall|k: int| 0 <= k < progs.len() ==> compile_spec(alts@[k]) == Ok::<_, RegexError>(progs[k]@),
            forall|k: int| 0 <= k < j ==> !matches_line(progs[k]@, line@),
    {
        if progs[j].matches_chars(line) {
            assert(compile_spec(alts@[j as int]) matches Ok(p) && matches_line(p, line@));
            return true;
        }
    }
    assert forall|k: int| 0 <= k < alts@.len() implies !(#[trigger] compile_spec(alts@[k]) matches Ok(p)
        && matches_line(p, line@)) by {
        assert(compile_spec(alts@[k]) == Ok::<_, RegexError>(progs[k]@));
    }
    false
}

/// Given a pattern and a text, returns the lines of the text that the pattern
/// matches, each once, in text order. The pattern is split at each `|` into
/// alternatives (a backslash before the bar keeps it literal), and a line is
/// kept when some alternative matches it.
pub fn run_rgrep(regex_str: String, text: String) -> (r: Result<Vec<String>, String>)
    ensures
        match grep_spec(regex_str@, text@) {
            Ok(ls) => r matches Ok(v) && strings_of(v@) == ls,
            Err(e) => r matches Err(m) && m@ == e.text(),
        },
{
    let pattern = chars_of(regex_str.as_str());
    let text_chars = chars_of(text.as_str());
    let alts = alternatives_of(&pattern);
    let lines = lines_of(&text_chars);
    let ghost alt_seqs = seqs_of(alts@);
    let ghost line_seqs = seqs_of(lines@);
    if alts.len() == 0 {
        let v: Vec<String> = Vec::new();
        assert(strings_of(v@) =~= Seq::<Seq<char>>::empty());
        return Ok(v);
    }
    let mut progs: Vec<Regex> = Vec::new();
    match Regex::compile_chars(&alts[0]) {
        Ok(re) => progs.push(re),
        Err(e) => return Err(e.message().to_owned()),
    }
    if !all_ascii(&lines) {
        return Err(RegexError::NoAsciiCharacter.message().to_owned());
    }
    let mut i: usize = 1;
    while i < alts.len()
        invariant
            1 <= i <= alts.len(),
            alt_seqs == seqs_of(alts@),
            alt_seqs == alternatives(regex_str@),
            line_seqs == text_lines(text@),
            forall|j: int| 0 <= j < line_seqs.len() ==> ascii_only(#[trigger] line_seqs[j]),
            progs.len() == i,
            forall|j: int| 0 <= j < i ==> compile_spec(alt_seqs[j]) == Ok::<_, RegexError>(progs[j]@),
            first_compile_error(alt_seqs) == first_compile_error(alt_seqs.subrange(i as int, alt_seqs.len() as int)),
        decreases alts.len() - i,
    {
        let ghost rest = alt_seqs.subrange(i as int, alt_seqs.len() as int);
        assert(rest.drop_first() =~= alt_seqs.subrange(i + 1, alt_seqs.len() as int));
        match Regex::compile_chars(&alts[i]) {
            Ok(re) => progs.push(re),
            Err(e) => return Err(e.message().to_owned()),
        }
        i = i + 1;
    }
    assert(alt_seqs.subrange(i as int, alt_seqs.len() as int).len() == 0);
    let mut kept: Vec<Vec<char>> = Vec::new();
    assert(line_seqs.take(0) =~= Seq::<Seq<char>>::empty());
    assert(seqs_of(kept@) =~= Seq::<Seq<char>>::empty());
    for k in 0..lines.len()
        invariant
            line_seqs == seqs_of(lines@),
            alt_seqs == seqs_of(alts@),
            progs.len() == alts.len(),
            forall|j: int| 0 <= j < progs.len() ==> compile_spec(alt_seqs[j]) == Ok::<_, RegexError>(progs[j]@),
            seqs_of(kept@) == grep_lines(alt_seqs, line_seqs.take(k as int)),
    {
        assert(line_seqs.take(k + 1).drop_last() =~= line_seqs.take(k as int));
        let line = &lines[k];
        if !holds_line(&kept, line) && any_program_matches(&progs, Ghost(alt_seqs), line) {
            let mut copy: Vec<char> = Vec::new();
            append_chars(&mut copy, line);
            let ghost before = kept@;
            kept.push(copy);
            assert(seqs_of(kept@) =~= seqs_of(before).push(line@));
        }
    }
    assert(line_seqs.take(lines.len() as int) =~= line_seqs);
    let mut out: Vec<String> = Vec::new();
    for k in 0..kept.len()
        invariant
            strings_of(out@) == seqs_of(kept@).take(k as int),
    {
        let ghost before = out@;
        let s = string_from_chars(kept[k].as_slice());
        assert(s@ == seqs_of(kept@)[k as int]);
        out.push(s);
        assert(out@ == before.push(s));
        assert(strings_of(before) == seqs_of(kept@).take(k as int));
        assert(strings_of(out@) =~= strings_of(before).push(s@));
        assert(strings_of(out@) =~= seqs_of(kept@).take(k + 1));
    }
    assert(seqs_of(kept@).take(kept.len() as int) =~= seqs_of(kept@));
    Ok(out)
}

/// Classifies a failure to read a file by the text of its message.
pub fn process_error(message: &str) -> (r: ProgramError)
    ensures
        occurs_in("No such file or directory"@, message@) ==> r == ProgramError::InvalidFilePath,
        !occurs_in("No such file or directory"@, message@) && occurs_in(
            "stream did not contain valid UTF-8"@,
            message@,
        ) ==> r == ProgramError::InvalidFileFormat,
        !occurs_in("No such file or directory"@, message@) && !occurs_in(
            "stream did not contain valid UTF-8"@,
            message@,
        ) ==> r == ProgramError::ErrorWhileReadingFile,
{
    let text = chars_of(message);
    if contains_chars(&text, &chars_of("No such file or directory")) {
        ProgramError::InvalidFilePath
    } else if contains_chars(&text, &chars_of("stream did not contain valid UTF-8")) {
        ProgramError::InvalidFileFormat
    } else {
        ProgramError::ErrorWhileReadingFile
    }
}

} // verus!
