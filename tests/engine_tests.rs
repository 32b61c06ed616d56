use std::convert::TryFrom;
use rgrep::program_error::ProgramError;
use rgrep::regex::regex_class::{determinate_regex_class, RegexClass};
use rgrep::regex::regex_error::RegexError;
use rgrep::regex::regex_rep::RegexRep;
use rgrep::regex::regex_val::RegexVal;
use rgrep::regex::Regex;
use rgrep::{process_error, run_rgrep};

fn eval(pattern: &str, line: &str) -> bool {
    Regex::new(pattern).unwrap().evaluate(line).unwrap().result
}

fn grep(pattern: &str, text: &str) -> Vec<String> {
    run_rgrep(pattern.to_string(), text.to_string()).unwrap()
}

#[test]
fn start_anchor_needs_the_first_column() {
    assert!(eval("^abc", "abcdef"));
    assert!(eval("^abc", "abc"));
    assert!(!eval("^abc", "xabc"));
    assert!(!eval("^abc", "ab"));
    assert!(eval("^", ""));
    assert!(eval("^", "text"));
}

#[test]
fn start_anchor_allows_any_start_match() {
    assert!(eval("^a+", "aa"));
    assert!(eval("^ab*", "abb"));
    assert!(eval("^a*b", "aaab"));
    assert!(!eval("^a+b", "xaab"));
    assert!(eval("^a?b", "b"));
}

#[test]
fn only_the_first_end_anchor_counts() {
    let regex = Regex::compile("a$$").unwrap();
    assert_eq!(regex.steps.len(), 3);
    assert_eq!(regex.steps.iter().filter(|s| s.anchoring_end).count(), 1);
    assert!(eval("a$$", "ba"));
    assert!(!eval("a$$", "ab"));
}

#[test]
fn try_from_compiles() {
    assert!(Regex::try_from("a+").is_ok());
    assert_eq!(Regex::try_from("a{").unwrap_err(), "Invalid regex: invalid range");
}

#[test]
fn end_anchor_needs_the_last_column() {
    assert!(eval("abc$", "xxabc"));
    assert!(!eval("abc$", "abcx"));
    assert!(!eval("ab$", "xb"));
    assert!(!eval("a$", "xy"));
    assert!(eval("a$", "ya"));
    assert!(!eval("a$", ""));
}

#[test]
fn quantifier_sugar_agrees() {
    for line in ["", "a", "b", "aaa", "bab", "xyz"] {
        assert_eq!(eval("a{1,}", line), eval("a+", line));
        assert_eq!(eval("a{0,1}", line), eval("a?", line));
        assert_eq!(eval("a{0,}", line), eval("a*", line));
    }
    assert!(!eval("a*", ""));
    assert!(eval("a*", "b"));
}

#[test]
fn bracket_or_its_negation_matches() {
    for line in ["a", "z", "9", " ", "cab"] {
        assert!(eval("[abc]", line) || eval("[^abc]", line));
    }
    assert!(eval("[abc]", "zzc"));
    assert!(!eval("[^abc]", "cab"));
}

#[test]
fn lone_quantifiers_match_the_empty_line() {
    assert!(eval("*", ""));
    assert!(eval("?", ""));
    assert!(eval("+", ""));
    assert!(eval(".", ""));
    assert!(!eval("a", ""));
}

#[test]
fn compile_is_repeatable() {
    let first = format!("{:?}", Regex::new("a[bc]{2,3}$").unwrap());
    let second = format!("{:?}", Regex::new("a[bc]{2,3}$").unwrap());
    assert_eq!(first, second);
}

#[test]
fn non_ascii_lines_are_rejected() {
    let regex = Regex::new("a").unwrap();
    assert_eq!(
        regex.evaluate("\u{e9}a").unwrap_err(),
        RegexError::NoAsciiCharacter.message()
    );
    assert_eq!(
        run_rgrep("a".to_string(), "abc\nd\u{e9}f".to_string()).unwrap_err(),
        "Non-ascii characters in input"
    );
}

#[test]
fn compile_errors() {
    assert_eq!(Regex::compile("a{2x}").unwrap_err(), RegexError::InvalidRange);
    assert_eq!(Regex::compile("a{1,2,3}").unwrap_err(), RegexError::InvalidRange);
    assert_eq!(Regex::compile("a{2").unwrap_err(), RegexError::InvalidRange);
    assert_eq!(
        Regex::compile("a{99999999999999999999999}").unwrap_err(),
        RegexError::InvalidRange
    );
    assert_eq!(Regex::compile("[abc").unwrap_err(), RegexError::InvalidBracket);
    assert_eq!(Regex::compile("[").unwrap_err(), RegexError::InvalidBracket);
    assert_eq!(Regex::compile("[[:foo:]]").unwrap_err(), RegexError::InvalidClass);
    assert_eq!(Regex::compile("[[:alpha").unwrap_err(), RegexError::InvalidClass);
    assert_eq!(Regex::compile("[a\\").unwrap_err(), RegexError::InvalidBackslash);
    assert_eq!(Regex::compile("abc\\").unwrap_err(), RegexError::InvalidBackslash);
    assert_eq!(Regex::new("[x").unwrap_err(), "Invalid bracket in regex");
    assert_eq!(Regex::new("[[:x:]]").unwrap_err(), "Invalid character class in regex");
    assert_eq!(Regex::new("x{,a}").unwrap_err(), "Invalid regex: invalid range");
}

#[test]
fn compiled_steps() {
    let regex = Regex::compile("a{2,4}").unwrap();
    assert_eq!(regex.steps.len(), 1);
    assert_eq!(regex.steps[0].rep, RegexRep::Range { min: Some(2), max: Some(4) });
    let regex = Regex::compile("a{0,1}").unwrap();
    assert_eq!(regex.steps[0].rep, RegexRep::Range { min: Some(0), max: Some(1) });
    let regex = Regex::compile("a{,3}").unwrap();
    assert_eq!(regex.steps[0].rep, RegexRep::Range { min: None, max: Some(3) });
    let regex = Regex::compile("a{7}").unwrap();
    assert_eq!(regex.steps[0].rep, RegexRep::Exact(7));
    let regex = Regex::compile("{2}").unwrap();
    assert_eq!(regex.steps.len(), 2);
    let regex = Regex::compile("ab$").unwrap();
    assert_eq!(regex.steps.len(), 4);
    assert!(regex.steps[3].anchoring_end);
    assert_eq!(regex.steps[0].rep, RegexRep::Any);
    let regex = Regex::compile("^ab").unwrap();
    assert_eq!(regex.steps.len(), 3);
    assert!(regex.steps[2].anchoring_start);
}

#[test]
fn repetitions() {
    assert!(eval("ab{0}", "a"));
    assert!(!eval("ab?c", "az"));
    assert!(eval("ab?c", "xac"));
    assert!(eval("a.*b", "a123b"));
    assert!(!eval("a.+b", "ab"));
    assert!(eval("a{2}b", "xaab"));
    assert!(!eval("a{2}b", "xab"));
}

#[test]
fn atom_widths() {
    assert_eq!(RegexVal::Literal('a').matches("abc"), 1);
    assert_eq!(RegexVal::Literal('a').matches("bc"), 0);
    assert_eq!(RegexVal::Literal('a').matches(""), 0);
    assert_eq!(RegexVal::Wildcard.matches("\u{e9}x"), 2);
    assert_eq!(RegexVal::Wildcard.matches("\u{20ac}"), 3);
    assert_eq!(RegexVal::Wildcard.matches("\u{1f600}"), 4);
    assert_eq!(RegexVal::Bracket(vec!['x', 'y']).matches("yes"), 1);
    assert_eq!(RegexVal::NotBracket(vec!['x', 'y']).matches("yes"), 0);
    assert_eq!(RegexVal::NotBracket(vec!['x', 'y']).matches("no"), 1);
    assert_eq!(RegexVal::Class(RegexClass::Digit).matches("7a"), 1);
    assert_eq!(RegexVal::Class(RegexClass::Digit).matches("a7"), 0);
}

#[test]
fn classes_by_name() {
    assert_eq!(determinate_regex_class("alnum".to_string()), Ok(RegexClass::Alnum));
    assert_eq!(determinate_regex_class("punct".to_string()), Ok(RegexClass::Punct));
    assert_eq!(determinate_regex_class("Alpha".to_string()), Err(RegexError::InvalidClass));
    assert!(RegexClass::Space.matches('\t'));
    assert!(RegexClass::Punct.matches('~'));
    assert!(!RegexClass::Punct.matches('a'));
    assert!(RegexClass::Upper.matches('Q'));
    assert!(!RegexClass::Lower.matches('Q'));
    assert!(RegexClass::Alnum.matches('5'));
}

#[test]
fn grep_keeps_text_order_once() {
    assert_eq!(grep("a", "a\nb\na"), vec!["a"]);
    assert_eq!(grep("a|b", "a\na\nb"), vec!["a", "b"]);
    assert_eq!(grep("b|a", "a\nb\nc"), vec!["a", "b"]);
    assert_eq!(grep("x", "a\nb"), Vec::<String>::new());
}

#[test]
fn grep_lines_and_bars() {
    assert_eq!(grep("*", "a\n"), vec!["a"]);
    assert_eq!(grep("*", "a\n\nb"), vec!["a", "", "b"]);
    assert_eq!(grep("a\\|b", "a|b\nab"), vec!["a|b"]);
    assert_eq!(grep("z|q\\|", "aaa\nqqqq|\n|pppp"), vec!["qqqq|"]);
    assert_eq!(
        run_rgrep("a|[b".to_string(), "a".to_string()).unwrap_err(),
        "Invalid bracket in regex"
    );
}

#[test]
fn read_errors_by_message() {
    assert_eq!(
        process_error("No such file or directory (os error 2)"),
        ProgramError::InvalidFilePath
    );
    assert_eq!(
        process_error("stream did not contain valid UTF-8"),
        ProgramError::InvalidFileFormat
    );
    assert_eq!(process_error("permission denied"), ProgramError::ErrorWhileReadingFile);
    assert_eq!(
        ProgramError::InvalidFilePath.message(),
        "Invalid file path"
    );
}
