use rgrep::regex::regex_error::RegexError;
use rgrep::regex::Regex;


#[test]
fn test_ascii() {
    let value = "abacdef";

    let regex = Regex::new("ab.*c").unwrap();

    let matches = regex.evaluate(value);
    assert!(matches.is_ok());
    let line = matches.unwrap();
    assert!(line.result);
}

#[test]
fn test_no_ascii() {
    let value = "abacd\u{0ba4}\u{0bbf}f";

    let regex = Regex::new("ab.*c").unwrap();

    let matches = regex.evaluate(value);
    assert!(matches.is_err());
    assert_eq!(
        matches.unwrap_err().to_string(),
        RegexError::NoAsciiCharacter.message()
    );
}

#[test]
fn test_match_point() -> Result<(), &'static str> {
    let value = "abcdefg";

    let regex = Regex::new(".").unwrap();

    let line = regex.evaluate(value)?;
    assert!(line.result);

    Ok(())
}

#[test]
fn test_match_multiple_points() -> Result<(), &'static str> {
    let value = "abcdefg";

    let regex = Regex::new("...").unwrap();

    let line = regex.evaluate(value)?;
    assert!(line.result);

    Ok(())
}

#[test]
fn test_match_more_points_than_letters() -> Result<(), &'static str> {
    let value = "abc";

    let regex = Regex::new("....").unwrap();

    let line = regex.evaluate(value)?;
    assert!(!line.result);

    Ok(())
}

#[test]
fn test_match_literal() -> Result<(), &'static str> {
    let value = "abcdef";

    let regex = Regex::new("a").unwrap();

    let line = regex.evaluate(value)?;
    assert!(line.result);

    Ok(())
}

#[test]
fn test_match_multiple_literal() -> Result<(), &'static str> {
    let value = "abcdef";

    let regex = Regex::new("abc").unwrap();

    let line = regex.evaluate(value)?;
    assert!(line.result);

    Ok(())
}

#[test]
fn test_match_middle_literals() -> Result<(), &'static str> {
    let value = "abcdef";

    let regex = Regex::new("cde").unwrap();

    let line = regex.evaluate(value)?;
    assert!(line.result);

    Ok(())
}

#[test]
fn test_no_match_middle_literals() -> Result<(), &'static str> {
    let value = "abcdef";

    let regex = Regex::new("ce").unwrap();

    let line = regex.evaluate(value)?;
    assert!(!line.result);

    Ok(())
}

#[test]
fn test_match_literal_and_point() -> Result<(), &'static str> {
    let value = "abcdef";

    let regex = Regex::new("a.c").unwrap();

    let line = regex.evaluate(value)?;
    assert!(line.result);

    Ok(())
}

#[test]
fn test_no_match_literal_and_point() -> Result<(), &'static str> {
    let value = "abcdef";

    let regex = Regex::new("a.d").unwrap();

    let line = regex.evaluate(value)?;
    assert!(!line.result);

    Ok(())
}

#[test]
fn test_match_multiple_literal_and_point() -> Result<(), &'static str> {
    let value = "abcdefghijk";

    let regex = Regex::new("c..f..i").unwrap();

    let line = regex.evaluate(value)?;
    assert!(line.result);

    Ok(())
}

#[test]
fn test_match_point_and_asterisk() -> Result<(), &'static str> {
    let value = "abcdef";

    let regex = Regex::new("ab.*e").unwrap();

    let line = regex.evaluate(value)?;
    assert!(line.result);

    Ok(())
}

#[test]
fn test_no_match_point_and_asterisk() -> Result<(), &'static str> {
    let value = "abcdef";

    let regex = Regex::new("ab.*h").unwrap();

    let line = regex.evaluate(value)?;
    assert!(!line.result);

    Ok(())
}

#[test]
fn test_match_2_point_and_asterisk() -> Result<(), &'static str> {
    let value = "ab1234cdefg";

    let regex = Regex::new("ab.*c.*f").unwrap();

    let line = regex.evaluate(value)?;
    assert!(line.result);

    Ok(())
}

#[test]
fn test_no_match_2_point_and_asterisk() -> Result<(), &'static str> {
    let value = "ab1234cdegh";

    let regex = Regex::new("ab.*c.*f").unwrap();

    let line = regex.evaluate(value)?;
    assert!(!line.result);

    Ok(())
}

#[test]
fn test_match_literal_and_asterisk() -> Result<(), &'static str> {
    let value = "ab111cde";

    let regex = Regex::new("ab1*").unwrap();

    let line = regex.evaluate(value)?;
    assert!(line.result);

    Ok(())
}

#[test]
fn test_no_match_literal_and_asterisk() -> Result<(), &'static str> {
    let value = "ab111cde";

    let regex = Regex::new("ab2*").unwrap();

    let line = regex.evaluate(value)?;
    assert!(line.result);

    Ok(())
}

#[test]
fn test_no_match_multiple_literal_and_asterisk() -> Result<(), &'static str> {
    let value = "ab111cde";

    let regex = Regex::new("ab2*g*3*").unwrap();

    let line = regex.evaluate(value)?;
    assert!(line.result);

    Ok(())
}

#[test]
fn test_match_single_asterisk() -> Result<(), &'static str> {
    let value = "abcdefghij";

    let regex = Regex::new("*").unwrap();

    let line = regex.evaluate(value)?;
    assert!(line.result);

    Ok(())
}

#[test]
fn test_match_single_point_and_asterisk() -> Result<(), &'static str> {
    let value = "abcdefghij";

    let regex = Regex::new(".*").unwrap();

    let line = regex.evaluate(value)?;
    assert!(line.result);

    Ok(())
}

#[test]
fn test_match_point_and_asterisk_at_start() -> Result<(), &'static str> {
    let value = "abcdefghij";

    let regex = Regex::new(".*abcd").unwrap();

    let line = regex.evaluate(value)?;
    assert!(line.result);

    Ok(())
}

#[test]
fn test_match_single_asterisk_and_literal() -> Result<(), &'static str> {
    let value = "abcdefghij";

    let regex = Regex::new(".*fgh").unwrap();

    let line = regex.evaluate(value)?;
    assert!(line.result);

    Ok(())
}

#[test]
fn test_match_question_mark() -> Result<(), &'static str> {
    let value = "abcdefghij";

    let regex = Regex::new("abcd?").unwrap();

    let line = regex.evaluate(value)?;
    assert!(line.result);

    Ok(())
}

#[test]
fn test_no_match_question_mark() -> Result<(), &'static str> {
    let value = "abcdefghij";

    let regex = Regex::new("abcr?").unwrap();

    let line = regex.evaluate(value)?;
    assert!(line.result);

    Ok(())
}

#[test]
fn test_match_question_mark_and_point() -> Result<(), &'static str> {
    let value = "abd";

    let regex = Regex::new("ab.?d").unwrap();
    println!("{:?}", regex);

    let line = regex.evaluate(value)?;
    assert!(line.result);

    Ok(())
}

#[test]
fn test_match_question_mark_and_literal() -> Result<(), &'static str> {
    let value = "abcdefghij";

    let regex = Regex::new("abc?de.g.*").unwrap();

    let line = regex.evaluate(value)?;
    assert!(line.result);

    Ok(())
}

#[test]
fn test_match_single_plus() -> Result<(), &'static str> {
    let value = "abcdefghij";

    let regex = Regex::new("abcd+").unwrap();

    let line = regex.evaluate(value)?;
    assert!(line.result);

    Ok(())
}

#[test]
fn test_no_match_plus() -> Result<(), &'static str> {
    let value = "abcdefghij";

    let regex = Regex::new("abce+").unwrap();

    let line = regex.evaluate(value)?;
    assert!(!line.result);

    Ok(())
}

#[test]
fn test_match_multiple_literal_plus() -> Result<(), &'static str> {
    let value = "abcddddddddef";

    let regex = Regex::new("abcd+").unwrap();

    let line = regex.evaluate(value)?;
    assert!(line.result);

    Ok(())
}

#[test]
fn test_match_question_mark_literal_and_plus() -> Result<(), &'static str> {
    let value = "abcdefghijklllllllm";

    let regex = Regex::new("abc?de.g.*l+").unwrap();

    let line = regex.evaluate(value)?;
    assert!(line.result);

    Ok(())
}

#[test]
fn test_match_middle_repetition() -> Result<(), &'static str> {
    let value = "abcccccdeeeeeefghij";

    let regex = Regex::new("c*de+fg.i?").unwrap();

    let line = regex.evaluate(value)?;
    assert!(line.result);

    Ok(())
}

#[test]
fn test_match_only_plus() -> Result<(), &'static str> {
    let value = "abcdefghij";

    let regex = Regex::new("+").unwrap();

    let line = regex.evaluate(value)?;
    assert!(line.result);

    Ok(())
}

#[test]
fn test_match_only_point_and_plus() -> Result<(), &'static str> {
    let value = "abcdefghij";

    let regex = Regex::new(".+").unwrap();

    let line = regex.evaluate(value)?;
    assert!(line.result);

    Ok(())
}

#[test]
fn test_match_only_question_mark() -> Result<(), &'static str> {
    let value = "abcdefghij";

    let regex = Regex::new("?").unwrap();

    let line = regex.evaluate(value)?;
    assert!(line.result);

    Ok(())
}

#[test]
fn test_match_only_point_and_question_mark() -> Result<(), &'static str> {
    let value = "abcdefghij";

    let regex = Regex::new(".?").unwrap();

    let line = regex.evaluate(value)?;
    assert!(line.result);

    Ok(())
}

#[test]
fn test_match_empty_line() -> Result<(), &'static str> {
    let value = "";

    let regex1 = Regex::new("*").unwrap();
    let regex2 = Regex::new("+").unwrap();
    let regex3 = Regex::new("?").unwrap();

    let line1 = regex1.evaluate(value)?;
    let line2 = regex2.evaluate(value)?;
    let line3 = regex3.evaluate(value)?;

    assert!(line1.result);
    assert!(line2.result);
    assert!(line3.result);

    Ok(())
}

#[test]
fn test_match_start_with_repetition() -> Result<(), &'static str> {
    let value = "testeo";

    let regex1 = Regex::new("*esteo").unwrap();
    let regex2 = Regex::new("+esteo").unwrap();
    let regex3 = Regex::new("?esteo").unwrap();

    let line1 = regex1.evaluate(value)?;
    let line2 = regex2.evaluate(value)?;
    let line3 = regex3.evaluate(value)?;

    assert!(line1.result);
    assert!(!line2.result);
    assert!(line3.result);

    Ok(())
}

#[test]
fn test_match_range_combination_with_start_and_end() -> Result<(), &'static str> {
    let value = "abccccc";

    let regex = Regex::new("abc{2,10}").unwrap();

    let line = regex.evaluate(value)?;
    assert!(line.result);

    Ok(())
}

#[test]
fn test_no_match_range_combination_with_start_and_end() -> Result<(), &'static str> {
    let value = "abc";

    let regex = Regex::new("abc{2,10}").unwrap();

    let line = regex.evaluate(value)?;
    assert!(!line.result);

    Ok(())
}

#[test]
fn test_match_range_combination_exact() -> Result<(), &'static str> {
    let value1 = "abccccc33";
    let value2 = "aaa";

    let regex1 = Regex::new("abc{5}").unwrap();
    let regex2 = Regex::new("a{3}").unwrap();

    let line = regex1.evaluate(value1)?;
    assert!(line.result);
    let line = regex2.evaluate(value2)?;
    assert!(line.result);

    Ok(())
}

#[test]
fn test_no_match_range_combination_exact() -> Result<(), &'static str> {
    let value = "abcc33";

    let regex = Regex::new("abc{5}").unwrap();

    let line = regex.evaluate(value)?;
    assert!(!line.result);

    Ok(())
}

#[test]
fn test_no_match_range_combination_exact_2() -> Result<(), &'static str> {
    let value = "abcccccc33";

    let regex = Regex::new("abc{5}3").unwrap();

    let line = regex.evaluate(value)?;
    assert!(!line.result);

    Ok(())
}

#[test]
fn test_match_range_combination_only_start() -> Result<(), &'static str> {
    let value = "abccccc";

    let regex = Regex::new("abc{2,}").unwrap();

    let line = regex.evaluate(value)?;
    assert!(line.result);

    Ok(())
}

#[test]
fn test_no_match_range_combination_only_start() -> Result<(), &'static str> {
    let value = "abc";

    let regex = Regex::new("abc{2,}").unwrap();

    let line = regex.evaluate(value)?;
    assert!(!line.result);

    Ok(())
}

#[test]
fn test_match_range_combination_only_end() -> Result<(), &'static str> {
    let value = "abcccd";

    let regex = Regex::new("abc{,5}").unwrap();

    let line = regex.evaluate(value)?;
    assert!(line.result);

    Ok(())
}

#[test]
fn test_no_match_range_combination_only_end() -> Result<(), &'static str> {
    let value = "abccccccd";

    let regex = Regex::new("abc{,5}d").unwrap();

    let line = regex.evaluate(value)?;
    assert!(!line.result);

    Ok(())
}

#[test]
fn test_backslash_basic() -> Result<(), &'static str> {
    let value1 = "bca.bc";
    let regex1 = Regex::new("a\\.").unwrap();
    let line1 = regex1.evaluate(value1)?;
    assert!(line1.result);

    let value2 = "bcabc";
    let regex2 = Regex::new("a\\.").unwrap();
    let line2 = regex2.evaluate(value2)?;
    assert!(!line2.result);

    let value3 = "{abc";
    let regex3 = Regex::new("\\{abc").unwrap();
    let line3 = regex3.evaluate(value3)?;
    assert!(line3.result);

    let value4 = "abc";
    let regex4 = Regex::new("\\abc").unwrap();
    let line4 = regex4.evaluate(value4)?;
    assert!(line4.result);

    let value5 = ".e+e?e";
    let regex5 = Regex::new("\\.e\\+e\\?e").unwrap();
    let line5 = regex5.evaluate(value5)?;
    assert!(line5.result);

    let regex6 = Regex::new("abc\\").unwrap_err();
    assert_eq!(regex6, "Invalid regex: invalid backslash");

    Ok(())
}

#[test]
fn test_backslash_backslash() -> Result<(), &'static str> {
    let value1 = "bca\\bc";
    let regex1 = Regex::new("a\\\\b").unwrap();
    let line1 = regex1.evaluate(value1)?;
    assert!(line1.result);

    let value2 = "bcabc";
    let regex2 = Regex::new("a\\\\b").unwrap();
    let line2 = regex2.evaluate(value2)?;
    assert!(!line2.result);

    Ok(())
}

#[test]
fn test_anchoring_start() -> Result<(), &'static str> {
    let value1 = "start middle end";
    let value2 = "start with start";
    let value3 = "end with end";
    let value4 = "only this line";

    let regex = Regex::new("^start").unwrap();

    let line1 = regex.clone().evaluate(value1)?;
    let line2 = regex.clone().evaluate(value2)?;
    let line3 = regex.clone().evaluate(value3)?;
    let line4 = regex.evaluate(value4)?;

    assert!(line1.result);
    assert!(line2.result);
    assert!(!line3.result);
    assert!(!line4.result);

    Ok(())
}

#[test]
fn test_anchoring_end() -> Result<(), &'static str> {
    let value1 = "start middle end";
    let value2 = "start with start";
    let value3 = "end with end";
    let value4 = "only this line";

    let regex = Regex::new("end$").unwrap();

    let line1 = regex.clone().evaluate(value1)?;
    let line2 = regex.clone().evaluate(value2)?;
    let line3 = regex.clone().evaluate(value3)?;
    let line4 = regex.evaluate(value4)?;

    assert!(line1.result);
    assert!(!line2.result);
    assert!(line3.result);
    assert!(!line4.result);

    Ok(())
}

#[test]
fn test_anchoring_fails() -> Result<(), &'static str> {
    let value1 = "start middle end";
    let regex1 = Regex::new("^middle").unwrap();
    let line1 = regex1.evaluate(value1)?;
    assert!(!line1.result);

    let value2 = "start middle end";
    let regex2 = Regex::new("middle$").unwrap();
    let line2 = regex2.evaluate(value2)?;
    assert!(!line2.result);

    Ok(())
}

#[test]
fn test_bracket_expressions() -> Result<(), &'static str> {
    let value1 = "abc";
    let value2 = "acc";
    let value3 = "azc";
    let value4 = "a9c";
    let value5 = "a3";
    let value6 = "ae";
    let value7 = "aec";
    let value8 = "aaaaaaeccccccc";
    let value9 = "aabcdefc";

    let regex = Regex::new("a[abcdef]c").unwrap();

    let line1 = regex.clone().evaluate(value1)?;
    let line2 = regex.clone().evaluate(value2)?;
    let line3 = regex.clone().evaluate(value3)?;
    let line4 = regex.clone().evaluate(value4)?;
    let line5 = regex.clone().evaluate(value5)?;
    let line6 = regex.clone().evaluate(value6)?;
    let line7 = regex.clone().evaluate(value7)?;
    let line8 = regex.clone().evaluate(value8)?;
    let line9 = regex.evaluate(value9)?;

    assert!(line1.result);
    assert!(line2.result);
    assert!(!line3.result);
    assert!(!line4.result);
    assert!(!line5.result);
    assert!(!line6.result);
    assert!(line7.result);
    assert!(line8.result);
    assert!(line9.result);

    Ok(())
}

#[test]
fn test_negated_bracket_expressions() -> Result<(), &'static str> {
    let value1 = "abc";
    let value2 = "acc";
    let value3 = "azc";
    let value4 = "a9c";
    let value5 = "a3";
    let value6 = "ae";
    let value7 = "aec";
    let value8 = "aaaaaaeccccccc";
    let value9 = "ahcalcazcakc";

    let regex = Regex::new("a[^ghijkl]c").unwrap();

    let line1 = regex.clone().evaluate(value1)?;
    let line2 = regex.clone().evaluate(value2)?;
    let line3 = regex.clone().evaluate(value3)?;
    let line4 = regex.clone().evaluate(value4)?;
    let line5 = regex.clone().evaluate(value5)?;
    let line6 = regex.clone().evaluate(value6)?;
    let line7 = regex.clone().evaluate(value7)?;
    let line8 = regex.clone().evaluate(value8)?;
    let line9 = regex.evaluate(value9)?;

    assert!(line1.result);
    assert!(line2.result);
    assert!(line3.result);
    assert!(line4.result);
    assert!(!line5.result);
    assert!(!line6.result);
    assert!(line7.result);
    assert!(line8.result);
    assert!(line9.result);

    Ok(())
}

const VALUE1: &str = "abc";
const VALUE2: &str = "a1c";
const VALUE3: &str = "a%c";
const VALUE4: &str = "aBc";
const VALUE5: &str = "a c";
const VALUE6: &str = "a-c";

#[test]
fn test_regex_alnum_class() -> Result<(), &'static str> {
    // Alphanumeric
    let alnum_regex = Regex::new("a[[:alnum:]]c").unwrap();

    let alnum_line1 = alnum_regex.clone().evaluate(VALUE1)?;
    let alnum_line2 = alnum_regex.clone().evaluate(VALUE2)?;
    let alnum_line3 = alnum_regex.clone().evaluate(VALUE3)?;
    let alnum_line4 = alnum_regex.clone().evaluate(VALUE4)?;
    let alnum_line5 = alnum_regex.clone().evaluate(VALUE5)?;
    let alnum_line6 = alnum_regex.evaluate(VALUE6)?;

    assert!(alnum_line1.result);
    assert!(alnum_line2.result);
    assert!(!alnum_line3.result);
    assert!(alnum_line4.result);
    assert!(!alnum_line5.result);
    assert!(!alnum_line6.result);

    Ok(())
}

#[test]
fn test_regex_alpha_class() -> Result<(), &'static str> {
    // Alphabetic
    let alpha_regex = Regex::new("a[[:alpha:]]c").unwrap();

    let alpha_line1 = alpha_regex.clone().evaluate(VALUE1)?;
    let alpha_line2 = alpha_regex.clone().evaluate(VALUE2)?;
    let alpha_line3 = alpha_regex.clone().evaluate(VALUE3)?;
    let alpha_line4 = alpha_regex.clone().evaluate(VALUE4)?;
    let alpha_line5 = alpha_regex.clone().evaluate(VALUE5)?;
    let alpha_line6 = alpha_regex.evaluate(VALUE6)?;

    assert!(alpha_line1.result);
    assert!(!alpha_line2.result);
    assert!(!alpha_line3.result);
    assert!(alpha_line4.result);
    assert!(!alpha_line5.result);
    assert!(!alpha_line6.result);

    Ok(())
}

#[test]
fn test_regex_digit_class() -> Result<(), &'static str> {
    // Digit - Numeric
    let digit_regex = Regex::new("a[[:digit:]]c").unwrap();

    let digit_line1 = digit_regex.clone().evaluate(VALUE1)?;
    let digit_line2 = digit_regex.clone().evaluate(VALUE2)?;
    let digit_line3 = digit_regex.clone().evaluate(VALUE3)?;
    let digit_line4 = digit_regex.clone().evaluate(VALUE4)?;
    let digit_line5 = digit_regex.clone().evaluate(VALUE5)?;
    let digit_line6 = digit_regex.evaluate(VALUE6)?;

    assert!(!digit_line1.result);
    assert!(digit_line2.result);
    assert!(!digit_line3.result);
    assert!(!digit_line4.result);
    assert!(!digit_line5.result);
    assert!(!digit_line6.result);

    Ok(())
}

#[test]
fn test_regex_lower_class() -> Result<(), &'static str> {
    // Lowercase letters
    let lower_regex = Regex::new("a[[:lower:]]c").unwrap();

    let lower_line1 = lower_regex.clone().evaluate(VALUE1)?;
    let lower_line2 = lower_regex.clone().evaluate(VALUE2)?;
    let lower_line3 = lower_regex.clone().evaluate(VALUE3)?;
    let lower_line4 = lower_regex.clone().evaluate(VALUE4)?;
    let lower_line5 = lower_regex.clone().evaluate(VALUE5)?;
    let lower_line6 = lower_regex.evaluate(VALUE6)?;

    assert!(lower_line1.result);
    assert!(!lower_line2.result);
    assert!(!lower_line3.result);
    assert!(!lower_line4.result);
    assert!(!lower_line5.result);
    assert!(!lower_line6.result);

    Ok(())
}

#[test]
fn test_regex_upper_class() -> Result<(), &'static str> {
    // Uppercase letters
    let upper_regex = Regex::new("a[[:upper:]]c").unwrap();

    let upper_line1 = upper_regex.clone().evaluate(VALUE1)?;
    let upper_line2 = upper_regex.clone().evaluate(VALUE2)?;
    let upper_line3 = upper_regex.clone().evaluate(VALUE3)?;
    let upper_line4 = upper_regex.clone().evaluate(VALUE4)?;
    let upper_line5 = upper_regex.clone().evaluate(VALUE5)?;
    let upper_line6 = upper_regex.evaluate(VALUE6)?;

    assert!(!upper_line1.result);
    assert!(!upper_line2.result);
    assert!(!upper_line3.result);
    assert!(upper_line4.result);
    assert!(!upper_line5.result);
    assert!(!upper_line6.result);

    Ok(())
}

#[test]
fn test_regex_space_class() -> Result<(), &'static str> {
    // Space character
    let space_regex = Regex::new("a[[:space:]]c").unwrap();

    let space_line1 = space_regex.clone().evaluate(VALUE1)?;
    let space_line2 = space_regex.clone().evaluate(VALUE2)?;
    let space_line3 = space_regex.clone().evaluate(VALUE3)?;
    let space_line4 = space_regex.clone().evaluate(VALUE4)?;
    let space_line5 = space_regex.clone().evaluate(VALUE5)?;
    let space_line6 = space_regex.evaluate(VALUE6)?;

    assert!(!space_line1.result);
    assert!(!space_line2.result);
    assert!(!space_line3.result);
    assert!(!space_line4.result);
    assert!(space_line5.result);
    assert!(!space_line6.result);

    Ok(())
}

#[test]
fn test_regex_punct_class() -> Result<(), &'static str> {
    // Punctuation character
    let punct_regex = Regex::new("a[[:punct:]]c").unwrap();

    let punct_line1 = punct_regex.clone().evaluate(VALUE1)?;
    let punct_line2 = punct_regex.clone().evaluate(VALUE2)?;
    let punct_line3 = punct_regex.clone().evaluate(VALUE3)?;
    let punct_line4 = punct_regex.clone().evaluate(VALUE4)?;
    let punct_line5 = punct_regex.clone().evaluate(VALUE5)?;
    let punct_line6 = punct_regex.evaluate(VALUE6)?;

    assert!(!punct_line1.result);
    assert!(!punct_line2.result);
    assert!(punct_line3.result);
    assert!(!punct_line4.result);
    assert!(!punct_line5.result);
    assert!(punct_line6.result);

    Ok(())
}
