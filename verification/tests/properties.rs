//! Edge cases and the error channel of the validating entry point.

use miniregex::match_pattern;
use miniregex::pattern_well_formed;
use miniregex::valid_pattern;
use miniregex::RegexError;

#[test]
fn empty_pattern_matches_everything() {
    assert_eq!(miniregex::engine::matches("", "dog"), Ok(true));
    assert_eq!(miniregex::engine::matches("", ""), Ok(true));
    assert_eq!(miniregex::engine::matches("", "$!? anything at all"), Ok(true));
}

#[test]
fn empty_input_and_optional_patterns() {
    assert!(!match_pattern("", "a"));
    assert!(!match_pattern("", "[abc]"));
    assert!(!match_pattern("", r"\d"));
    assert!(match_pattern("", "a*"));
    assert!(match_pattern("", "x?"));
    assert!(match_pattern("", "(cat|bird)?"));
    assert!(!match_pattern("", "a+"));
}

#[test]
fn quantifier_boundary() {
    assert!(match_pattern("ct", "ca*t"));
    assert!(match_pattern("caaat", "ca*t"));
    assert!(!match_pattern("ct", "ca+t"));
}

#[test]
fn star_gives_characters_back() {
    assert!(match_pattern("aaa", "a*a"));
    assert!(!match_pattern("", "a*a"));
}

#[test]
fn negated_class_boundaries() {
    assert!(!match_pattern("banana", "[^anb]"));
    assert!(match_pattern("apple", "[^xyz]"));
    assert!(!match_pattern("", "[^xyz]"));
}

#[test]
fn dollar_requires_no_remaining_input() {
    assert_eq!(miniregex::engine::matches("a$", "a$b"), Ok(false));
    assert_eq!(miniregex::engine::matches("a$", "ba"), Ok(true));
    assert!(!match_pattern("a$b", "a$"));
    assert!(!match_pattern("a$b", "a$b"));
    assert!(match_pattern("any input", "$"));
}

#[test]
fn optional_token_on_empty_input_skips_to_remainder() {
    assert!(match_pattern("", "a?b*"));
    assert!(match_pattern("", "a?$"));
    assert!(!match_pattern("", "$?a"));
    assert!(!match_pattern("", "a?b"));
}

#[test]
fn repeated_calls_agree() {
    let first = match_pattern("the dog barks", "d.g");
    let second = match_pattern("the dog barks", "d.g");
    assert_eq!(first, second);
    let one = miniregex::engine::matches("(ca+t|dog)", "the caat sleeps");
    let two = miniregex::engine::matches("(ca+t|dog)", "the caat sleeps");
    assert_eq!(one, two);
}

#[test]
fn malformed_patterns_are_errors() {
    assert_eq!(miniregex::engine::matches("[abc", "x"), Err(RegexError::InvalidPattern));
    assert_eq!(miniregex::engine::matches("(a|b", "a"), Err(RegexError::InvalidPattern));
    assert_eq!(miniregex::engine::matches(r"\x", "x"), Err(RegexError::InvalidPattern));
    assert_eq!(miniregex::engine::matches("(ab)", "ab"), Err(RegexError::InvalidPattern));
    assert_eq!(miniregex::engine::matches("(a|b|c)", "a"), Err(RegexError::InvalidPattern));
}

#[test]
fn star_and_plus_do_not_apply_to_groups() {
    assert_eq!(miniregex::engine::matches("(a|b)*", "ab"), Err(RegexError::InvalidPattern));
    assert_eq!(miniregex::engine::matches("(a|b)+", "ab"), Err(RegexError::InvalidPattern));
    assert_eq!(miniregex::engine::matches("(a|b)?", "ab"), Ok(true));
}

#[test]
fn valid_patterns_are_accepted() {
    assert_eq!(miniregex::engine::matches("d.g", "the dog barks"), Ok(true));
    assert_eq!(miniregex::engine::matches("^log", "slog"), Ok(false));
    assert!(valid_pattern("ap*le"));
    assert!(valid_pattern("^(cat|dog)$"));
    assert!(!valid_pattern("[abc"));
    assert!(!valid_pattern(r"\q"));
}

#[test]
fn well_formedness_over_characters() {
    let good: Vec<char> = "a[bc]d*".chars().collect();
    assert!(pattern_well_formed(&good));
    let bad: Vec<char> = "a**".chars().collect();
    assert!(!pattern_well_formed(&bad));
}

#[test]
fn matching_is_over_characters_not_bytes() {
    assert!(match_pattern("h\u{e9}llo", "h.llo"));
    assert!(match_pattern("na\u{ef}ve", "\u{ef}"));
    assert!(!match_pattern("na\u{ef}ve", "\u{e9}"));
}
