//! Behaviour of the matcher on literals, classes, quantifiers, alternation
//! and anchors.

use miniregex::match_pattern;

#[test]
fn match_single_character() {
    assert!(match_pattern("dog", "d"));
    assert!(!match_pattern("dog", "f"));
}

#[test]
fn match_digit() {
    assert!(match_pattern("123", r"\d"));
    assert!(!match_pattern("apple", r"\d"));
}

#[test]
fn match_alphanumeric() {
    assert!(match_pattern("word", r"\w"));
    assert!(!match_pattern("$!?", r"\w"));
}

#[test]
fn match_character_group() {
    assert!(match_pattern("a", "[abcd]"));
    assert!(!match_pattern("efgh", "[abcd]"));
}

#[test]
fn match_negative_character_group() {
    assert!(match_pattern("apple", "[^xyz]"));
    assert!(!match_pattern("banana", "[^anb]"));
}

#[test]
fn match_empty_pattern() {
    let pattern = "";
    assert!(match_pattern("dog", pattern));
}

#[test]
fn match_empty_input() {
    let pattern = "a";
    assert!(!match_pattern("", pattern));
}

#[test]
fn match_combine_character_classes() {
    assert!(match_pattern("sally has 3 apples", r"\d apple"));
    assert!(!match_pattern("sally has 1 orange", r"\d apple"));
    assert!(match_pattern("sally has 124 apples", r"\d\d\d apples"));
    assert!(!match_pattern("sally has 12 apples", r"\d\\d\\d apples"));
    assert!(match_pattern("sally has 3 dogs", r"\d \w\w\ws"));
    assert!(match_pattern("sally has 4 dogs", r"\d \w\w\ws"));
    assert!(!match_pattern("sally has 1 dog", r"\d \w\w\ws"));
}

#[test]
fn match_start_of_string_anchor() {
    assert!(match_pattern("log", "^log"));
    assert!(!match_pattern("slog", "^log"));
}

#[test]
fn match_end_of_string_anchor() {
    assert!(match_pattern("dog", "dog$"));
    assert!(!match_pattern("dogs", "dog$"));
}

#[test]
fn match_star() {
    assert!(match_pattern("ale", "ap*le"));
    assert!(match_pattern("aple", "ap*le"));
    assert!(match_pattern("apple", "ap*le"));
    assert!(match_pattern("apppppple", "ap*le"));
    assert!(!match_pattern("apple", "ap*la"));
}

#[test]
fn match_plus() {
    assert!(match_pattern("aple", "ap+le"));
    assert!(match_pattern("apple", "ap+le"));
    assert!(match_pattern("apppppple", "ap+le"));
    assert!(!match_pattern("ale", "ap+le"));
}

#[test]
fn match_question_mark() {
    assert!(match_pattern("dog", "dogs?"));
    assert!(match_pattern("dogs", "dogs?"));
    assert!(match_pattern("aple", "app?le"));
    assert!(match_pattern("apple", "app?le"));
    assert!(!match_pattern("cat", "dogs?"));
    assert!(!match_pattern("apple", "apx?le"));
}

#[test]
fn match_dot() {
    assert!(match_pattern("dog", "d.g"));
    assert!(match_pattern("dig", "d.g"));
    assert!(!match_pattern("cog", "d.g"));
}

#[test]
fn match_alternation() {
    assert!(match_pattern("cat", "(cat|dog)"));
    assert!(match_pattern("dog", "(cat|dog)"));
    assert!(!match_pattern("apple", "(cat|dog)"));
}

#[test]
fn match_alternation_with_variable_length_match() {
    assert!(match_pattern(
        "the cat is eating",
        "the (ca+t|dog) is eating"
    ));
    assert!(match_pattern(
        "the caaaaaaaat is eating",
        "the (ca+t|dog) is eating"
    ));
    assert!(match_pattern(
        "the dog is eating",
        "the (ca+t|dog) is eating"
    ));
    assert!(!match_pattern(
        "the bird is eating",
        "the (ca+t|dog) is eating"
    ));
}

#[test]
fn match_question_mark_after_alternation() {
    assert!(match_pattern("", "(cat|bird)?"));
    assert!(match_pattern("cat", "(cat|bird)?"));
    assert!(match_pattern("bird", "(cat|bird)?"));
    assert!(match_pattern("catdog", "(cat|bird)?dog"));
}
