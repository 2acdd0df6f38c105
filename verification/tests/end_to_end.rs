use grepr::match_pattern::match_pattern;
use grepr::Pattern;

fn verdict(line: &str, pattern: &str) -> bool {
    let mut compiled = Pattern::parse(pattern).unwrap();
    let found = compiled.match_line(line).unwrap();
    assert_eq!(match_pattern(line, pattern), Ok(found));
    found
}

#[test]
fn literal_lines() {
    assert!(verdict("abc", "abc"));
    assert!(!verdict("uvwxyzabde", "abc"));
}

#[test]
fn digit_lines() {
    assert!(verdict("sally has 124 apples", r"\d\d\d apples"));
    assert!(!verdict("sally has 12 apples", r"\d\d\d apples"));
}

#[test]
fn negated_class_lines() {
    assert!(verdict("x apple", "[^abc]"));
    assert!(!verdict("banana", "[^anb]"));
}

#[test]
fn anchored_lines() {
    assert!(!verdict("aabc", "^abc"));
    assert!(verdict("aabc", "abc$"));
}

#[test]
fn repetition_lines() {
    assert!(verdict("caaaats", "ca+t"));
    assert!(verdict("dog", "dogs?"));
    assert!(verdict("sddsddssas", ".+as"));
}

#[test]
fn alternation_line() {
    assert!(verdict("dog", "(dog|cat)"));
}

#[test]
fn quantifier_lines() {
    assert!(verdict("doggs", "dog{2}s"));
    assert!(!verdict("dogggs", "dog{2}s"));
    assert!(!verdict("doggggs", "dog{1,3}s"));
    assert!(verdict("doggggg", "dog{2,}"));
}

#[test]
fn whitespace_line() {
    assert!(verdict("do\tg", r"do\sg"));
}
