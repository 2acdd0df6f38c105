use grepr::pattern_list::{find_byte, parse_branches, parse_group, parse_number, parse_quantifier};
use grepr::{
    CharToken, CharType, ParseError, Pattern, PatternItem, PatternList, TextToken, Token,
    TokenModifier,
};
use std::str::FromStr;

fn units(pattern: &str) -> Vec<PatternItem> {
    PatternList::from_str(pattern).unwrap().inner
}

fn error_of(pattern: &str) -> ParseError {
    let by_list = PatternList::from_str(pattern).unwrap_err();
    assert_eq!(Pattern::parse(pattern).unwrap_err(), by_list);
    assert_eq!(Pattern::from_str(pattern).unwrap_err(), by_list);
    by_list
}

fn is_plain(item: &PatternItem) -> bool {
    !item.optional && item.more_than.is_none() && item.less_than.is_none()
}

fn char_token(item: &PatternItem) -> &CharToken {
    match &item.token {
        Token::Char(token) => token,
        Token::Text(_) => panic!("a character token was expected"),
    }
}

fn branches(item: &PatternItem) -> &Vec<PatternList> {
    match &item.token {
        Token::Text(TextToken::Alteration(branches)) => branches,
        Token::Char(_) => panic!("an alternation was expected"),
    }
}

#[test]
fn empty_pattern_has_no_units() {
    let list = PatternList::from_str("").unwrap();
    assert_eq!(list.inner.len(), 0);
    assert_eq!(list.cursor, 0);
}

#[test]
fn literals_become_exact_units() {
    let list = units("a-b");
    assert_eq!(list.len(), 3);
    assert!(char_token(&list[0]).same_as(&CharToken::Exact(b'a')));
    assert!(char_token(&list[1]).same_as(&CharToken::Exact(b'-')));
    assert!(char_token(&list[2]).same_as(&CharToken::Exact(b'b')));
    assert!(list.iter().all(is_plain));
}

#[test]
fn literal_bytes_above_ascii_are_kept() {
    let list = units("é");
    assert_eq!(list.len(), 2);
    assert!(char_token(&list[0]).same_as(&CharToken::Exact(0xc3)));
    assert!(char_token(&list[1]).same_as(&CharToken::Exact(0xa9)));
}

#[test]
fn anchors_only_at_the_ends() {
    let list = units("^a^$b$");
    assert_eq!(list.len(), 6);
    assert!(char_token(&list[0]).same_as(&CharToken::StartLine));
    assert!(char_token(&list[1]).same_as(&CharToken::Exact(b'a')));
    assert!(char_token(&list[2]).same_as(&CharToken::Exact(b'^')));
    assert!(char_token(&list[3]).same_as(&CharToken::Exact(b'$')));
    assert!(char_token(&list[4]).same_as(&CharToken::Exact(b'b')));
    assert!(char_token(&list[5]).same_as(&CharToken::EndLine));
}

#[test]
fn lone_caret_is_a_start_anchor_and_lone_dollar_an_end_anchor() {
    let caret = units("^");
    assert_eq!(caret.len(), 1);
    assert!(char_token(&caret[0]).same_as(&CharToken::StartLine));
    let dollar = units("$");
    assert_eq!(dollar.len(), 1);
    assert!(char_token(&dollar[0]).same_as(&CharToken::EndLine));
}

#[test]
fn dot_is_a_wildcard() {
    let list = units(".");
    assert_eq!(list.len(), 1);
    assert!(char_token(&list[0]).same_as(&CharToken::Wildcard));
    assert!(is_plain(&list[0]));
}

#[test]
fn star_is_a_repeated_wildcard() {
    let list = units("*");
    assert_eq!(list.len(), 1);
    assert!(char_token(&list[0]).same_as(&CharToken::Wildcard));
    assert!(!list[0].optional);
    assert_eq!(list[0].more_than, Some(1));
    assert_eq!(list[0].less_than, None);
}

#[test]
fn star_takes_a_following_dot_as_a_literal() {
    let list = units("*.rs");
    assert_eq!(list.len(), 4);
    assert!(char_token(&list[0]).same_as(&CharToken::Wildcard));
    assert_eq!(list[0].more_than, Some(1));
    assert!(char_token(&list[1]).same_as(&CharToken::Exact(b'.')));
    assert!(is_plain(&list[1]));
    assert!(char_token(&list[2]).same_as(&CharToken::Exact(b'r')));
    assert!(char_token(&list[3]).same_as(&CharToken::Exact(b's')));
    let other = units("*a");
    assert_eq!(other.len(), 2);
    assert!(char_token(&other[1]).same_as(&CharToken::Exact(b'a')));
}

#[test]
fn escapes_name_kinds_or_literals() {
    let list = units(r"\d\D\w\W\s\S\.\\\(");
    assert_eq!(list.len(), 9);
    assert!(char_token(&list[0]).same_as(&CharToken::CharType(CharType::Digit)));
    assert!(char_token(&list[1]).same_as(&CharToken::CharType(CharType::NonDigit)));
    assert!(char_token(&list[2]).same_as(&CharToken::CharType(CharType::Alphanumeric)));
    assert!(char_token(&list[3]).same_as(&CharToken::CharType(CharType::NonAlphanumeric)));
    assert!(char_token(&list[4]).same_as(&CharToken::CharType(CharType::Whitespace)));
    assert!(char_token(&list[5]).same_as(&CharToken::CharType(CharType::NonWhitespace)));
    assert!(char_token(&list[6]).same_as(&CharToken::Exact(b'.')));
    assert!(char_token(&list[7]).same_as(&CharToken::Exact(b'\\')));
    assert!(char_token(&list[8]).same_as(&CharToken::Exact(b'(')));
    assert!(list.iter().all(is_plain));
}

#[test]
fn escaped_modifiers_are_literals() {
    let list = units(r"a\?\+\{");
    assert_eq!(list.len(), 4);
    assert!(list.iter().all(is_plain));
    assert!(char_token(&list[1]).same_as(&CharToken::Exact(b'?')));
    assert!(char_token(&list[2]).same_as(&CharToken::Exact(b'+')));
    assert!(char_token(&list[3]).same_as(&CharToken::Exact(b'{')));
}

#[test]
fn question_mark_marks_the_previous_unit() {
    let list = units("ab?");
    assert_eq!(list.len(), 2);
    assert!(is_plain(&list[0]));
    assert!(list[1].optional);
    assert_eq!(list[1].more_than, None);
    assert_eq!(list[1].less_than, None);
}

#[test]
fn plus_sets_a_minimum_of_one_and_no_maximum() {
    let list = units("ab+");
    assert_eq!(list.len(), 2);
    assert!(is_plain(&list[0]));
    assert!(!list[1].optional);
    assert_eq!(list[1].more_than, Some(1));
    assert_eq!(list[1].less_than, None);
}

#[test]
fn braces_set_the_bounds() {
    let list = units("a{3}b{2,}c{4,5}d{0}");
    assert_eq!(list.len(), 4);
    assert_eq!((list[0].more_than, list[0].less_than), (Some(3), Some(3)));
    assert_eq!((list[1].more_than, list[1].less_than), (Some(2), None));
    assert_eq!((list[2].more_than, list[2].less_than), (Some(4), Some(5)));
    assert_eq!((list[3].more_than, list[3].less_than), (Some(0), Some(0)));
    assert!(list.iter().all(|item| !item.optional));
}

#[test]
fn later_modifiers_build_on_earlier_ones() {
    let list = units("a{2}+b+?c?{3}d{2,4}{5,}");
    assert_eq!(list.len(), 4);
    assert_eq!((list[0].optional, list[0].more_than, list[0].less_than), (false, Some(1), None));
    assert_eq!((list[1].optional, list[1].more_than, list[1].less_than), (true, Some(1), None));
    assert_eq!((list[2].optional, list[2].more_than, list[2].less_than), (true, Some(3), Some(3)));
    assert_eq!((list[3].optional, list[3].more_than, list[3].less_than), (false, Some(5), None));
}

#[test]
fn bounds_are_not_compared() {
    let list = units("a{3,2}");
    assert_eq!((list[0].more_than, list[0].less_than), (Some(3), Some(2)));
}

#[test]
fn anchors_take_modifiers_like_any_unit() {
    let list = units("^?a");
    assert_eq!(list.len(), 2);
    assert!(char_token(&list[0]).same_as(&CharToken::StartLine));
    assert!(list[0].optional);
}

#[test]
fn brackets_list_the_bytes_of_a_class() {
    let list = units("[abc][^xy][a^][-z]");
    assert_eq!(list.len(), 4);
    assert!(char_token(&list[0]).same_as(&CharToken::Group(vec![b'a', b'b', b'c'])));
    assert!(char_token(&list[1]).same_as(&CharToken::NegativeGroup(vec![b'x', b'y'])));
    assert!(char_token(&list[2]).same_as(&CharToken::Group(vec![b'a', b'^'])));
    assert!(char_token(&list[3]).same_as(&CharToken::Group(vec![b'-', b'z'])));
    assert!(list.iter().all(is_plain));
}

#[test]
fn a_class_reads_its_bytes_raw() {
    let list = units(r"[\d(|?+{]x");
    assert_eq!(list.len(), 2);
    assert!(char_token(&list[0])
        .same_as(&CharToken::Group(vec![b'\\', b'd', b'(', b'|', b'?', b'+', b'{'])));
    let closed_early = units("[[]]");
    assert_eq!(closed_early.len(), 2);
    assert!(char_token(&closed_early[0]).same_as(&CharToken::Group(vec![b'['])));
    assert!(char_token(&closed_early[1]).same_as(&CharToken::Exact(b']')));
}

#[test]
fn a_negated_class_may_list_nothing() {
    let list = units("[^]");
    assert_eq!(list.len(), 1);
    assert!(char_token(&list[0]).same_as(&CharToken::NegativeGroup(vec![])));
}

#[test]
fn parentheses_hold_branches() {
    let list = units("(dog|cat)s");
    assert_eq!(list.len(), 2);
    assert!(is_plain(&list[0]));
    let found = branches(&list[0]);
    assert_eq!(found.len(), 2);
    assert_eq!(found[0].cursor, 0);
    assert_eq!(found[0].inner.len(), 3);
    assert!(char_token(&found[0].inner[0]).same_as(&CharToken::Exact(b'd')));
    assert!(char_token(&found[0].inner[1]).same_as(&CharToken::Exact(b'o')));
    assert!(char_token(&found[0].inner[2]).same_as(&CharToken::Exact(b'g')));
    assert_eq!(found[1].inner.len(), 3);
    assert!(char_token(&found[1].inner[0]).same_as(&CharToken::Exact(b'c')));
    assert!(char_token(&found[1].inner[2]).same_as(&CharToken::Exact(b't')));
    assert!(char_token(&list[1]).same_as(&CharToken::Exact(b's')));
}

#[test]
fn branches_are_patterns_of_their_own() {
    let list = units(r"(^a+|\d?[xy]|b$|.{2,3})");
    let found = branches(&list[0]);
    assert_eq!(found.len(), 4);
    assert_eq!(found[0].inner.len(), 2);
    assert!(char_token(&found[0].inner[0]).same_as(&CharToken::StartLine));
    assert_eq!(found[0].inner[1].more_than, Some(1));
    assert_eq!(found[1].inner.len(), 2);
    assert!(found[1].inner[0].optional);
    assert!(char_token(&found[1].inner[1]).same_as(&CharToken::Group(vec![b'x', b'y'])));
    assert_eq!(found[2].inner.len(), 2);
    assert!(char_token(&found[2].inner[1]).same_as(&CharToken::EndLine));
    assert_eq!(found[3].inner.len(), 1);
    assert_eq!((found[3].inner[0].more_than, found[3].inner[0].less_than), (Some(2), Some(3)));
}

#[test]
fn empty_branches_are_kept() {
    let list = units("(|a|)");
    let found = branches(&list[0]);
    assert_eq!(found.len(), 3);
    assert_eq!(found[0].inner.len(), 0);
    assert_eq!(found[1].inner.len(), 1);
    assert_eq!(found[2].inner.len(), 0);
    let only_bar = units("(|)");
    assert_eq!(branches(&only_bar[0]).len(), 2);
}

#[test]
fn a_branch_that_does_not_compile_fails_the_pattern() {
    assert_eq!(error_of("(a|+b)"), ParseError::ModifierWithoutToken);
    assert_eq!(error_of("(a|?b)"), ParseError::ModifierWithoutToken);
    assert_eq!(error_of("(?)"), ParseError::ModifierWithoutToken);
    assert_eq!(error_of("({2}|a)"), ParseError::ModifierWithoutToken);
    assert_eq!(error_of(r"(a|c\|b)"), ParseError::DanglingEscape);
    assert_eq!(error_of("(a|d{x})"), ParseError::BadQuantifier);
    assert_eq!(error_of("(a|[e|e)"), ParseError::UnterminatedGroup);
    assert_eq!(error_of("(a|b{})"), ParseError::EmptyGroup);
    assert_eq!(error_of("x(a|b)y(c|+)z"), ParseError::ModifierWithoutToken);
}

#[test]
fn the_first_branch_that_does_not_compile_gives_the_error() {
    assert_eq!(error_of("(+|d{x})"), ParseError::ModifierWithoutToken);
    assert_eq!(error_of("(d{x}|+)"), ParseError::BadQuantifier);
    assert_eq!(error_of(r"(a|b{x}|\)"), ParseError::BadQuantifier);
}

#[test]
fn a_group_is_read_before_its_branches() {
    assert_eq!(error_of("(+"), ParseError::UnterminatedGroup);
    assert_eq!(error_of("(+|a"), ParseError::UnterminatedGroup);
}

#[test]
fn a_modifier_in_a_branch_needs_a_unit_in_that_branch() {
    assert_eq!(error_of("a(+)"), ParseError::ModifierWithoutToken);
    assert_eq!(error_of("a(b|?)"), ParseError::ModifierWithoutToken);
    assert_eq!(units("a(b+|c?)").len(), 2);
}

#[test]
fn a_group_ends_at_the_first_closing_byte() {
    let list = units("(a|b)c)");
    assert_eq!(list.len(), 3);
    assert_eq!(branches(&list[0]).len(), 2);
    assert!(char_token(&list[1]).same_as(&CharToken::Exact(b'c')));
    assert!(char_token(&list[2]).same_as(&CharToken::Exact(b')')));
    assert_eq!(error_of("(a(b)c)"), ParseError::UnterminatedGroup);
}

#[test]
fn dangling_escape_is_rejected() {
    assert_eq!(error_of("\\"), ParseError::DanglingEscape);
    assert_eq!(error_of("ab\\"), ParseError::DanglingEscape);
}

#[test]
fn modifier_without_unit_is_rejected() {
    assert_eq!(error_of("?"), ParseError::ModifierWithoutToken);
    assert_eq!(error_of("+a"), ParseError::ModifierWithoutToken);
    assert_eq!(error_of("{2}"), ParseError::ModifierWithoutToken);
    assert_eq!(error_of("{2,}a"), ParseError::ModifierWithoutToken);
}

#[test]
fn unterminated_group_is_rejected() {
    assert_eq!(error_of("("), ParseError::UnterminatedGroup);
    assert_eq!(error_of("(ab"), ParseError::UnterminatedGroup);
    assert_eq!(error_of("a[bc"), ParseError::UnterminatedGroup);
    assert_eq!(error_of("a["), ParseError::UnterminatedGroup);
    assert_eq!(error_of("a{2"), ParseError::UnterminatedGroup);
    assert_eq!(error_of("{"), ParseError::UnterminatedGroup);
}

#[test]
fn empty_group_is_rejected() {
    assert_eq!(error_of("()"), ParseError::EmptyGroup);
    assert_eq!(error_of("a[]"), ParseError::EmptyGroup);
    assert_eq!(error_of("a{}"), ParseError::EmptyGroup);
    assert_eq!(error_of("{}"), ParseError::EmptyGroup);
}

#[test]
fn bad_quantifier_is_rejected() {
    assert_eq!(error_of("a{x}"), ParseError::BadQuantifier);
    assert_eq!(error_of("a{,}"), ParseError::BadQuantifier);
    assert_eq!(error_of("a{,3}"), ParseError::BadQuantifier);
    assert_eq!(error_of("a{2,x}"), ParseError::BadQuantifier);
    assert_eq!(error_of("a{2,3,4}"), ParseError::BadQuantifier);
    assert_eq!(error_of("a{ 2}"), ParseError::BadQuantifier);
    assert_eq!(error_of("a{-1}"), ParseError::BadQuantifier);
    assert_eq!(error_of("a{+}"), ParseError::BadQuantifier);
    assert_eq!(error_of("a{1_0}"), ParseError::BadQuantifier);
    assert_eq!(error_of("a{é}"), ParseError::BadQuantifier);
    assert_eq!(error_of("a{340282366920938463463374607431768211456}"), ParseError::BadQuantifier);
}

#[test]
fn quantifier_is_read_before_the_unit_is_looked_for() {
    assert_eq!(error_of("{x}"), ParseError::BadQuantifier);
}

#[test]
fn non_utf8_quantifier_is_rejected() {
    let broken = [b'a', b'{', 0xff, b'}'];
    assert_eq!(PatternList::parse_bytes(&broken).unwrap_err(), ParseError::NonUtf8Quantifier);
    let cut_short = [b'a', b'{', b'2', 0xc3, b'}'];
    assert_eq!(PatternList::parse_bytes(&cut_short).unwrap_err(), ParseError::NonUtf8Quantifier);
    let at_start = [b'{', 0x80, b'}'];
    assert_eq!(PatternList::parse_bytes(&at_start).unwrap_err(), ParseError::NonUtf8Quantifier);
    let well_formed = [b'a', b'{', b'2', b'}'];
    let list = PatternList::parse_bytes(&well_formed).unwrap();
    assert_eq!((list.inner[0].more_than, list.inner[0].less_than), (Some(2), Some(2)));
}

#[test]
fn bytes_that_are_not_utf8_are_literals_elsewhere() {
    let list = PatternList::parse_bytes(&[0xff, b'[', 0xfe, b']']).unwrap();
    assert_eq!(list.inner.len(), 2);
    assert!(char_token(&list.inner[0]).same_as(&CharToken::Exact(0xff)));
    assert!(char_token(&list.inner[1]).same_as(&CharToken::Group(vec![0xfe])));
}

#[test]
fn first_error_wins() {
    assert_eq!(error_of("?\\"), ParseError::ModifierWithoutToken);
    assert_eq!(error_of("a{x}("), ParseError::BadQuantifier);
    assert_eq!(error_of("(a\\"), ParseError::UnterminatedGroup);
}

#[test]
fn find_byte_gives_the_first_index() {
    assert_eq!(find_byte(b"a,b,c", 0, b','), Some(1));
    assert_eq!(find_byte(b"a,b,c", 1, b','), Some(1));
    assert_eq!(find_byte(b"a,b,c", 2, b','), Some(3));
    assert_eq!(find_byte(b"a,b,c", 4, b','), None);
    assert_eq!(find_byte(b"a,b,c", 9, b','), None);
    assert_eq!(find_byte(b"", 0, b','), None);
}

#[test]
fn parse_group_reads_up_to_the_closing_byte() {
    assert_eq!(parse_group(b"(ab)c", 1, b')'), Ok((vec![b'a', b'b'], 4)));
    assert_eq!(parse_group(b"[a]]", 1, b']'), Ok((vec![b'a'], 3)));
    assert_eq!(parse_group(b"()", 1, b')'), Err(ParseError::EmptyGroup));
    assert_eq!(parse_group(b"(ab", 1, b')'), Err(ParseError::UnterminatedGroup));
    assert_eq!(parse_group(b"(", 1, b')'), Err(ParseError::UnterminatedGroup));
    assert_eq!(parse_group(b"(", 7, b')'), Err(ParseError::UnterminatedGroup));
}

#[test]
fn parse_number_reads_decimal_digits() {
    assert_eq!(parse_number(b"0"), Some(0));
    assert_eq!(parse_number(b"7"), Some(7));
    assert_eq!(parse_number(b"42"), Some(42));
    assert_eq!(parse_number(b"007"), Some(7));
    assert_eq!(parse_number(b"+15"), Some(15));
    assert_eq!(parse_number(b"1234567890"), Some(1234567890));
    assert_eq!(parse_number(usize::MAX.to_string().as_bytes()), Some(usize::MAX));
}

#[test]
fn parse_number_rejects_what_is_no_number() {
    assert_eq!(parse_number(b""), None);
    assert_eq!(parse_number(b"+"), None);
    assert_eq!(parse_number(b"-3"), None);
    assert_eq!(parse_number(b"++3"), None);
    assert_eq!(parse_number(b"3+"), None);
    assert_eq!(parse_number(b"1a"), None);
    assert_eq!(parse_number(b" 1"), None);
    assert_eq!(parse_number(b"1 "), None);
    assert_eq!(parse_number(b"/"), None);
    assert_eq!(parse_number(b":"), None);
}

#[test]
fn parse_number_rejects_what_does_not_fit() {
    let mut too_large = usize::MAX.to_string();
    too_large.push('0');
    assert_eq!(parse_number(too_large.as_bytes()), None);
    let last = usize::MAX.to_string();
    let mut next = last.clone().into_bytes();
    let end = next.len() - 1;
    next[end] += 1;
    assert_eq!(parse_number(&next), None);
}

fn same_modifier(left: Result<TokenModifier, ParseError>, right: Result<TokenModifier, ParseError>) -> bool {
    match (left, right) {
        (Ok(TokenModifier::Exact(a)), Ok(TokenModifier::Exact(b))) => a == b,
        (Ok(TokenModifier::AtLeast(a)), Ok(TokenModifier::AtLeast(b))) => a == b,
        (Ok(TokenModifier::Between(a, b)), Ok(TokenModifier::Between(c, d))) => a == c && b == d,
        (Err(a), Err(b)) => a == b,
        _ => false,
    }
}

#[test]
fn parse_quantifier_reads_the_three_forms() {
    assert!(same_modifier(parse_quantifier(b"3"), Ok(TokenModifier::Exact(3))));
    assert!(same_modifier(parse_quantifier(b"3,"), Ok(TokenModifier::AtLeast(3))));
    assert!(same_modifier(parse_quantifier(b"3,5"), Ok(TokenModifier::Between(3, 5))));
    assert!(same_modifier(parse_quantifier(b"5,3"), Ok(TokenModifier::Between(5, 3))));
    assert!(same_modifier(parse_quantifier(b"+3,+5"), Ok(TokenModifier::Between(3, 5))));
    assert!(same_modifier(parse_quantifier(b""), Err(ParseError::BadQuantifier)));
    assert!(same_modifier(parse_quantifier(b","), Err(ParseError::BadQuantifier)));
    assert!(same_modifier(parse_quantifier(b"a,"), Err(ParseError::BadQuantifier)));
    assert!(same_modifier(parse_quantifier(b"1,,"), Err(ParseError::BadQuantifier)));
    assert!(same_modifier(parse_quantifier(&[0xe9]), Err(ParseError::NonUtf8Quantifier)));
    assert!(same_modifier(parse_quantifier("é".as_bytes()), Err(ParseError::BadQuantifier)));
}

#[test]
fn parse_branches_splits_on_bars() {
    let found = parse_branches(b"ab|c||d").unwrap();
    assert_eq!(found.len(), 4);
    assert_eq!(found[0].inner.len(), 2);
    assert_eq!(found[1].inner.len(), 1);
    assert_eq!(found[2].inner.len(), 0);
    assert_eq!(found[3].inner.len(), 1);
    assert_eq!(parse_branches(b"").unwrap().len(), 1);
    assert_eq!(parse_branches(b"|").unwrap().len(), 2);
}

#[test]
fn parse_branches_gives_the_first_error() {
    assert_eq!(parse_branches(b"+|a").unwrap_err(), ParseError::ModifierWithoutToken);
    assert_eq!(parse_branches(b"a|+").unwrap_err(), ParseError::ModifierWithoutToken);
    assert_eq!(parse_branches(b"a|{x}|+").unwrap_err(), ParseError::BadQuantifier);
    assert_eq!(parse_branches(b"a|b\\").unwrap_err(), ParseError::DanglingEscape);
}

#[test]
fn messages_name_the_error() {
    assert_eq!(
        ParseError::DanglingEscape.message(),
        "incorrect pattern: \\ symbol without value after it"
    );
    assert_eq!(
        ParseError::ModifierWithoutToken.message(),
        "incorrect modifier usage: used without token"
    );
    assert_eq!(
        ParseError::UnterminatedGroup.message(),
        "incorrect pattern group: group open without end"
    );
    assert_eq!(ParseError::EmptyGroup.message(), "incorrect group pattern: empty group");
    assert_eq!(ParseError::BadQuantifier.message(), "incorrect quantifier: value is not a number");
    assert_eq!(
        ParseError::NonUtf8Quantifier.message(),
        "incorrect quantifier: contents are not UTF-8"
    );
}
