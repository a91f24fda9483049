use mcp_user_stories::text::{
    blank, char_is_whitespace, chars_of, decimal_text, fold_case, like_match, make_search_pattern,
    search_matches, signed_decimal_text, starts_with,
};

fn like(pattern: &str, text: &str) -> bool {
    like_match(&pattern.chars().collect(), &text.chars().collect())
}

fn finds(query: &str, text: &str) -> bool {
    search_matches(&make_search_pattern(query), text)
}

#[test]
fn white_space_is_what_the_standard_library_calls_so() {
    for code in 0..=0x10FFFFu32 {
        if let Some(c) = char::from_u32(code) {
            assert_eq!(char_is_whitespace(c), c.is_whitespace(), "U+{:04X}", code);
        }
    }
}

#[test]
fn blank_is_what_trimming_leaves_empty() {
    for text in ["", " ", "\t\n\r", "\u{a0}\u{2003}", "a", " a ", "\u{200b}", "  .", "\u{85}\u{1680}\u{3000}"] {
        assert_eq!(blank(text), text.trim().is_empty(), "{:?}", text);
    }
    assert!(blank(""));
    assert!(!blank(" x "));
}

#[test]
fn prefix_is_tested_character_by_character() {
    assert!(starts_with("US-1", "US-"));
    assert!(starts_with("US-", "US-"));
    assert!(starts_with("US-", ""));
    assert!(starts_with("", ""));
    assert!(!starts_with("US", "US-"));
    assert!(!starts_with("us-1", "US-"));
    assert!(!starts_with("XUS-1", "US-"));
    assert!(!starts_with("", "US-"));
    assert!(starts_with("\u{e9}t\u{e9}", "\u{e9}t"));
}

#[test]
fn characters_are_read_in_order() {
    assert_eq!(chars_of("a\u{e9}\u{1F600}z"), vec!['a', '\u{e9}', '\u{1F600}', 'z']);
    assert_eq!(chars_of(""), Vec::<char>::new());
    assert_eq!(make_search_pattern("ab"), vec!['%', 'a', 'b', '%']);
    assert_eq!(make_search_pattern(""), vec!['%', '%']);
}

#[test]
fn only_the_basic_letters_lose_their_case() {
    assert_eq!(fold_case('a'), 'A' as u32);
    assert_eq!(fold_case('z'), 'Z' as u32);
    assert_eq!(fold_case('A'), 'A' as u32);
    assert_eq!(fold_case('`'), '`' as u32);
    assert_eq!(fold_case('{'), '{' as u32);
    assert_eq!(fold_case('5'), '5' as u32);
    assert_eq!(fold_case('\u{e9}'), 0xe9);
    assert_eq!(fold_case('\u{c9}'), 0xc9);
}

#[test]
fn patterns_match_whole_texts() {
    assert!(like("", ""));
    assert!(!like("", "a"));
    assert!(like("abc", "abc"));
    assert!(like("abc", "ABC"));
    assert!(like("ABC", "abc"));
    assert!(!like("abc", "abcd"));
    assert!(!like("abc", "ab"));
    assert!(like("%", ""));
    assert!(like("%", "anything"));
    assert!(like("%%", ""));
    assert!(like("a%", "a"));
    assert!(like("a%", "abc"));
    assert!(!like("a%", "ba"));
    assert!(like("%c", "abc"));
    assert!(!like("%c", "abcd"));
    assert!(like("a%c", "ac"));
    assert!(like("a%c", "abbbc"));
    assert!(like("a%c", "acbc"));
    assert!(!like("a%c", "acb"));
    assert!(like("_", "x"));
    assert!(!like("_", ""));
    assert!(!like("_", "xy"));
    assert!(like("a_c", "abc"));
    assert!(like("a_c", "a%c"));
    assert!(!like("a_c", "ac"));
    assert!(like("%a_c%", "xxabcxx"));
    assert!(like("%_%", "x"));
    assert!(!like("%_%", ""));
    assert!(like("%a%b%a%", "xaxbxax"));
    assert!(!like("%a%b%a%", "xaxbx"));
    assert!(like("\u{e9}", "\u{e9}"));
    assert!(!like("\u{e9}", "\u{c9}"));
    assert!(like("_", "\u{1F600}"));
    assert!(like("%%%%%%%%%%%%%%%%%%%%%%%%%%%%%%x", "aaaaaaaaaaaaaaaaaaaaaaaaaaaaaaaaaaaaaaaaaaaaaaaaaax"));
    assert!(!like("%a%a%a%a%a%a%a%a%a%a%a%a%a%a%a%a%b", "aaaaaaaaaaaaaaaaaaaaaaaaaaaaaaaaaaaaaaaaaaaaaaaaaaaaaaaa"));
}

#[test]
fn search_finds_the_query_anywhere_in_the_text() {
    assert!(finds("login", "User Login Feature"));
    assert!(finds("LOGIN", "the login page"));
    assert!(finds("login", "login"));
    assert!(!finds("login", "log in"));
    assert!(!finds("login", ""));
    assert!(finds("", ""));
    assert!(finds("", "anything"));
    assert!(finds("FINDME", "Searchable Story FINDME"));
    // In a query the two signs of a pattern keep their meaning.
    assert!(finds("%", "anything"));
    assert!(finds("l_gin", "login"));
    assert!(finds("user%feature", "User Login Feature"));
    assert!(!finds("feature%user", "User Login Feature"));
    assert!(finds("100%", "100 percent"));
    for (query, text) in [("ab", "xxabxx"), ("Ab", "xaBx"), ("ab", "ba"), ("a", "A"), ("zz", "z")] {
        assert_eq!(finds(query, text), text.to_lowercase().contains(&query.to_lowercase()));
    }
}

#[test]
fn numbers_are_written_in_decimal() {
    for n in [0u64, 1, 9, 10, 11, 19, 20, 21, 99, 100, 101, 12345, 1_000_000_007, u64::MAX] {
        assert_eq!(decimal_text(n), n.to_string());
    }
    for n in [0i64, 1, -1, 20, -20, 10, -10, 1234567890123, i64::MAX, i64::MIN, i64::MIN + 1] {
        assert_eq!(signed_decimal_text(n), n.to_string());
    }
    assert_eq!(decimal_text(20), "20");
    assert_eq!(signed_decimal_text(-305), "-305");
}
