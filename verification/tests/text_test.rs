use ontology_core::text::{
    chars_of, clone_names, contains_str, escape_quotes, i64_to_string, join, parse_u64,
    push_unique, replace_char, scan_for, str_eq, strip_prefix, substring, u64_to_string,
};

#[test]
fn decimal_text_of_integers() {
    assert_eq!(u64_to_string(0), "0");
    assert_eq!(u64_to_string(1000), "1000");
    assert_eq!(u64_to_string(u64::MAX), "18446744073709551615");
    assert_eq!(i64_to_string(-42), "-42");
    assert_eq!(i64_to_string(i64::MIN), "-9223372036854775808");
    assert_eq!(i64_to_string(i64::MAX), "9223372036854775807");
}

#[test]
fn replace_and_escape() {
    assert_eq!(replace_char("a-b-c", '-', '_'), "a_b_c");
    assert_eq!(escape_quotes("say \"hi\""), "say \\\"hi\\\"");
    assert_eq!(escape_quotes(""), "");
}

#[test]
fn join_puts_the_separator_between() {
    assert_eq!(join(&vec![], ", "), "");
    assert_eq!(join(&vec!["a".to_string()], ", "), "a");
    assert_eq!(join(&vec!["a".to_string(), "b".to_string(), "c".to_string()], ", "), "a, b, c");
}

#[test]
fn numbers_are_read_in_their_one_decimal_form() {
    assert_eq!(parse_u64("0"), Some(0));
    assert_eq!(parse_u64("42"), Some(42));
    assert_eq!(parse_u64("18446744073709551615"), Some(u64::MAX));
    assert_eq!(parse_u64("18446744073709551616"), None);
    assert_eq!(parse_u64("99999999999999999999999"), None);
    assert_eq!(parse_u64(""), None);
    assert_eq!(parse_u64("007"), None);
    assert_eq!(parse_u64("-1"), None);
    assert_eq!(parse_u64("1a"), None);
    assert_eq!(parse_u64("١٢"), None);
    for n in [0u64, 9, 10, 99, 100, 12345678901234567890] {
        assert_eq!(parse_u64(&u64_to_string(n)), Some(n));
    }
}

#[test]
fn prefixes_and_parts_of_texts() {
    assert_eq!(strip_prefix("ontology_user_v1", "ontology_user"), Some("_v1".to_string()));
    assert_eq!(strip_prefix("abc", "abc"), Some(String::new()));
    assert_eq!(strip_prefix("abc", ""), Some("abc".to_string()));
    assert_eq!(strip_prefix("ab", "abc"), None);
    assert_eq!(strip_prefix("xbc", "abc"), None);
    assert_eq!(strip_prefix("äöü", "ä"), Some("öü".to_string()));
    let chars = chars_of("a:b:c");
    assert_eq!(chars, vec!['a', ':', 'b', ':', 'c']);
    assert_eq!(substring(&chars, 2, 5), "b:c");
    assert_eq!(substring(&chars, 1, 1), "");
    assert_eq!(scan_for(&chars, ':'), (2, 1));
    assert_eq!(scan_for(&chars_of("a:b"), ':'), (1, 1));
    assert_eq!(scan_for(&chars_of("ab"), ':'), (0, 2));
    assert_eq!(scan_for(&chars_of(":::"), ':'), (2, 0));
}

#[test]
fn texts_are_compared_by_their_characters() {
    assert!(str_eq("", ""));
    assert!(str_eq("äb", "äb"));
    assert!(!str_eq("ab", "abc"));
    assert!(!str_eq("abc", "abd"));
    let mut names = vec!["a".to_string(), "b".to_string()];
    assert!(contains_str(&names, "b"));
    assert!(!contains_str(&names, "c"));
    push_unique(&mut names, "b");
    push_unique(&mut names, "c");
    assert_eq!(names, vec!["a", "b", "c"]);
    assert_eq!(clone_names(&names), names);
}
