use usml_core::text::{
    contains_text, decimal_text, join_texts, only_word_chars, same_text, sort_texts, split_once,
    split_whitespace, strip_prefix, strip_suffix, text_less, trim_end_of, trim_of, trim_start_of,
};

fn samples() -> Vec<&'static str> {
    vec![
        "",
        " ",
        "a",
        ".",
        "..",
        "a.b",
        "a.b.c",
        ".a",
        "a.",
        "users.id = profiles.user_id",
        "  (users.id)\t=\n`profiles`.user_id;  ",
        "posts.user_id=users.id",
        ":role",
        ":role);",
        "users.status = :status AND users.role IN (:role, :other_role)",
        "テーブル.カラム = :パラメータ。",
        "a\u{3000}b\u{a0}c\u{2003}d",
        "x#y#z",
        "./schema.dbml#tables[\"users\"]",
        "tables[\"tables[\"x\"]\"]",
        "\"].\"].",
        "_._",
        "-a-.-b-",
        "1.2e3",
    ]
}

#[test]
fn words_are_those_of_the_standard_library() {
    for s in samples() {
        let expected: Vec<&str> = s.split_whitespace().collect();
        assert_eq!(split_whitespace(s), expected, "{:?}", s);
    }
}

#[test]
fn trimming_is_that_of_the_standard_library() {
    for s in samples() {
        let dotted = |c: char| !c.is_alphanumeric() && c != '.' && c != '_';
        let plain = |c: char| !c.is_alphanumeric() && c != '_';
        assert_eq!(trim_of(s, true), s.trim_matches(dotted), "{:?}", s);
        assert_eq!(trim_of(s, false), s.trim_matches(plain), "{:?}", s);
        assert_eq!(trim_start_of(s, true), s.trim_start_matches(dotted), "{:?}", s);
        assert_eq!(trim_end_of(s, false), s.trim_end_matches(plain), "{:?}", s);
        assert_eq!(
            only_word_chars(s),
            s.chars().all(|c| c.is_alphanumeric() || c == '_'),
            "{:?}",
            s
        );
    }
}

#[test]
fn splitting_is_that_of_the_standard_library() {
    let patterns = [".", "#", "\"].", "tables[\"", "\"]", ":", "ab", "", "。"];
    for s in samples() {
        for pat in patterns {
            assert_eq!(split_once(s, pat), s.split_once(pat), "{:?} at {:?}", s, pat);
            assert_eq!(strip_prefix(s, pat), s.strip_prefix(pat), "{:?} without {:?}", s, pat);
            assert_eq!(strip_suffix(s, pat), s.strip_suffix(pat), "{:?} without {:?}", s, pat);
        }
    }
}

#[test]
fn texts_are_compared_character_by_character() {
    let list = vec!["users".to_string(), "".to_string(), "テーブル".to_string()];
    for s in samples() {
        for t in samples() {
            assert_eq!(same_text(s, t), s == t);
        }
        assert_eq!(contains_text(&list, s), list.iter().any(|x| x == s));
    }
    assert!(contains_text(&list, "テーブル"));
    assert!(!contains_text(&list, "user"));
}

#[test]
fn the_order_of_texts_is_that_of_strings() {
    for s in samples() {
        for t in samples() {
            assert_eq!(text_less(s, t), s < t, "{:?} before {:?}", s, t);
        }
    }
    let list: Vec<String> = samples().iter().map(|s| s.to_string()).collect();
    let mut expected = list.clone();
    expected.sort();
    assert_eq!(sort_texts(&list), expected);
    assert_eq!(sort_texts(&Vec::new()), Vec::<String>::new());
}

#[test]
fn numbers_are_written_in_decimal_digits() {
    for n in [0u64, 1, 9, 10, 11, 99, 100, 120, 4294967295, 18446744073709551615] {
        assert_eq!(decimal_text(n), n.to_string());
    }
}

#[test]
fn texts_are_joined_with_the_separator_between_them() {
    let list = vec!["a".to_string(), "".to_string(), "b".to_string()];
    assert_eq!(join_texts(&list, ", "), "a, , b");
    assert_eq!(join_texts(&list[..1].to_vec(), ", "), "a");
    assert_eq!(join_texts(&Vec::new(), ", "), "");
}
