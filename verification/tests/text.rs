use rysql::order::{compare_texts, Order};
use rysql::suggest::compute_suggestions;
use rysql::text::{
    contains, first_word, i64_text, join, lowercase, replace_char, shorten, starts_with, trim,
    u64_text, uppercase, white_space,
};

#[test]
fn white_space_is_that_of_the_standard_library() {
    for n in 0..=0x10ffffu32 {
        if let Some(c) = char::from_u32(n) {
            assert_eq!(white_space(c), c.is_whitespace(), "U+{n:04X}");
        }
    }
}

#[test]
fn texts_behave_as_in_the_standard_library() {
    for s in ["", " a ", "\u{3000}Ñb\u{a0}\n", "\t\t", "x  y"] {
        assert_eq!(trim(s), s.trim());
        assert_eq!(lowercase(s), s.to_ascii_lowercase());
        assert_eq!(uppercase(s), s.to_ascii_uppercase());
        assert_eq!(first_word(s), s.split_whitespace().next().unwrap_or(""));
        for needle in ["", "a", "b", " ", "zz"] {
            assert_eq!(contains(s, needle), s.contains(needle));
            assert_eq!(starts_with(s, needle), s.starts_with(needle));
        }
        assert_eq!(replace_char(s, ' ', "__"), s.replace(' ', "__"));
        assert_eq!(shorten(s, 2), s.chars().take(2).collect::<String>());
    }
    let parts = vec!["a".to_string(), "".to_string(), "b".to_string()];
    assert_eq!(join(&parts, ", "), parts.join(", "));
}

#[test]
fn numbers_are_written_as_in_the_standard_library() {
    for n in [0u64, 7, 10, 99, 100, 65535, u64::MAX] {
        assert_eq!(u64_text(n), n.to_string());
    }
    for n in [0i64, -1, 1, -10, i64::MIN, i64::MAX] {
        assert_eq!(i64_text(n), n.to_string());
    }
}

#[test]
fn texts_are_ordered_as_in_the_standard_library() {
    let all = ["", "a", "b", "aa", "ab", "A", "é", "z", "\u{10ffff}", "\u{e000}", "\u{d7ff}"];
    for a in all {
        for b in all {
            let expected = if a < b {
                Order::Less
            } else if a == b {
                Order::Equal
            } else {
                Order::Greater
            };
            assert_eq!(compare_texts(a, b), expected, "{a:?} {b:?}");
        }
    }
}

#[test]
fn suggestions_come_from_the_schema_first() {
    let names = vec!["selection".to_string(), "sel".to_string(), "users".to_string()];
    let keywords = ["SELECT", "SET", "FROM"];
    assert_eq!(
        compute_suggestions("sel", &names, &keywords),
        vec!["selection".to_string(), "SELECT".to_string()]
    );
    assert!(compute_suggestions("zz", &names, &keywords).is_empty());
}

#[test]
fn suggestions_are_capped_and_unique() {
    let names: Vec<String> = (0..40).map(|i| format!("col{:02}", i / 2)).collect();
    let found = compute_suggestions("col", &names, &["COLLATE"]);
    let mut unique = found.clone();
    unique.dedup();
    assert_eq!(unique, found);
    assert_eq!(found.len(), 12);
}
