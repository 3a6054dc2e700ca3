use rysql::editor::{apply_format, apply_toggle_comment, EditorState};
use rysql::lines::{
    byte_index_from_char, char_index_from_byte, current_word, expand_to_lines, split_keep_newlines,
    toggle_block,
};

#[test]
fn offsets_of_characters_and_bytes() {
    let text = "aé漢b";
    let bytes = [0, 1, 3, 6, 7];
    for (chars, byte) in bytes.iter().enumerate() {
        assert_eq!(byte_index_from_char(text, chars), *byte);
        assert_eq!(char_index_from_byte(text, *byte), chars);
    }
    assert_eq!(byte_index_from_char(text, 99), 7);
    assert_eq!(char_index_from_byte(text, 99), 4);
}

#[test]
fn lines_make_up_the_text() {
    for text in ["", "a", "a\n", "a\nb", "\n\n", "a\r\nb\n"] {
        let lines = split_keep_newlines(text);
        assert_eq!(lines.concat(), text);
        let expected: Vec<&str> = text.split_inclusive('\n').collect();
        assert_eq!(lines, expected, "{text:?}");
    }
}

#[test]
fn word_before_the_caret() {
    assert_eq!(current_word("SELECT na_1 FROM", 11), (7, "na_1".to_string()));
    assert_eq!(current_word("SELECT na_1 FROM", 9), (7, "na".to_string()));
    assert_eq!(current_word("a b", 2), (2, String::new()));
    assert_eq!(current_word("ab", 99), (0, "ab".to_string()));
}

#[test]
fn selections_grow_to_whole_lines() {
    let text = "one\ntwo\nthree";
    assert_eq!(expand_to_lines(text, 5, 5), (4, 8));
    assert_eq!(expand_to_lines(text, 1, 9), (0, 13));
    assert_eq!(expand_to_lines(text, 99, 99), (8, 13));
}

#[test]
fn comments_toggle_and_toggle_back() {
    let block = "SELECT 1\n  FROM t\n\n";
    let commented = toggle_block(block);
    assert_eq!(commented, "-- SELECT 1\n  -- FROM t\n\n");
    assert_eq!(toggle_block(&commented), block);
}

#[test]
fn toggling_touches_the_selected_lines_only() {
    let mut state = EditorState::default();
    state.buffers[0].text = "one\ntwo\nthree".to_string();
    state.last_selection = Some((4, 6));
    apply_toggle_comment(&mut state);
    assert_eq!(state.buffers[0].text, "one\n-- two\nthree");
    assert!(state.buffers[0].dirty);
}

#[test]
fn formatting_goes_through_the_formatter() {
    let mut state = EditorState::default();
    state.buffers[0].text = "select a,b from t where x=1".to_string();
    apply_format(&mut state);
    let text = &state.buffers[0].text;
    assert_ne!(text, "select a,b from t where x=1");
    assert_eq!(*text, rysql::format::format_sql("select a,b from t where x=1"));
    assert!(text.contains('\n'));
    assert_eq!(
        text.split_whitespace().collect::<Vec<_>>().join(" "),
        "select a, b from t where x = 1"
    );
    assert!(state.buffers[0].dirty);
}
