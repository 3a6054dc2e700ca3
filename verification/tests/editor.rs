use rysql::editor::{
    consume_autocomplete_keys, edited, end_frame, handle_shortcuts, press_key, resolve_execute,
    AcKey, EditorAction, EditorContext, EditorState, PopupKeys, ShortcutKeys,
};

fn no_keys() -> ShortcutKeys {
    ShortcutKeys {
        command_shift_enter: false,
        command_enter: false,
        f5: false,
        command_slash: false,
        command_shift_f: false,
        command_t: false,
        command_w: false,
    }
}

fn with_text(text: &str) -> EditorState {
    let mut state = EditorState::default();
    state.buffers[0].text = text.to_string();
    state
}

#[test]
fn buffers_open_and_close() {
    let mut state = EditorState::default();
    assert_eq!(state.buffers.len(), 1);
    assert_eq!(state.active_buffer().unwrap().name, "query-1");
    let second = state.new_buffer();
    assert_eq!(state.active_buffer().unwrap().id, second);
    assert_eq!(state.buffer_index(second), Some(1));
    state.close_buffer_by_id(second);
    assert!(state.buffer_by_id(second).is_none());
    let third = state.new_buffer();
    assert_ne!(third, second);
    state.close_buffer(99);
    assert_eq!(state.buffers.len(), 2);
    assert!(state.buffer_by_path("/tmp/x").is_none());
}

#[test]
fn shortcuts_need_the_focus() {
    let keys = ShortcutKeys { command_enter: true, command_t: true, ..no_keys() };
    assert!(handle_shortcuts(keys, false).is_empty());
    let actions = handle_shortcuts(keys, true);
    assert!(matches!(&actions[..], [EditorAction::Execute(arg), EditorAction::NewTab] if arg == "@cursor"));
    let all = ShortcutKeys {
        command_shift_enter: true,
        command_enter: true,
        f5: true,
        command_slash: true,
        command_shift_f: true,
        command_t: true,
        command_w: true,
    };
    let actions = handle_shortcuts(all, true);
    assert_eq!(actions.len(), 6);
    assert!(matches!(&actions[0], EditorAction::Execute(arg) if arg.is_empty()));
    assert!(matches!(&actions[5], EditorAction::CloseTab));
}

#[test]
fn the_statement_at_the_caret_is_run() {
    let mut state = with_text("SELECT 1;\nSELECT 2;");
    assert_eq!(resolve_execute(&state, "@cursor", Some(3)).as_deref(), Some("SELECT 1;"));
    assert_eq!(resolve_execute(&state, "@cursor", None).as_deref(), Some("SELECT 2;"));
    state.last_cursor = Some(0);
    assert_eq!(resolve_execute(&state, "@cursor", None).as_deref(), Some("SELECT 1;"));
    assert_eq!(resolve_execute(&state, "", None).as_deref(), Some("SELECT 1;\nSELECT 2;"));
    assert_eq!(resolve_execute(&with_text("  \n"), "", None), None);
    assert_eq!(resolve_execute(&with_text("  \n"), "@cursor", None), None);
}

#[test]
fn popup_keys() {
    let keys = |escape, arrow_down, arrow_up, enter| PopupKeys { escape, arrow_down, arrow_up, enter };
    assert_eq!(consume_autocomplete_keys(keys(true, true, true, true)), Some(AcKey::Dismiss));
    assert_eq!(consume_autocomplete_keys(keys(false, true, true, true)), Some(AcKey::Down));
    assert_eq!(consume_autocomplete_keys(keys(false, false, true, true)), Some(AcKey::Up));
    assert_eq!(consume_autocomplete_keys(keys(false, false, false, true)), Some(AcKey::Accept));
    assert_eq!(consume_autocomplete_keys(keys(false, false, false, false)), None);
}

#[test]
fn completions_are_offered_and_accepted() {
    let names = vec!["usuarios".to_string(), "users".to_string()];
    let context = EditorContext { schema_names: &names };
    let mut state = with_text("SELECT ñ, us FROM t");
    end_frame(&mut state, 0, true, true, Some((12, 12)), context.schema_names, &["USE", "SELECT"]);
    let popup = state.autocomplete.clone().unwrap();
    assert_eq!(popup.prefix, "us");
    assert_eq!(popup.suggestions, vec!["users", "usuarios", "USE"]);
    assert_eq!(popup.selected, 0);
    assert_eq!(press_key(&mut state, 0, AcKey::Up), None);
    assert_eq!(state.autocomplete.as_ref().unwrap().selected, 2);
    press_key(&mut state, 0, AcKey::Down);
    press_key(&mut state, 0, AcKey::Down);
    assert_eq!(state.autocomplete.as_ref().unwrap().selected, 1);
    assert_eq!(press_key(&mut state, 0, AcKey::Accept), Some(18));
    assert_eq!(state.buffers[0].text, "SELECT ñ, usuarios FROM t");
    assert!(state.buffers[0].dirty);
    assert!(state.autocomplete.is_none());
}

#[test]
fn short_words_and_selections_offer_nothing() {
    let names = vec!["users".to_string()];
    let mut state = with_text("u us");
    end_frame(&mut state, 0, true, true, Some((1, 1)), &names, &[]);
    assert!(state.autocomplete.is_none());
    end_frame(&mut state, 0, true, true, Some((4, 2)), &names, &[]);
    assert!(state.autocomplete.is_none());
    assert_eq!(state.last_selection, Some((2, 4)));
    end_frame(&mut state, 0, true, true, Some((4, 4)), &names, &[]);
    assert!(state.autocomplete.is_some());
    press_key(&mut state, 0, AcKey::Dismiss);
    assert!(state.autocomplete.is_none());
}

#[test]
fn edits_make_a_buffer_dirty() {
    let mut state = with_text("a");
    edited(&mut state, 0, "a".to_string());
    assert!(!state.buffers[0].dirty);
    edited(&mut state, 0, "ab".to_string());
    assert!(state.buffers[0].dirty);
    edited(&mut state, 9, "x".to_string());
    assert_eq!(state.buffers.len(), 1);
}
