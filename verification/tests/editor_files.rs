use rysql::editor::{EditorState, FileError, FileTarget};

fn file(path: &str, name: &str) -> Result<FileTarget, FileError> {
    Ok(FileTarget { path: path.to_string(), name: Some(name.to_string()) })
}

fn content(text: &str) -> Result<String, FileError> {
    Ok(text.to_string())
}

#[test]
fn open_path_loads_file_clean() {
    let mut state = EditorState::default();
    let (id, loaded) = state.open_path(file("/tmp/a.sql", "a.sql"), content("SELECT 1;")).expect("open");
    assert!(loaded, "first open should report loaded = true");
    let buf = state.buffer_by_id(id).expect("buffer present");
    assert_eq!(buf.text, "SELECT 1;");
    assert!(!buf.dirty);
    assert_eq!(buf.path.as_deref(), Some("/tmp/a.sql"));
    assert_eq!(buf.name, "a.sql");
}

#[test]
fn open_path_normalizes_crlf() {
    let mut state = EditorState::default();
    let (id, _) = state
        .open_path(file("/tmp/a.sql", "a.sql"), content("SELECT 1;\r\nSELECT 2;\r\n"))
        .expect("open");
    let buf = state.buffer_by_id(id).expect("buffer present");
    assert_eq!(buf.text, "SELECT 1;\nSELECT 2;\n");
}

#[test]
fn open_path_missing_file_errors_and_does_not_mutate() {
    let mut state = EditorState::default();
    let before = state.buffers.len();
    let missing = || FileError::NotFound("No such file or directory".to_string());
    let err = state
        .open_path(Err(missing()), Err(missing()))
        .expect_err("missing file should error");
    assert!(matches!(err, FileError::NotFound(_)));
    assert_eq!(state.buffers.len(), before);
}

#[test]
fn open_path_deduplicates_same_file() {
    let mut state = EditorState::default();
    let (id1, loaded1) = state.open_path(file("/tmp/a.sql", "a.sql"), content("SELECT 1;")).expect("open 1");
    let len_after_first = state.buffers.len();
    let (id2, loaded2) = state.open_path(file("/tmp/a.sql", "a.sql"), content("SELECT 1;")).expect("open 2");
    assert!(loaded1);
    assert!(!loaded2, "second open of same file should not load");
    assert_eq!(id1, id2);
    assert_eq!(state.buffers.len(), len_after_first);
}

#[test]
fn save_writes_disk_and_clears_dirty() {
    let mut state = EditorState::default();
    let (id, _) = state.open_path(file("/tmp/a.sql", "a.sql"), content("SELECT 1;")).expect("open");
    let idx = state.buffer_index(id).expect("idx");
    state.buffers[idx].text = "SELECT 99;".into();
    state.buffers[idx].dirty = true;

    let plan = state.save(id).expect("save");
    assert_eq!(plan.path, "/tmp/a.sql");
    assert_eq!(plan.text, "SELECT 99;");
    state.saved(id);
    let buf = state.buffer_by_id(id).expect("buffer present");
    assert!(!buf.dirty);
}

#[test]
fn save_without_path_errors() {
    let mut state = EditorState::default();
    let id = state.buffers[0].id;
    state.buffers[0].text = "SELECT 1;".into();
    state.buffers[0].dirty = true;
    let err = state.save(id).expect_err("scratch buffer cannot save");
    assert!(matches!(err, FileError::InvalidInput(_)));
}

#[test]
fn save_as_assigns_path_and_writes() {
    let mut state = EditorState::default();
    let id = state.buffers[0].id;
    state.buffers[0].text = "SELECT 1;".into();
    state.buffers[0].dirty = true;

    let text = state.save_as(id, None).expect("save_as");
    assert_eq!(text, "SELECT 1;");
    state.saved_as(id, file("/tmp/b.sql", "b.sql").unwrap()).expect("saved_as");
    let buf = state.buffer_by_id(id).expect("buffer present");
    assert!(!buf.dirty);
    assert_eq!(buf.path.as_deref(), Some("/tmp/b.sql"));
    assert_eq!(buf.name, "b.sql");
}

#[test]
fn save_as_rejects_path_owned_by_another_buffer() {
    let mut state = EditorState::default();
    let (file_id, _) = state.open_path(file("/tmp/a.sql", "a.sql"), content("SELECT 1;")).expect("open");
    let scratch_id = state.new_buffer();
    state
        .buffers
        .iter_mut()
        .find(|b| b.id == scratch_id)
        .unwrap()
        .text = "SELECT 2;".into();
    let err = state
        .save_as(scratch_id, Some("/tmp/a.sql".to_string()))
        .expect_err("conflict expected");
    assert_eq!(
        err,
        FileError::AlreadyExists("Another tab already has this file open: /tmp/a.sql".to_string())
    );
    assert_eq!(state.buffer_by_id(file_id).unwrap().text, "SELECT 1;");
    assert!(!state.buffer_by_id(file_id).unwrap().dirty);
}

#[test]
fn a_buffer_may_be_saved_over_its_own_file() {
    let mut state = EditorState::default();
    let (id, _) = state.open_path(file("/tmp/a.sql", "a.sql"), content("SELECT 1;")).expect("open");
    assert_eq!(state.save_as(id, Some("/tmp/a.sql".to_string())), Ok("SELECT 1;".to_string()));
}

#[test]
fn missing_buffers_cannot_be_saved() {
    let state = EditorState::default();
    assert!(matches!(state.save(99), Err(FileError::NotFound(_))));
    assert!(matches!(state.save_as(99, None), Err(FileError::NotFound(_))));
}

#[test]
fn unreadable_file_leaves_the_editor_alone() {
    let mut state = EditorState::default();
    let err = state
        .open_path(file("/tmp/a.sql", "a.sql"), Err(FileError::Other("permission denied".to_string())))
        .unwrap_err();
    assert_eq!(err, FileError::Other("permission denied".to_string()));
    assert_eq!(state.buffers.len(), 1);
}

#[test]
fn a_path_without_a_name_falls_back_to_the_id() {
    let mut state = EditorState::default();
    let target = Ok(FileTarget { path: "/".to_string(), name: None });
    let (id, _) = state.open_path(target, content("x")).unwrap();
    assert_eq!(state.buffer_by_id(id).unwrap().name, "query-2");
}

#[test]
fn a_file_is_never_open_in_two_buffers() {
    let mut state = EditorState::default();
    let scratch_id = state.buffers[0].id;
    let (file_id, _) = state.open_path(file("/tmp/a.sql", "a.sql"), content("SELECT 1;")).expect("open");
    let err = state.saved_as(scratch_id, file("/tmp/a.sql", "a.sql").unwrap()).unwrap_err();
    assert_eq!(
        err,
        FileError::AlreadyExists("Another tab already has this file open: /tmp/a.sql".to_string())
    );
    assert_eq!(state.buffers[0].path, None);
    let gone = Err(FileError::NotFound("gone".to_string()));
    assert_eq!(state.open_path(file("/tmp/a.sql", "a.sql"), gone), Ok((file_id, false)));
    assert_eq!(state.buffers.len(), 2);
}
