//! SQL editor: buffers, files, shortcuts, completion, formatting and
//! commenting. Offsets are byte offsets into a buffer's text.

use vstd::prelude::*;
use vstd::utf8::{
    decode_utf8, encode_utf8, is_char_boundary, is_continuation_byte, valid_utf8,
};

use crate::format::{format_sql, formatted_sql};
use crate::lines::{
    byte_index_from_char, char_index_from_byte, current_word, expand_to_lines, ident_byte, least,
    law_lines_touched, lemma_end_boundary, line_begin, line_close, toggle_block, toggled,
    word_begin,
};
use crate::split::{law_statement_for, statement_at_cursor, statement_for};
use crate::suggest::{compute_suggestions, suggestions, words};
use crate::text::{
    begins_with, decimal, digits_read, is_empty, law_decimal_reads_back, opt_text, text_eq, texts,
    to_chars, trim, trimmed, u64_text,
};
use crate::utf8::{
    byte_len, chars_before, lemma_boundary_prefix, lemma_chars_before, lemma_encode_concat,
    lemma_prefix_boundary, lemma_prefix_bytes, lemma_prefix_len, slice,
};

verus! {

/// An open text. `path` is the canonical path of its file, and `name` then the
/// file's name; a scratch buffer has no path.
#[derive(Debug, Clone)]
pub struct Buffer {
    pub id: u64,
    pub name: String,
    pub text: String,
    pub dirty: bool,
    pub path: Option<String>,
}

/// What a [`Buffer`] holds.
#[verifier::ext_equal]
pub struct BufferView {
    pub id: u64,
    pub name: Seq<char>,
    pub text: Seq<char>,
    pub dirty: bool,
    pub path: Option<Seq<char>>,
}

impl View for Buffer {
    type V = BufferView;

    open spec fn view(&self) -> BufferView {
        BufferView {
            id: self.id,
            name: self.name@,
            text: self.text@,
            dirty: self.dirty,
            path: opt_text(self.path),
        }
    }
}

/// What each buffer holds.
pub open spec fn buffer_views(buffers: Seq<Buffer>) -> Seq<BufferView> {
    buffers.map_values(|b: Buffer| b@)
}

/// An empty, clean scratch buffer.
pub open spec fn scratch(id: u64, name: Seq<char>) -> BufferView {
    BufferView { id, name, text: seq![], dirty: false, path: None }
}

impl Buffer {
    /// An empty, clean scratch buffer.
    pub fn new(id: u64, name: String) -> (res: Buffer)
        ensures
            res@ == scratch(id, name@),
    {
        let res = Buffer { id, name, text: String::new(), dirty: false, path: None };
        assert(res@ =~= scratch(id, name@));
        res
    }
}

/// The completion popup: the word being completed, where it starts, what is
/// suggested, and which suggestion is selected.
#[derive(Debug, Clone)]
pub struct AutocompleteState {
    pub prefix: String,
    pub start_byte: usize,
    pub suggestions: Vec<String>,
    pub selected: usize,
}

/// What an [`AutocompleteState`] holds.
#[verifier::ext_equal]
pub struct AutocompleteView {
    pub prefix: Seq<char>,
    pub start_byte: int,
    pub suggestions: Seq<Seq<char>>,
    pub selected: int,
}

impl View for AutocompleteState {
    type V = AutocompleteView;

    open spec fn view(&self) -> AutocompleteView {
        AutocompleteView {
            prefix: self.prefix@,
            start_byte: self.start_byte as int,
            suggestions: texts(self.suggestions@),
            selected: self.selected as int,
        }
    }
}

/// What an optional popup holds.
pub open spec fn popup_view(ac: Option<AutocompleteState>) -> Option<AutocompleteView> {
    match ac {
        Some(ac) => Some(ac@),
        None => None,
    }
}

/// The editor: its buffers, the one with the focus, and what is known of its
/// caret.
pub struct EditorState {
    pub buffers: Vec<Buffer>,
    /// Index of the buffer with the focus.
    pub active: usize,
    /// Id of the newest buffer.
    pub next_id: u64,
    /// Last known caret.
    pub last_cursor: Option<usize>,
    /// Last known selection, from its smaller to its larger end.
    pub last_selection: Option<(usize, usize)>,
    pub autocomplete: Option<AutocompleteState>,
}

/// What an [`EditorState`] holds.
#[verifier::ext_equal]
pub struct EditorView {
    pub buffers: Seq<BufferView>,
    pub active: int,
    pub next_id: u64,
    pub last_cursor: Option<usize>,
    pub last_selection: Option<(usize, usize)>,
    pub autocomplete: Option<AutocompleteView>,
}

impl View for EditorState {
    type V = EditorView;

    open spec fn view(&self) -> EditorView {
        EditorView {
            buffers: buffer_views(self.buffers@),
            active: self.active as int,
            next_id: self.next_id,
            last_cursor: self.last_cursor,
            last_selection: self.last_selection,
            autocomplete: popup_view(self.autocomplete),
        }
    }
}

impl EditorView {
    /// Ids are never used twice: no two buffers share one, and none is larger
    /// than that of the newest buffer. No file is open in two buffers.
    pub open spec fn wf(self) -> bool {
        &&& forall|i: int|
            0 <= i < self.buffers.len() ==> (#[trigger] self.buffers[i]).id <= self.next_id
        &&& forall|i: int, j: int|
            0 <= i < j < self.buffers.len() ==> (#[trigger] self.buffers[i]).id != (
            #[trigger] self.buffers[j]).id
        &&& forall|i: int, j: int|
            0 <= i < j < self.buffers.len() && (#[trigger] self.buffers[i]).path is Some
                ==> self.buffers[i].path != (#[trigger] self.buffers[j]).path
    }

    /// Nothing known of the caret.
    pub open spec fn without_caret(self) -> EditorView {
        EditorView { last_cursor: None, last_selection: None, autocomplete: None, ..self }
    }

    /// With one more buffer, which has the focus.
    pub open spec fn with_buffer(self, b: BufferView) -> EditorView {
        EditorView {
            buffers: self.buffers.push(b),
            active: self.buffers.len() as int,
            next_id: b.id,
            ..self
        }.without_caret()
    }

    /// Without the buffer at `i`. The focus moves to the last buffer where it
    /// would be behind it.
    pub open spec fn without_buffer(self, i: int) -> EditorView {
        let left = self.buffers.remove(i);
        EditorView {
            buffers: left,
            active: if self.active >= left.len() && left.len() > 0 {
                left.len() - 1
            } else {
                self.active
            },
            ..self
        }.without_caret()
    }

    /// Index of the first buffer from `i` on with this id.
    pub open spec fn index_from(self, id: u64, i: int) -> Option<int>
        decreases self.buffers.len() - i,
    {
        if i < 0 || i >= self.buffers.len() {
            None
        } else if self.buffers[i].id == id {
            Some(i)
        } else {
            self.index_from(id, i + 1)
        }
    }

    /// Index of the buffer with this id.
    pub open spec fn index_of(self, id: u64) -> Option<int> {
        self.index_from(id, 0)
    }

    /// Index of the first buffer from `i` on that holds the file at this path.
    pub open spec fn path_from(self, path: Seq<char>, i: int) -> Option<int>
        decreases self.buffers.len() - i,
    {
        if i < 0 || i >= self.buffers.len() {
            None
        } else if self.buffers[i].path == Some(path) {
            Some(i)
        } else {
            self.path_from(path, i + 1)
        }
    }

    /// The first buffer that holds a file does hold it, and where there is none,
    /// no buffer does.
    pub proof fn lemma_path_from(self, path: Seq<char>, i: int)
        requires
            0 <= i,
        ensures
            match self.path_from(path, i) {
                Some(k) => i <= k < self.buffers.len() && self.buffers[k].path == Some(path)
                    && forall|m: int|
                    i <= m < k ==> (#[trigger] self.buffers[m]).path != Some(path),
                None => forall|m: int|
                    i <= m < self.buffers.len() ==> (#[trigger] self.buffers[m]).path != Some(path),
            },
        decreases self.buffers.len() - i,
    {
        if i < self.buffers.len() && self.buffers[i].path != Some(path) {
            self.lemma_path_from(path, i + 1);
        }
    }

    /// A buffer other than that at `skip` holds the file at this path.
    pub open spec fn open_elsewhere(self, path: Seq<char>, skip: int) -> bool {
        exists|i: int|
            0 <= i < self.buffers.len() && i != skip && (#[trigger] self.buffers[i]).path == Some(
                path,
            )
    }

    /// With another buffer at `i`.
    pub open spec fn with(self, i: int, b: BufferView) -> EditorView {
        EditorView { buffers: self.buffers.update(i, b), ..self }
    }
}

/// Name of the scratch buffer with this id.
pub open spec fn query_name(id: u64) -> Seq<char> {
    "query-"@ + decimal(id as nat)
}

fn scratch_name(id: u64) -> (res: String)
    ensures
        res@ == query_name(id),
{
    let mut out = "query-".to_string();
    out.append(u64_text(id).as_str());
    out
}

/// The text with each carriage return that stands before a line feed taken out.
pub open spec fn unix_lines(s: Seq<char>) -> Seq<char>
    decreases s.len(),
{
    if s.len() == 0 {
        seq![]
    } else if s[0] == '\r' && s.len() > 1 && s[1] == '\n' {
        seq!['\n'] + unix_lines(s.skip(2))
    } else {
        seq![s[0]] + unix_lines(s.skip(1))
    }
}

fn normalize_newlines(raw: &str) -> (res: String)
    ensures
        res@ == unix_lines(raw@),
{
    let chars = to_chars(raw);
    let size: usize = chars.len();
    let mut out = String::new();
    let mut i: usize = 0;
    assert(chars@.skip(0) =~= chars@);
    assert(out@ + unix_lines(chars@.skip(0)) =~= unix_lines(raw@));
    while i < size
        invariant
            size == chars@.len(),
            i <= size,
            out@ + unix_lines(chars@.skip(i as int)) == unix_lines(raw@),
        decreases size - i,
    {
        let ghost before = out@;
        let ghost rest = chars@.skip(i as int);
        if chars[i] == '\r' && size - i > 1 && chars[i + 1] == '\n' {
            out.push('\n');
            proof {
                assert(rest.skip(2) =~= chars@.skip(i + 2));
                assert(before + (seq!['\n'] + unix_lines(rest.skip(2))) =~= out@ + unix_lines(
                    chars@.skip(i + 2),
                ));
            }
            i = i + 2;
        } else {
            out.push(chars[i]);
            proof {
                assert(rest.skip(1) =~= chars@.skip(i + 1));
                assert(before + (seq![rest[0]] + unix_lines(rest.skip(1))) =~= out@ + unix_lines(
                    chars@.skip(i + 1),
                ));
            }
            i = i + 1;
        }
    }
    assert(out@ + unix_lines(chars@.skip(i as int)) =~= out@);
    out
}

/// Failure of a file operation.
#[derive(Debug, Clone, PartialEq, Eq)]
pub enum FileError {
    NotFound(String),
    InvalidInput(String),
    AlreadyExists(String),
    Other(String),
}

/// A file: its canonical path, and its name where the path ends in one.
#[derive(Debug, Clone)]
pub struct FileTarget {
    pub path: String,
    pub name: Option<String>,
}

/// Name of the buffer for a file: the file's name, or that of a scratch buffer.
pub open spec fn file_buffer_name(name: Option<Seq<char>>, id: u64) -> Seq<char> {
    match name {
        Some(name) => name,
        None => query_name(id),
    }
}

/// A clean buffer for a file.
pub open spec fn file_buffer(id: u64, path: Seq<char>, name: Option<Seq<char>>, raw: Seq<char>) -> BufferView {
    BufferView {
        id,
        name: file_buffer_name(name, id),
        text: unix_lines(raw),
        dirty: false,
        path: Some(path),
    }
}

/// What opening a file gives and leaves: `target` is what resolving its path
/// gave, and `content` what reading it gave. A file that is open already is
/// found again and nothing changes; any other gets a buffer of its own.
pub open spec fn opening(
    v: EditorView,
    target: Result<FileTarget, FileError>,
    content: Result<String, FileError>,
) -> (Result<(u64, bool), FileError>, EditorView) {
    match target {
        Err(e) => (Err(e), v),
        Ok(file) => match v.path_from(file.path@, 0) {
            Some(i) => (Ok((v.buffers[i].id, false)), v),
            None => match content {
                Err(e) => (Err(e), v),
                Ok(raw) => {
                    let id = (v.next_id + 1) as u64;
                    (
                        Ok((id, true)),
                        v.with_buffer(file_buffer(id, file.path@, opt_text(file.name), raw@)),
                    )
                },
            },
        },
    }
}

/// A file that was opened is not opened twice: opening it again, whatever
/// reading it gives then, returns the id of the same buffer and changes nothing.
pub proof fn law_open_again(
    v: EditorView,
    target: Result<FileTarget, FileError>,
    content: Result<String, FileError>,
    again: Result<String, FileError>,
)
    requires
        opening(v, target, content).0 is Ok,
    ensures
        ({
            let (first, after) = opening(v, target, content);
            opening(after, target, again) == (
                Ok::<(u64, bool), FileError>((first->Ok_0.0, false)),
                after,
            )
        }),
{
    let file = target->Ok_0;
    let after = opening(v, target, content).1;
    v.lemma_path_from(file.path@, 0);
    after.lemma_path_from(file.path@, 0);
    if v.path_from(file.path@, 0) is None {
        let last = v.buffers.len() as int;
        assert(after.buffers[last].path == Some(file.path@));
        assert forall|m: int| 0 <= m < last implies (#[trigger] after.buffers[m]).path != Some(
            file.path@,
        ) by {
            assert(after.buffers[m] == v.buffers[m]);
        }
        assert(after.path_from(file.path@, 0) == Some(last));
    }
}

/// What to write where to save a buffer.
#[derive(Debug, Clone)]
pub struct SavePlan {
    pub path: String,
    pub text: String,
}

impl Default for EditorState {
    /// One scratch buffer.
    fn default() -> (res: EditorState)
        ensures
            res@.wf(),
            res@.buffers == seq![scratch(1, query_name(1))],
            res@.active == 0,
            res@.next_id == 1,
            res@ == res@.without_caret(),
    {
        let mut s = EditorState {
            buffers: Vec::new(),
            active: 0,
            next_id: 0,
            last_cursor: None,
            last_selection: None,
            autocomplete: None,
        };
        s.new_buffer();
        assert(s@.buffers =~= seq![scratch(1, query_name(1))]);
        s
    }
}

impl EditorState {
    fn forget_caret(&mut self)
        ensures
            final(self)@ == old(self)@.without_caret(),
            final(self).buffers == old(self).buffers,
    {
        self.last_cursor = None;
        self.last_selection = None;
        self.autocomplete = None;
    }

    /// Append a scratch buffer named `query-N`, give it the focus, and return
    /// its id.
    pub fn new_buffer(&mut self) -> (id: u64)
        requires
            old(self).next_id < u64::MAX,
        ensures
            id == old(self).next_id + 1,
            final(self)@ == old(self)@.with_buffer(scratch(id, query_name(id))),
            old(self)@.wf() ==> final(self)@.wf(),
    {
        let ghost before = self@;
        self.next_id = self.next_id + 1;
        let id = self.next_id;
        let name = scratch_name(id);
        self.active = self.buffers.len();
        self.buffers.push(Buffer::new(id, name));
        self.forget_caret();
        proof {
            assert(self@.buffers =~= before.buffers.push(scratch(id, query_name(id))));
            assert(self@ =~= before.with_buffer(scratch(id, query_name(id))));
        }
        id
    }

    /// Close the buffer at `idx`, if there is one.
    pub fn close_buffer(&mut self, idx: usize)
        ensures
            idx >= old(self)@.buffers.len() ==> final(self)@ == old(self)@,
            idx < old(self)@.buffers.len() ==> final(self)@ == old(self)@.without_buffer(
                idx as int,
            ),
            old(self)@.wf() ==> final(self)@.wf(),
    {
        if idx >= self.buffers.len() {
            return;
        }
        let ghost before = self@;
        self.buffers.remove(idx);
        if self.active >= self.buffers.len() && self.buffers.len() > 0 {
            self.active = self.buffers.len() - 1;
        }
        self.forget_caret();
        proof {
            assert(self@.buffers =~= before.buffers.remove(idx as int));
            assert(self@ =~= before.without_buffer(idx as int));
        }
    }

    /// Close the buffer with this id, if there is one.
    pub fn close_buffer_by_id(&mut self, id: u64)
        ensures
            final(self)@ == (match old(self)@.index_of(id) {
                Some(i) => old(self)@.without_buffer(i),
                None => old(self)@,
            }),
            old(self)@.wf() ==> final(self)@.wf(),
    {
        if let Some(idx) = self.buffer_index(id) {
            self.close_buffer(idx);
        }
    }

    /// The buffer with the focus.
    pub fn active_buffer(&self) -> (res: Option<&Buffer>)
        ensures
            match res {
                Some(b) => self.active < self@.buffers.len() && b@
                    == self@.buffers[self.active as int],
                None => self.active >= self@.buffers.len(),
            },
    {
        if self.active < self.buffers.len() {
            Some(&self.buffers[self.active])
        } else {
            None
        }
    }

    /// The buffer with this id.
    pub fn buffer_by_id(&self, id: u64) -> (res: Option<&Buffer>)
        ensures
            match res {
                Some(b) => self@.index_of(id) matches Some(i) && b@ == self@.buffers[i] && b.id
                    == id,
                None => self@.index_of(id) is None,
            },
    {
        match self.buffer_index(id) {
            Some(i) => Some(&self.buffers[i]),
            None => None,
        }
    }

    /// Index of the buffer with this id.
    pub fn buffer_index(&self, id: u64) -> (res: Option<usize>)
        ensures
            match res {
                Some(i) => self@.index_of(id) == Some(i as int) && i < self@.buffers.len()
                    && self@.buffers[i as int].id == id,
                None => self@.index_of(id) is None,
            },
    {
        let mut i: usize = 0;
        while i < self.buffers.len()
            invariant
                i <= self.buffers@.len(),
                self@.index_from(id, i as int) == self@.index_of(id),
            decreases self.buffers@.len() - i,
        {
            assert(self@.buffers[i as int] == self.buffers@[i as int]@);
            if self.buffers[i].id == id {
                return Some(i);
            }
            i = i + 1;
        }
        None
    }

    /// The buffer that holds the file at this canonical path.
    pub fn buffer_by_path(&self, path: &str) -> (res: Option<&Buffer>)
        ensures
            match res {
                Some(b) => self@.path_from(path@, 0) matches Some(i) && b@ == self@.buffers[i]
                    && opt_text(b.path) == Some(path@),
                None => self@.path_from(path@, 0) is None,
            },
    {
        let mut i: usize = 0;
        while i < self.buffers.len()
            invariant
                i <= self.buffers@.len(),
                self@.path_from(path@, i as int) == self@.path_from(path@, 0),
            decreases self.buffers@.len() - i,
        {
            assert(self@.buffers[i as int] == self.buffers@[i as int]@);
            if let Some(p) = &self.buffers[i].path {
                if text_eq(p.as_str(), path) {
                    return Some(&self.buffers[i]);
                }
            }
            i = i + 1;
        }
        None
    }

    /// Open a file: `target` is what resolving its path gave, and `content` what
    /// reading it gave. A file that is open already is not loaded again. Returns
    /// the id of the file's buffer, and whether it was loaded.
    pub fn open_path(
        &mut self,
        target: Result<FileTarget, FileError>,
        content: Result<String, FileError>,
    ) -> (res: Result<(u64, bool), FileError>)
        requires
            opening(old(self)@, target, content).0 matches Ok((_, true)) ==> old(self).next_id
                < u64::MAX,
        ensures
            (res, final(self)@) == opening(old(self)@, target, content),
            old(self)@.wf() ==> final(self)@.wf(),
    {
        let ghost before = self@;
        proof {
            if target is Ok {
                before.lemma_path_from(target->Ok_0.path@, 0);
            }
        }
        let file = match target {
            Ok(file) => file,
            Err(e) => {
                return Err(e);
            },
        };
        if let Some(existing) = self.buffer_by_path(file.path.as_str()) {
            return Ok((existing.id, false));
        }
        let raw = match content {
            Ok(raw) => raw,
            Err(e) => {
                return Err(e);
            },
        };
        let text = normalize_newlines(raw.as_str());
        self.next_id = self.next_id + 1;
        let id = self.next_id;
        let name = match &file.name {
            Some(name) => name.clone(),
            None => scratch_name(id),
        };
        self.active = self.buffers.len();
        let path = file.path.clone();
        self.buffers.push(Buffer { id, name, text, dirty: false, path: Some(path) });
        self.forget_caret();
        proof {
            let b = file_buffer(id, file.path@, opt_text(file.name), raw@);
            assert(self@.buffers.last() =~= b);
            assert(self@.buffers =~= before.buffers.push(b));
            assert(self@ =~= before.with_buffer(b));
        }
        Ok((id, true))
    }

    /// What to write where to save a buffer in its file. A scratch buffer has
    /// none.
    pub fn save(&self, buffer_id: u64) -> (res: Result<SavePlan, FileError>)
        ensures
            match self@.index_of(buffer_id) {
                None => res matches Err(FileError::NotFound(m)) && m@ == "buffer not found"@,
                Some(i) => match self@.buffers[i].path {
                    None => res matches Err(FileError::InvalidInput(m)) && m@
                        == "buffer has no path; use save_as instead"@,
                    Some(path) => res matches Ok(plan) && plan.path@ == path && plan.text@
                        == self@.buffers[i].text,
                },
            },
    {
        let idx = match self.buffer_index(buffer_id) {
            Some(idx) => idx,
            None => {
                return Err(FileError::NotFound("buffer not found".to_string()));
            },
        };
        assert(self@.buffers[idx as int] == self.buffers@[idx as int]@);
        match &self.buffers[idx].path {
            Some(path) => Ok(
                SavePlan { path: path.clone(), text: self.buffers[idx].text.clone() },
            ),
            None => Err(
                FileError::InvalidInput("buffer has no path; use save_as instead".to_string()),
            ),
        }
    }

    /// The buffer has been written to its file: it is clean.
    pub fn saved(&mut self, buffer_id: u64)
        ensures
            final(self)@ == (match old(self)@.index_of(buffer_id) {
                Some(i) => old(self)@.with(
                    i,
                    BufferView { dirty: false, ..old(self)@.buffers[i] },
                ),
                None => old(self)@,
            }),
            old(self)@.wf() ==> final(self)@.wf(),
    {
        let ghost before = self@;
        if let Some(idx) = self.buffer_index(buffer_id) {
            self.buffers[idx].dirty = false;
            proof {
                let b = BufferView { dirty: false, ..before.buffers[idx as int] };
                assert(self@.buffers =~= before.buffers.update(idx as int, b));
                assert(self@ =~= before.with(idx as int, b));
            }
        }
    }

    /// Whether a buffer other than that at `skip` holds the file at this path.
    fn is_open_elsewhere(&self, path: &str, skip: usize) -> (res: bool)
        ensures
            res == self@.open_elsewhere(path@, skip as int),
    {
        let mut i: usize = 0;
        while i < self.buffers.len()
            invariant
                i <= self.buffers@.len(),
                forall|k: int|
                    0 <= k < i && k != skip ==> (#[trigger] self@.buffers[k]).path != Some(path@),
            decreases self.buffers@.len() - i,
        {
            assert(self@.buffers[i as int] == self.buffers@[i as int]@);
            if i != skip {
                if let Some(p) = &self.buffers[i].path {
                    if text_eq(p.as_str(), path) {
                        return true;
                    }
                }
            }
            i = i + 1;
        }
        false
    }

    /// What to write to save a buffer in another file. `target` is the canonical
    /// path of that file, where it can be told; another buffer must not have it
    /// open.
    pub fn save_as(&self, buffer_id: u64, target: Option<String>) -> (res: Result<
        String,
        FileError,
    >)
        ensures
            match self@.index_of(buffer_id) {
                None => res matches Err(FileError::NotFound(m)) && m@ == "buffer not found"@,
                Some(i) => if target matches Some(path) && self@.open_elsewhere(path@, i) {
                    res matches Err(FileError::AlreadyExists(m)) && m@ == conflict_text(target->0@)
                } else {
                    res matches Ok(text) && text@ == self@.buffers[i].text
                },
            },
    {
        let idx = match self.buffer_index(buffer_id) {
            Some(idx) => idx,
            None => {
                return Err(FileError::NotFound("buffer not found".to_string()));
            },
        };
        if let Some(path) = &target {
            if self.is_open_elsewhere(path.as_str(), idx) {
                return Err(conflict(path.as_str()));
            }
        }
        assert(self@.buffers[idx as int] == self.buffers@[idx as int]@);
        Ok(self.buffers[idx].text.clone())
    }

    /// The buffer has been written to another file, which is its file now. A
    /// file that another buffer has open is refused, and nothing changes.
    pub fn saved_as(&mut self, buffer_id: u64, file: FileTarget) -> (res: Result<(), FileError>)
        ensures
            match old(self)@.index_of(buffer_id) {
                None => res is Ok && final(self)@ == old(self)@,
                Some(i) => if old(self)@.open_elsewhere(file.path@, i) {
                    &&& res matches Err(FileError::AlreadyExists(m)) && m@ == conflict_text(
                        file.path@,
                    )
                    &&& final(self)@ == old(self)@
                } else {
                    &&& res is Ok
                    &&& final(self)@ == old(self)@.with(
                        i,
                        BufferView {
                            name: file_buffer_name(opt_text(file.name), old(self)@.buffers[i].id),
                            path: Some(file.path@),
                            dirty: false,
                            ..old(self)@.buffers[i]
                        },
                    )
                },
            },
            old(self)@.wf() ==> final(self)@.wf(),
    {
        let ghost before = self@;
        if let Some(idx) = self.buffer_index(buffer_id) {
            if self.is_open_elsewhere(file.path.as_str(), idx) {
                return Err(conflict(file.path.as_str()));
            }
            let id = self.buffers[idx].id;
            let name = match &file.name {
                Some(name) => name.clone(),
                None => scratch_name(id),
            };
            self.buffers[idx].name = name;
            self.buffers[idx].path = Some(file.path);
            self.buffers[idx].dirty = false;
            proof {
                let b = BufferView {
                    name: file_buffer_name(opt_text(file.name), id),
                    path: Some(file.path@),
                    dirty: false,
                    ..before.buffers[idx as int]
                };
                assert(self@.buffers[idx as int] =~= b);
                assert(self@.buffers =~= before.buffers.update(idx as int, b));
                assert(self@ =~= before.with(idx as int, b));
                assert forall|k: int| 0 <= k < before.buffers.len() && k != idx implies (
                #[trigger] before.buffers[k]).path != Some(file.path@) by {}
            }
        }
        Ok(())
    }
}

/// Message for a file that another buffer has open.
pub open spec fn conflict_text(path: Seq<char>) -> Seq<char> {
    "Another tab already has this file open: "@ + path
}

fn conflict(path: &str) -> (res: FileError)
    ensures
        res matches FileError::AlreadyExists(m) && m@ == conflict_text(path@),
{
    let mut m = "Another tab already has this file open: ".to_string();
    m.append(path);
    FileError::AlreadyExists(m)
}

/// What the user wants the editor to do. `Execute` carries `@cursor` for the
/// statement at the caret, and nothing for the whole buffer.
#[derive(Debug, Clone)]
pub enum EditorAction {
    NewTab,
    CloseTab,
    Execute(String),
    Format,
    ToggleComment,
}

/// What an [`EditorAction`] says.
pub enum EditorIntent {
    NewTab,
    CloseTab,
    Execute(Seq<char>),
    Format,
    ToggleComment,
}

impl View for EditorAction {
    type V = EditorIntent;

    open spec fn view(&self) -> EditorIntent {
        match self {
            EditorAction::NewTab => EditorIntent::NewTab,
            EditorAction::CloseTab => EditorIntent::CloseTab,
            EditorAction::Execute(arg) => EditorIntent::Execute(arg@),
            EditorAction::Format => EditorIntent::Format,
            EditorAction::ToggleComment => EditorIntent::ToggleComment,
        }
    }
}

/// What each action says.
pub open spec fn intents(actions: Seq<EditorAction>) -> Seq<EditorIntent> {
    actions.map_values(|a: EditorAction| a@)
}

/// What the editor needs to know from the rest of the application.
pub struct EditorContext<'a> {
    /// Names in the schema of the active connection.
    pub schema_names: &'a [String],
}

/// The shortcuts that were pressed.
#[derive(Debug, Clone, Copy)]
pub struct ShortcutKeys {
    pub command_shift_enter: bool,
    pub command_enter: bool,
    pub f5: bool,
    pub command_slash: bool,
    pub command_shift_f: bool,
    pub command_t: bool,
    pub command_w: bool,
}

/// An action where it is asked for.
pub open spec fn asked(on: bool, intent: EditorIntent) -> Seq<EditorIntent> {
    if on {
        seq![intent]
    } else {
        seq![]
    }
}

/// What the pressed shortcuts stand for. `Enter` runs everything with `Shift`
/// and the statement at the caret without.
pub open spec fn shortcut_intents(keys: ShortcutKeys) -> Seq<EditorIntent> {
    asked(keys.command_shift_enter, EditorIntent::Execute(seq![])) + asked(
        !keys.command_shift_enter && keys.command_enter,
        EditorIntent::Execute("@cursor"@),
    ) + asked(keys.f5, EditorIntent::Execute(seq![])) + asked(
        keys.command_slash,
        EditorIntent::ToggleComment,
    ) + asked(keys.command_shift_f, EditorIntent::Format) + asked(
        keys.command_t,
        EditorIntent::NewTab,
    ) + asked(keys.command_w, EditorIntent::CloseTab)
}

fn ask(out: &mut Vec<EditorAction>, on: bool, action: EditorAction)
    ensures
        intents(final(out)@) == intents(old(out)@) + asked(on, action@),
{
    let ghost before = intents(out@);
    if on {
        out.push(action);
    }
    assert(intents(out@) =~= before + asked(on, action@));
}

/// What the pressed shortcuts stand for; nothing while no editor has the focus.
pub fn handle_shortcuts(keys: ShortcutKeys, focused: bool) -> (res: Vec<EditorAction>)
    ensures
        intents(res@) == (if focused {
            shortcut_intents(keys)
        } else {
            seq![]
        }),
{
    let mut out: Vec<EditorAction> = Vec::new();
    assert(intents(out@) =~= Seq::<EditorIntent>::empty());
    if focused {
        ask(&mut out, keys.command_shift_enter, EditorAction::Execute(String::new()));
        assert(intents(out@) =~= asked(keys.command_shift_enter, EditorIntent::Execute(seq![])));
        ask(
            &mut out,
            !keys.command_shift_enter && keys.command_enter,
            EditorAction::Execute("@cursor".to_string()),
        );
        ask(&mut out, keys.f5, EditorAction::Execute(String::new()));
        ask(&mut out, keys.command_slash, EditorAction::ToggleComment);
        ask(&mut out, keys.command_shift_f, EditorAction::Format);
        ask(&mut out, keys.command_t, EditorAction::NewTab);
        ask(&mut out, keys.command_w, EditorAction::CloseTab);
    }
    out
}

/// With another text in the buffer with the focus; the buffer is dirty where the
/// text differs. Nothing changes where no buffer has the focus.
pub open spec fn with_text(s: EditorView, text: Seq<char>) -> EditorView {
    if 0 <= s.active < s.buffers.len() && s.buffers[s.active].text != text {
        s.with(s.active, BufferView { text, dirty: true, ..s.buffers[s.active] })
    } else {
        s
    }
}

/// Put another text into the buffer with the focus.
pub fn replace_text(state: &mut EditorState, text: String)
    ensures
        final(state)@ == with_text(old(state)@, text@),
        old(state)@.wf() ==> final(state)@.wf(),
{
    let ghost before = state@;
    let i = state.active;
    if i < state.buffers.len() {
        assert(before.buffers[i as int] == state.buffers@[i as int]@);
        if !text_eq(state.buffers[i].text.as_str(), text.as_str()) {
            let ghost new = text@;
            state.buffers[i].text = text;
            state.buffers[i].dirty = true;
            proof {
                let b = BufferView { text: new, dirty: true, ..before.buffers[i as int] };
                assert(state@.buffers[i as int] =~= b);
                assert(state@.buffers =~= before.buffers.update(i as int, b));
                assert(state@ =~= before.with(i as int, b));
            }
        }
    }
}

/// Format the buffer with the focus.
pub fn apply_format(state: &mut EditorState)
    ensures
        0 <= old(state)@.active < old(state)@.buffers.len() ==> final(state)@ == with_text(
            old(state)@,
            formatted_sql(old(state)@.buffers[old(state)@.active].text),
        ),
        old(state)@.active >= old(state)@.buffers.len() ==> final(state)@ == old(state)@,
        old(state)@.wf() ==> final(state)@.wf(),
{
    let i = state.active;
    if i < state.buffers.len() {
        assert(state@.buffers[i as int] == state.buffers@[i as int]@);
        let new = format_sql(state.buffers[i].text.as_str());
        replace_text(state, new);
    }
}

/// The lines that a toggle works on: those of the selection, else that of the
/// caret, else the whole text.
pub open spec fn toggle_range(
    b: Seq<u8>,
    selection: Option<(usize, usize)>,
    cursor: Option<usize>,
) -> (int, int) {
    let size = b.len() as int;
    match (selection, cursor) {
        (Some((lo, hi)), _) if lo != hi => (
            line_begin(b, least(lo as int, size)),
            line_close(b, least(hi as int, size)),
        ),
        (_, Some(c)) => (
            line_begin(b, least(c as int, size)),
            line_close(b, least(c as int, size)),
        ),
        _ => (0, size),
    }
}

/// `s` with its part between two byte offsets toggled.
pub open spec fn toggled_between(s: Seq<char>, range: (int, int)) -> Seq<char> {
    if range.1 <= range.0 {
        s
    } else {
        let from = chars_before(s, range.0);
        let to = chars_before(s, range.1);
        s.take(from) + toggled(s.subrange(from, to)) + s.skip(to)
    }
}

fn toggle_text(text: &str, selection: Option<(usize, usize)>, cursor: Option<usize>) -> (res: String)
    ensures
        res@ == toggled_between(text@, toggle_range(encode_utf8(text@), selection, cursor)),
{
    let size: usize = text.as_bytes().len();
    let selected = match selection {
        Some((lo, hi)) => lo != hi,
        None => false,
    };
    let (from, to) = if selected {
        match selection {
            Some((lo, hi)) => expand_to_lines(text, lo, hi),
            None => (0, size),
        }
    } else {
        match cursor {
            Some(c) => expand_to_lines(text, c, c),
            None => (0, size),
        }
    };
    proof {
        lemma_end_boundary(text@);
    }
    if to <= from {
        return text.to_string();
    }
    let head = slice(text, 0, from);
    let block = slice(text, from, to);
    let tail = slice(text, to, size);
    proof {
        assert(text@.take(0) =~= Seq::<char>::empty());
        assert(text@.take(text@.len() as int) =~= text@);
        lemma_chars_before(text@, 0);
        lemma_chars_before(text@, text@.len() as int);
        let a = chars_before(text@, from as int);
        let b = chars_before(text@, to as int);
        assert(head@ =~= text@.take(a));
        assert(tail@ =~= text@.skip(b));
    }
    let mut out = head.to_string();
    out.append(toggle_block(block).as_str());
    out.append(tail);
    out
}

/// Comment lines of the buffer with the focus in or out: the lines that the
/// selection touches, else the line of the caret, else all lines.
pub fn apply_toggle_comment(state: &mut EditorState)
    ensures
        0 <= old(state)@.active < old(state)@.buffers.len() ==> ({
            let text = old(state)@.buffers[old(state)@.active].text;
            final(state)@ == with_text(
                old(state)@,
                toggled_between(
                    text,
                    toggle_range(
                        encode_utf8(text),
                        old(state)@.last_selection,
                        old(state)@.last_cursor,
                    ),
                ),
            )
        }),
        old(state)@.active >= old(state)@.buffers.len() ==> final(state)@ == old(state)@,
        old(state)@.wf() ==> final(state)@.wf(),
{
    let i = state.active;
    if i < state.buffers.len() {
        assert(state@.buffers[i as int] == state.buffers@[i as int]@);
        let new = toggle_text(
            state.buffers[i].text.as_str(),
            state.last_selection,
            state.last_cursor,
        );
        replace_text(state, new);
    }
}

/// `s` trimmed, unless nothing is left of it.
pub open spec fn trimmed_or_none(s: Seq<char>) -> Option<Seq<char>> {
    if trimmed(s).len() == 0 {
        None
    } else {
        Some(trimmed(s))
    }
}

fn trim_or_none(s: &str) -> (res: Option<String>)
    ensures
        opt_text(res) == trimmed_or_none(s@),
{
    let t = trim(s);
    if is_empty(t.as_str()) {
        None
    } else {
        Some(t)
    }
}

/// The SQL to run from a text: all of it, or the statement at a byte offset.
pub open spec fn sql_to_run(s: Seq<char>, at: Option<int>) -> Option<Seq<char>> {
    match at {
        None => trimmed_or_none(s),
        Some(cursor) => match statement_for(s, cursor) {
            Some((from, to)) => trimmed_or_none(
                s.subrange(chars_before(s, from), chars_before(s, to)),
            ),
            None => None,
        },
    }
}

/// The SQL to run for an [`EditorAction::Execute`]: for `@cursor` the statement
/// at the given offset, else at the last known caret, else at the end; for
/// anything else the whole buffer.
pub fn resolve_execute(state: &EditorState, arg: &str, cursor_byte: Option<usize>) -> (res: Option<
    String,
>)
    ensures
        state@.active >= state@.buffers.len() ==> res is None,
        0 <= state@.active < state@.buffers.len() ==> ({
            let text = state@.buffers[state@.active].text;
            let at = if arg@ == "@cursor"@ {
                match (cursor_byte, state@.last_cursor) {
                    (Some(c), _) => Some(c as int),
                    (None, Some(c)) => Some(c as int),
                    (None, None) => Some(byte_len(text)),
                }
            } else {
                None
            };
            opt_text(res) == sql_to_run(text, at)
        }),
{
    let buf = match state.active_buffer() {
        Some(buf) => buf,
        None => {
            return None;
        },
    };
    let text = buf.text.as_str();
    if text_eq(arg, "@cursor") {
        let cur: usize = match cursor_byte {
            Some(c) => c,
            None => match state.last_cursor {
                Some(c) => c,
                None => text.as_bytes().len(),
            },
        };
        match statement_at_cursor(text, cur) {
            Some(range) => {
                proof {
                    law_statement_for(text@, cur as int);
                }
                trim_or_none(slice(text, range.start, range.end))
            },
            None => None,
        }
    } else {
        trim_or_none(text)
    }
}

/// A key that the completion popup takes.
#[derive(Debug, Clone, Copy, PartialEq, Eq, Structural)]
pub enum AcKey {
    Up,
    Down,
    Accept,
    Dismiss,
}

/// The keys that the popup listens to.
#[derive(Debug, Clone, Copy)]
pub struct PopupKeys {
    pub escape: bool,
    pub arrow_down: bool,
    pub arrow_up: bool,
    pub enter: bool,
}

/// Which of the popup's keys counts, where several are pressed. `Enter` accepts,
/// so that it puts no line feed into the text.
pub fn consume_autocomplete_keys(keys: PopupKeys) -> (res: Option<AcKey>)
    ensures
        res == (if keys.escape {
            Some(AcKey::Dismiss)
        } else if keys.arrow_down {
            Some(AcKey::Down)
        } else if keys.arrow_up {
            Some(AcKey::Up)
        } else if keys.enter {
            Some(AcKey::Accept)
        } else {
            None
        }),
{
    if keys.escape {
        Some(AcKey::Dismiss)
    } else if keys.arrow_down {
        Some(AcKey::Down)
    } else if keys.arrow_up {
        Some(AcKey::Up)
    } else if keys.enter {
        Some(AcKey::Accept)
    } else {
        None
    }
}

impl AutocompleteView {
    /// A suggestion is selected.
    pub open spec fn wf(self) -> bool {
        0 <= self.selected < self.suggestions.len()
    }

    /// Where the word being completed ends.
    pub open spec fn end_byte(self) -> int {
        self.start_byte + byte_len(self.prefix)
    }

    /// The word being completed can be cut out of `text`, as far as it lies in
    /// it.
    pub open spec fn fits(self, text: Seq<char>) -> bool {
        self.end_byte() <= byte_len(text) ==> is_char_boundary(
            encode_utf8(text),
            self.start_byte,
        ) && is_char_boundary(encode_utf8(text), self.end_byte())
    }

    /// `text` with the word being completed replaced by the selected suggestion.
    pub open spec fn accepted(self, text: Seq<char>) -> Seq<char> {
        let from = chars_before(text, self.start_byte);
        let to = chars_before(text, self.end_byte());
        text.take(from) + self.suggestions[self.selected] + text.skip(to)
    }
}

/// The next selection, and after the last one the first.
pub open spec fn next_selected(selected: int, count: int) -> int {
    if selected + 1 == count {
        0
    } else {
        selected + 1
    }
}

/// The previous selection, and before the first one the last.
pub open spec fn previous_selected(selected: int, count: int) -> int {
    if selected == 0 {
        count - 1
    } else {
        selected - 1
    }
}

/// The state after a key of the popup, which stands over buffer `i`.
pub open spec fn after_key(s: EditorView, i: int, key: AcKey) -> EditorView {
    match s.autocomplete {
        None => s,
        Some(ac) => match key {
            AcKey::Dismiss => EditorView { autocomplete: None, ..s },
            AcKey::Down => EditorView {
                autocomplete: Some(
                    AutocompleteView {
                        selected: next_selected(ac.selected, ac.suggestions.len() as int),
                        ..ac
                    },
                ),
                ..s
            },
            AcKey::Up => EditorView {
                autocomplete: Some(
                    AutocompleteView {
                        selected: previous_selected(ac.selected, ac.suggestions.len() as int),
                        ..ac
                    },
                ),
                ..s
            },
            AcKey::Accept => {
                let closed = EditorView { autocomplete: None, ..s };
                if 0 <= i < s.buffers.len() && ac.end_byte() <= byte_len(s.buffers[i].text) {
                    closed.with(
                        i,
                        BufferView {
                            text: ac.accepted(s.buffers[i].text),
                            dirty: true,
                            ..s.buffers[i]
                        },
                    )
                } else {
                    closed
                }
            },
        },
    }
}

/// Where the caret goes after a key of the popup, as a number of characters: to
/// the end of an accepted suggestion.
pub open spec fn caret_after_key(s: EditorView, i: int, key: AcKey) -> Option<int> {
    match s.autocomplete {
        Some(ac) => if key == AcKey::Accept && 0 <= i < s.buffers.len() && ac.end_byte()
            <= byte_len(s.buffers[i].text) {
            Some(
                chars_before(s.buffers[i].text, ac.start_byte) + ac.suggestions[ac.selected].len(),
            )
        } else {
            None
        },
        None => None,
    }
}

fn splice(text: &str, from: usize, to: usize, with: &str) -> (res: String)
    requires
        from <= to <= byte_len(text@),
        is_char_boundary(encode_utf8(text@), from as int),
        is_char_boundary(encode_utf8(text@), to as int),
    ensures
        res@ == text@.take(chars_before(text@, from as int)) + with@ + text@.skip(
            chars_before(text@, to as int),
        ),
{
    let size: usize = text.as_bytes().len();
    proof {
        lemma_end_boundary(text@);
    }
    let head = slice(text, 0, from);
    let tail = slice(text, to, size);
    proof {
        assert(text@.take(0) =~= Seq::<char>::empty());
        assert(text@.take(text@.len() as int) =~= text@);
        lemma_chars_before(text@, 0);
        lemma_chars_before(text@, text@.len() as int);
        assert(head@ =~= text@.take(chars_before(text@, from as int)));
        assert(tail@ =~= text@.skip(chars_before(text@, to as int)));
    }
    let mut out = head.to_string();
    out.append(with);
    out.append(tail);
    out
}

/// Apply a key of the popup, which stands over buffer `i`. Returns where the
/// caret goes, as a number of characters, where it moves.
pub fn press_key(state: &mut EditorState, i: usize, key: AcKey) -> (res: Option<usize>)
    requires
        old(state)@.autocomplete matches Some(ac) ==> ac.wf() && (i < old(state)@.buffers.len()
            ==> ac.fits(old(state)@.buffers[i as int].text)),
    ensures
        final(state)@ == after_key(old(state)@, i as int, key),
        match res {
            Some(c) => caret_after_key(old(state)@, i as int, key) == Some(c as int),
            None => caret_after_key(old(state)@, i as int, key) is None,
        },
        old(state)@.wf() ==> final(state)@.wf(),
{
    let ghost before = state@;
    match state.autocomplete.take() {
        None => {
            assert(state@ =~= before);
            None
        },
        Some(mut ac) => {
            let ghost was = ac@;
            assert(texts(ac.suggestions@).len() == ac.suggestions@.len());
            match key {
                AcKey::Dismiss => {
                    assert(state@ =~= after_key(before, i as int, key));
                    None
                },
                AcKey::Down => {
                    let count: usize = ac.suggestions.len();
                    ac.selected = if count - ac.selected == 1 {
                        0
                    } else {
                        ac.selected + 1
                    };
                    state.autocomplete = Some(ac);
                    assert(state@ =~= after_key(before, i as int, key));
                    None
                },
                AcKey::Up => {
                    ac.selected = if ac.selected == 0 {
                        ac.suggestions.len() - 1
                    } else {
                        ac.selected - 1
                    };
                    state.autocomplete = Some(ac);
                    assert(state@ =~= after_key(before, i as int, key));
                    None
                },
                AcKey::Accept => accept(state, i, ac),
            }
        },
    }
}

fn accept(state: &mut EditorState, i: usize, ac: AutocompleteState) -> (res: Option<usize>)
    requires
        old(state)@.autocomplete is None,
        ac@.wf(),
        i < old(state)@.buffers.len() ==> ac@.fits(old(state)@.buffers[i as int].text),
    ensures
        ({
            let before = EditorView { autocomplete: Some(ac@), ..old(state)@ };
            &&& final(state)@ == after_key(before, i as int, AcKey::Accept)
            &&& match res {
                Some(c) => caret_after_key(before, i as int, AcKey::Accept) == Some(c as int),
                None => caret_after_key(before, i as int, AcKey::Accept) is None,
            }
        }),
        old(state)@.wf() ==> final(state)@.wf(),
{
    let ghost before = state@;
    if i >= state.buffers.len() {
        return None;
    }
    assert(before.buffers[i as int] == state.buffers@[i as int]@);
    let ghost text = before.buffers[i as int].text;
    let size: usize = state.buffers[i].text.as_str().as_bytes().len();
    let width: usize = ac.prefix.as_str().as_bytes().len();
    if ac.start_byte > size || width > size - ac.start_byte {
        assert(state@ =~= after_key(
            EditorView { autocomplete: Some(ac@), ..before },
            i as int,
            AcKey::Accept,
        ));
        return None;
    }
    let end: usize = ac.start_byte + width;
    let suggestion = &ac.suggestions[ac.selected];
    assert(suggestion@ == ac@.suggestions[ac@.selected]);
    let caret: usize = char_index_from_byte(state.buffers[i].text.as_str(), ac.start_byte);
    let new = splice(state.buffers[i].text.as_str(), ac.start_byte, end, suggestion.as_str());
    let ghost result = ac@.accepted(text);
    assert(new@ == result);
    let whole: usize = new.as_str().unicode_len();
    let added: usize = suggestion.as_str().unicode_len();
    proof {
        lemma_boundary_prefix(text, ac.start_byte as int);
        assert(whole >= caret + added);
    }
    state.buffers[i].text = new;
    state.buffers[i].dirty = true;
    proof {
        let b = BufferView { text: result, dirty: true, ..before.buffers[i as int] };
        assert(state@.buffers[i as int] =~= b);
        assert(state@.buffers =~= before.buffers.update(i as int, b));
        assert(state@ =~= before.with(i as int, b));
    }
    Some(caret + added)
}

/// The caret stands in the buffer with the focus, without a selection.
pub open spec fn caret_in_text(s: EditorView) -> bool {
    &&& s.last_cursor is Some
    &&& s.last_selection matches Some((lo, hi)) && lo == hi
    &&& 0 <= s.active < s.buffers.len()
}

/// The caret stands on a character boundary, or behind the end.
pub open spec fn caret_on_boundary(s: EditorView) -> bool {
    caret_in_text(s) && s.last_cursor->0 < byte_len(s.buffers[s.active].text) ==> is_char_boundary(
        encode_utf8(s.buffers[s.active].text),
        s.last_cursor->0 as int,
    )
}

/// Start and end of the word that ends at the caret.
pub open spec fn word_range(s: EditorView) -> (int, int) {
    let text = s.buffers[s.active].text;
    let end = least(s.last_cursor->0 as int, byte_len(text));
    (word_begin(encode_utf8(text), end), end)
}

/// The word that ends at the caret.
pub open spec fn word_at_caret(s: EditorView) -> Seq<char> {
    let (from, to) = word_range(s);
    decode_utf8(encode_utf8(s.buffers[s.active].text).subrange(from, to))
}

/// The popup for the state: there is one where the caret of the buffer with the
/// focus stands, without a selection, at the end of a word of at least two
/// characters for which there are suggestions. The selection is kept while the
/// word stays the same.
pub open spec fn popup_for(
    s: EditorView,
    names: Seq<Seq<char>>,
    keywords: Seq<Seq<char>>,
) -> Option<AutocompleteView> {
    let prefix = word_at_caret(s);
    let found = suggestions(prefix, names, keywords);
    if !caret_in_text(s) || byte_len(prefix) < 2 || found.len() == 0 {
        None
    } else {
        let kept = match s.autocomplete {
            Some(p) => if p.prefix == prefix {
                p.selected
            } else {
                0
            },
            None => 0,
        };
        Some(
            AutocompleteView {
                prefix,
                start_byte: word_range(s).0,
                suggestions: found,
                selected: least(kept, found.len() - 1),
            },
        )
    }
}

/// The state with its popup brought up to date.
pub open spec fn refreshed(
    s: EditorView,
    names: Seq<Seq<char>>,
    keywords: Seq<Seq<char>>,
) -> EditorView {
    EditorView { autocomplete: popup_for(s, names, keywords), ..s }
}

/// Bring the popup up to date with the caret.
pub fn refresh_autocomplete(state: &mut EditorState, schema_names: &[String], keywords: &[&str])
    requires
        caret_on_boundary(old(state)@),
    ensures
        final(state)@ == refreshed(old(state)@, texts(schema_names@), words(keywords@)),
        final(state)@.autocomplete matches Some(ac) ==> ac.wf(),
        final(state)@.wf() == old(state)@.wf(),
{
    let ghost before = state@;
    let ghost want = popup_for(before, texts(schema_names@), words(keywords@));
    let cursor: usize = match state.last_cursor {
        Some(c) => c,
        None => {
            state.autocomplete = None;
            assert(state@ =~= (EditorView { autocomplete: None, ..before }));
            return;
        },
    };
    let still = match state.last_selection {
        Some((lo, hi)) => lo == hi,
        None => false,
    };
    if !still || state.active >= state.buffers.len() {
        state.autocomplete = None;
        assert(state@ =~= (EditorView { autocomplete: None, ..before }));
        return;
    }
    let i = state.active;
    assert(before.buffers[i as int] == state.buffers@[i as int]@);
    let (start, prefix) = current_word(state.buffers[i].text.as_str(), cursor);
    proof {
        vstd::utf8::encode_utf8_decode_utf8(prefix@);
        assert(prefix@ == word_at_caret(before));
    }
    if prefix.as_str().as_bytes().len() < 2 {
        state.autocomplete = None;
        assert(state@ =~= (EditorView { autocomplete: None, ..before }));
        return;
    }
    let found = compute_suggestions(prefix.as_str(), schema_names, keywords);
    assert(texts(found@).len() == found@.len());
    if found.len() == 0 {
        state.autocomplete = None;
        assert(state@ =~= (EditorView { autocomplete: None, ..before }));
        return;
    }
    let kept: usize = match &state.autocomplete {
        Some(p) => if text_eq(p.prefix.as_str(), prefix.as_str()) {
            p.selected
        } else {
            0
        },
        None => 0,
    };
    let selected: usize = if kept <= found.len() - 1 {
        kept
    } else {
        found.len() - 1
    };
    let ac = AutocompleteState { prefix, start_byte: start, suggestions: found, selected };
    assert(ac@ =~= want->0);
    state.autocomplete = Some(ac);
    assert(state@ =~= (EditorView { autocomplete: want, ..before }));
}

/// Byte offset of a caret that is given as a number of characters.
pub open spec fn caret_byte(text: Seq<char>, caret: usize) -> usize {
    byte_len(text.take(least(caret as int, text.len() as int))) as usize
}

/// What is known of the caret, given its two ends as numbers of characters.
pub open spec fn with_caret(s: EditorView, i: int, carets: Option<(usize, usize)>) -> EditorView {
    let text = s.buffers[i].text;
    match carets {
        Some((primary, secondary)) => {
            let p = caret_byte(text, primary);
            let q = caret_byte(text, secondary);
            EditorView {
                active: i,
                last_cursor: Some(p),
                last_selection: Some(
                    if p <= q {
                        (p, q)
                    } else {
                        (q, p)
                    },
                ),
                ..s
            }
        },
        None => EditorView { active: i, last_cursor: None, last_selection: None, ..s },
    }
}

/// The state after buffer `i` was shown: the buffer with the keyboard focus is
/// the active one, and its caret is remembered. A buffer that has just lost the
/// focus loses the popup.
pub open spec fn after_frame(
    s: EditorView,
    i: int,
    was_active: bool,
    focused: bool,
    carets: Option<(usize, usize)>,
    names: Seq<Seq<char>>,
    keywords: Seq<Seq<char>>,
) -> EditorView {
    if focused {
        refreshed(with_caret(s, i, carets), names, keywords)
    } else if was_active {
        EditorView { autocomplete: None, ..s }
    } else {
        s
    }
}

/// Take note of what happened while buffer `i` was shown. `carets` are the two
/// ends of the selection, as numbers of characters, the caret first.
pub fn end_frame(
    state: &mut EditorState,
    i: usize,
    was_active: bool,
    focused: bool,
    carets: Option<(usize, usize)>,
    schema_names: &[String],
    keywords: &[&str],
)
    requires
        i < old(state)@.buffers.len(),
    ensures
        final(state)@ == after_frame(
            old(state)@,
            i as int,
            was_active,
            focused,
            carets,
            texts(schema_names@),
            words(keywords@),
        ),
        final(state)@.wf() == old(state)@.wf(),
{
    let ghost before = state@;
    if focused {
        assert(before.buffers[i as int] == state.buffers@[i as int]@);
        let ghost text = before.buffers[i as int].text;
        state.active = i;
        match carets {
            Some((primary, secondary)) => {
                let p: usize = byte_index_from_char(state.buffers[i].text.as_str(), primary);
                let q: usize = byte_index_from_char(state.buffers[i].text.as_str(), secondary);
                state.last_cursor = Some(p);
                state.last_selection = Some(
                    if p <= q {
                        (p, q)
                    } else {
                        (q, p)
                    },
                );
                proof {
                    lemma_prefix_boundary(text, least(primary as int, text.len() as int));
                }
            },
            None => {
                state.last_cursor = None;
                state.last_selection = None;
            },
        }
        assert(state@ =~= with_caret(before, i as int, carets));
        refresh_autocomplete(state, schema_names, keywords);
    } else if was_active {
        state.autocomplete = None;
        assert(state@ =~= (EditorView { autocomplete: None, ..before }));
    }
}

/// The user has edited the text of buffer `i`: it is dirty where the text
/// differs from before.
pub fn edited(state: &mut EditorState, i: usize, text: String)
    ensures
        final(state)@ == (if i < old(state)@.buffers.len() && old(state)@.buffers[i as int].text
            != text@ {
            old(state)@.with(
                i as int,
                BufferView { text: text@, dirty: true, ..old(state)@.buffers[i as int] },
            )
        } else {
            old(state)@
        }),
        old(state)@.wf() ==> final(state)@.wf(),
{
    let ghost before = state@;
    if i < state.buffers.len() {
        assert(before.buffers[i as int] == state.buffers@[i as int]@);
        if !text_eq(state.buffers[i].text.as_str(), text.as_str()) {
            let ghost new = text@;
            state.buffers[i].text = text;
            state.buffers[i].dirty = true;
            proof {
                let b = BufferView { text: new, dirty: true, ..before.buffers[i as int] };
                assert(state@.buffers[i as int] =~= b);
                assert(state@.buffers =~= before.buffers.update(i as int, b));
                assert(state@ =~= before.with(i as int, b));
            }
        }
    }
}

/// A popup that is fresh fits the text under it: accepting a suggestion replaces
/// the word at the caret and nothing else.
pub proof fn law_popup_fits(
    s: EditorView,
    names: Seq<Seq<char>>,
    keywords: Seq<Seq<char>>,
)
    requires
        caret_on_boundary(s),
        caret_in_text(s),
    ensures
        popup_for(s, names, keywords) matches Some(ac) ==> {
            let text = s.buffers[s.active].text;
            let (from, to) = word_range(s);
            &&& ac.fits(text)
            &&& ac.start_byte == from
            &&& ac.end_byte() == to
            &&& to <= byte_len(text)
        },
{
    let text = s.buffers[s.active].text;
    let b = encode_utf8(text);
    let (from, to) = word_range(s);
    lemma_end_boundary(text);
    lemma_word_begin(b, to);
    lemma_boundary_prefix(text, from);
    lemma_boundary_prefix(text, to);
    let i = chars_before(text, from);
    let j = chars_before(text, to);
    if j < i {
        lemma_prefix_len(text, j, i);
    }
    let word = text.subrange(i, j);
    assert(text.take(j) =~= text.take(i) + word);
    lemma_encode_concat(text.take(i), word);
    lemma_prefix_bytes(text, j);
    let whole = encode_utf8(text.take(j));
    let head = encode_utf8(text.take(i));
    assert(whole == head + encode_utf8(word));
    assert(head.len() == from);
    assert(whole.skip(from) =~= encode_utf8(word));
    assert(b.subrange(from, to) =~= whole.skip(from));
    vstd::utf8::encode_utf8_decode_utf8(word);
    assert(word_at_caret(s) == word);
}

proof fn lemma_word_begin(b: Seq<u8>, i: int)
    requires
        valid_utf8(b),
        is_char_boundary(b, i),
        0 <= i <= b.len(),
    ensures
        0 <= word_begin(b, i) <= i,
        is_char_boundary(b, word_begin(b, i)),
    decreases i,
{
    if 0 < i && ident_byte(b[i - 1]) {
        assert(!is_continuation_byte(b[i - 1]));
        vstd::utf8::is_char_boundary_iff_not_is_continuation_byte(b, i - 1);
        lemma_word_begin(b, i - 1);
    }
}

/// Line endings of two characters become line feeds, and nothing else changes: a
/// text without carriage returns is kept, and so is a carriage return that no
/// line feed follows.
pub proof fn law_line_endings(a: Seq<char>, b: Seq<char>)
    requires
        forall|i: int| 0 <= i < a.len() ==> #[trigger] a[i] != '\r',
    ensures
        unix_lines(a) == a,
        unix_lines(a + seq!['\r', '\n'] + b) == a + seq!['\n'] + unix_lines(b),
        b.len() == 0 || b[0] != '\n' ==> unix_lines(a + seq!['\r'] + b) == a + seq!['\r']
            + unix_lines(b),
    decreases a.len(),
{
    let s = a + seq!['\r', '\n'] + b;
    let t = a + seq!['\r'] + b;
    if a.len() == 0 {
        assert(s[0] == '\r' && s[1] == '\n');
        assert(s.skip(2) =~= b);
        assert(seq!['\n'] + unix_lines(b) =~= a + seq!['\n'] + unix_lines(b));
        assert(t[0] == '\r');
        assert(t.skip(1) =~= b);
        assert(b.len() > 0 ==> t[1] == b[0]);
        assert(seq!['\r'] + unix_lines(b) =~= a + seq!['\r'] + unix_lines(b));
        assert(unix_lines(a) =~= a);
    } else {
        let rest = a.skip(1);
        assert forall|i: int| 0 <= i < rest.len() implies #[trigger] rest[i] != '\r' by {
            assert(rest[i] == a[i + 1]);
        }
        law_line_endings(rest, b);
        assert(s[0] == a[0] && t[0] == a[0]);
        assert(s.skip(1) =~= rest + seq!['\r', '\n'] + b);
        assert(t.skip(1) =~= rest + seq!['\r'] + b);
        assert(seq![a[0]] + rest =~= a);
        assert(seq![a[0]] + (rest + seq!['\n'] + unix_lines(b)) =~= a + seq!['\n'] + unix_lines(
            b,
        ));
        assert(seq![a[0]] + (rest + seq!['\r'] + unix_lines(b)) =~= a + seq!['\r'] + unix_lines(
            b,
        ));
    }
}

proof fn lemma_asked(a: Seq<EditorIntent>, on: bool, x: EditorIntent)
    ensures
        forall|y: EditorIntent| #[trigger] (a + asked(on, x)).contains(y) <==> a.contains(y) || (on
            && x == y),
        forall|y: EditorIntent| #[trigger] asked(on, x).contains(y) <==> on && x == y,
{
    let c = asked(on, x);
    let all = a + c;
    if on {
        assert(c[0] == x);
        assert(all[a.len() as int] == x);
    }
    assert forall|y: EditorIntent| #[trigger] all.contains(y) <==> a.contains(y) || (on && x
        == y) by {
        if all.contains(y) {
            let k = choose|k: int| 0 <= k < all.len() && all[k] == y;
            if k < a.len() {
                assert(a[k] == y);
            }
        }
        if a.contains(y) {
            let k = choose|k: int| 0 <= k < a.len() && a[k] == y;
            assert(all[k] == y);
        }
    }
}

/// What the shortcuts do: Shift+Enter and F5 run the whole buffer, Enter without
/// Shift runs the statement at the caret, and the others comment, format, open
/// and close.
pub proof fn law_shortcuts(keys: ShortcutKeys, intent: EditorIntent)
    ensures
        shortcut_intents(keys).contains(intent) <==> match intent {
            EditorIntent::Execute(arg) => {
                ||| arg == Seq::<char>::empty() && (keys.command_shift_enter || keys.f5)
                ||| arg == "@cursor"@ && keys.command_enter && !keys.command_shift_enter
            },
            EditorIntent::ToggleComment => keys.command_slash,
            EditorIntent::Format => keys.command_shift_f,
            EditorIntent::NewTab => keys.command_t,
            EditorIntent::CloseTab => keys.command_w,
        },
{
    let all = EditorIntent::Execute(seq![]);
    let here = EditorIntent::Execute("@cursor"@);
    let enter = !keys.command_shift_enter && keys.command_enter;
    let a = asked(keys.command_shift_enter, all);
    let b = a + asked(enter, here);
    let c = b + asked(keys.f5, all);
    let d = c + asked(keys.command_slash, EditorIntent::ToggleComment);
    let e = d + asked(keys.command_shift_f, EditorIntent::Format);
    let f = e + asked(keys.command_t, EditorIntent::NewTab);
    lemma_asked(seq![], keys.command_shift_enter, all);
    lemma_asked(a, enter, here);
    lemma_asked(b, keys.f5, all);
    lemma_asked(c, keys.command_slash, EditorIntent::ToggleComment);
    lemma_asked(d, keys.command_shift_f, EditorIntent::Format);
    lemma_asked(e, keys.command_t, EditorIntent::NewTab);
    lemma_asked(f, keys.command_w, EditorIntent::CloseTab);
}

/// The arrow keys move the selection round: down goes to the next suggestion and
/// from the last to the first, and up undoes it.
pub proof fn law_selection_goes_round(selected: int, count: int)
    requires
        0 <= selected < count,
    ensures
        0 <= next_selected(selected, count) < count,
        0 <= previous_selected(selected, count) < count,
        previous_selected(next_selected(selected, count), count) == selected,
        next_selected(previous_selected(selected, count), count) == selected,
        selected + 1 < count ==> next_selected(selected, count) == selected + 1,
        next_selected(count - 1, count) == 0,
{
}

/// Accepting a suggestion puts it in the place of the word that was typed, with
/// the caret behind it; what stands before and after the word stays.
pub proof fn law_accepting_replaces_the_word(
    s: EditorView,
    i: int,
    ac: AutocompleteView,
    before: Seq<char>,
    after: Seq<char>,
)
    requires
        0 <= i < s.buffers.len(),
        s.autocomplete == Some(ac),
        ac.wf(),
        s.buffers[i].text == before + ac.prefix + after,
        ac.start_byte == byte_len(before),
    ensures
        after_key(s, i, AcKey::Accept).buffers[i].text == before + ac.suggestions[ac.selected]
            + after,
        after_key(s, i, AcKey::Accept).buffers[i].dirty,
        after_key(s, i, AcKey::Accept).autocomplete is None,
        caret_after_key(s, i, AcKey::Accept) == Some(
            (before + ac.suggestions[ac.selected]).len() as int,
        ),
        forall|k: int|
            0 <= k < s.buffers.len() && k != i ==> #[trigger] after_key(
                s,
                i,
                AcKey::Accept,
            ).buffers[k] == s.buffers[k],
{
    let text = s.buffers[i].text;
    let n = before.len() as int;
    let m = n + ac.prefix.len();
    assert(text.take(n) =~= before);
    assert(text.take(m) =~= before + ac.prefix);
    assert(text.skip(m) =~= after);
    lemma_chars_before(text, n);
    lemma_chars_before(text, m);
    lemma_encode_concat(before, ac.prefix);
    lemma_encode_concat(before + ac.prefix, after);
}

/// A key that accepts nothing leaves every buffer as it is; Escape closes the
/// popup, and the arrow keys keep its word and its suggestions.
pub proof fn law_other_keys_keep_the_text(s: EditorView, i: int, key: AcKey)
    requires
        key != AcKey::Accept,
    ensures
        after_key(s, i, key).buffers == s.buffers,
        caret_after_key(s, i, key) is None,
        key == AcKey::Dismiss ==> after_key(s, i, key).autocomplete is None,
        key != AcKey::Dismiss ==> match (s.autocomplete, after_key(s, i, key).autocomplete) {
            (Some(old), Some(new)) => {
                &&& new.prefix == old.prefix
                &&& new.start_byte == old.start_byte
                &&& new.suggestions == old.suggestions
                &&& key == AcKey::Down && old.selected + 1 < old.suggestions.len() ==> new.selected
                    == old.selected + 1
                &&& key == AcKey::Up && old.selected > 0 ==> new.selected == old.selected - 1
            },
            (None, None) => true,
            _ => false,
        },
{
}

/// The popup is there for a word of at least two bytes that the caret ends,
/// without a selection, and for which something is suggested. The selection is
/// kept while the word stays the same, and starts anew for another.
pub proof fn law_popup_follows_the_word(
    s: EditorView,
    names: Seq<Seq<char>>,
    keywords: Seq<Seq<char>>,
)
    requires
        s.autocomplete matches Some(old) ==> 0 <= old.selected,
    ensures
        ({
            let word = word_at_caret(s);
            let found = suggestions(word, names, keywords);
            match popup_for(s, names, keywords) {
                None => byte_len(word) < 2 || found.len() == 0 || s.last_cursor is None || s.active
                    >= s.buffers.len() || s.active < 0 || (s.last_selection matches Some((lo, hi))
                    ==> lo != hi),
                Some(ac) => {
                    &&& s.last_cursor is Some
                    &&& s.last_selection matches Some((lo, hi)) && lo == hi
                    &&& byte_len(word) >= 2
                    &&& ac.prefix == word
                    &&& ac.suggestions == found
                    &&& ac.wf()
                    &&& match s.autocomplete {
                        Some(old) => if old.prefix == word {
                            old.selected < found.len() ==> ac.selected == old.selected
                        } else {
                            ac.selected == 0
                        },
                        None => ac.selected == 0,
                    }
                },
            }
        }),
{
}

/// A new buffer comes last and has the focus. Closing a buffer keeps the others
/// in order, and the focus stays on one of them.
pub proof fn law_buffers_come_and_go(v: EditorView, b: BufferView, i: int)
    requires
        0 <= i < v.buffers.len(),
        0 <= v.active < v.buffers.len(),
    ensures
        v.with_buffer(b).buffers == v.buffers + seq![b],
        v.with_buffer(b).buffers[v.with_buffer(b).active] == b,
        v.without_buffer(i).buffers == v.buffers.take(i) + v.buffers.skip(i + 1),
        v.buffers.len() > 1 ==> 0 <= v.without_buffer(i).active < v.buffers.len() - 1,
        v.active < v.buffers.len() - 1 ==> v.without_buffer(i).active == v.active,
        v.without_buffer(i).last_cursor is None,
        v.without_buffer(i).autocomplete is None,
        v.with_buffer(b).last_cursor is None,
        v.with_buffer(b).autocomplete is None,
{
    assert(v.with_buffer(b).buffers =~= v.buffers + seq![b]);
    assert(v.without_buffer(i).buffers =~= v.buffers.take(i) + v.buffers.skip(i + 1));
}

/// A buffer is found by its id, and an id that no buffer has is not found.
pub proof fn law_buffer_is_found(v: EditorView, id: u64)
    requires
        v.wf(),
    ensures
        match v.index_of(id) {
            Some(i) => 0 <= i < v.buffers.len() && v.buffers[i].id == id,
            None => forall|k: int| 0 <= k < v.buffers.len() ==> (#[trigger] v.buffers[k]).id != id,
        },
{
    lemma_index_from(v, id, 0);
}

proof fn lemma_index_from(v: EditorView, id: u64, i: int)
    requires
        0 <= i,
    ensures
        match v.index_from(id, i) {
            Some(k) => i <= k < v.buffers.len() && v.buffers[k].id == id,
            None => forall|k: int| i <= k < v.buffers.len() ==> (#[trigger] v.buffers[k]).id != id,
        },
    decreases v.buffers.len() - i,
{
    if i < v.buffers.len() && v.buffers[i].id != id {
        lemma_index_from(v, id, i + 1);
    }
}

/// Putting a text into the buffer with the focus changes that text and nothing
/// else, and the buffer is dirty where the text is another one.
pub proof fn law_edits_mark_the_buffer(s: EditorView, text: Seq<char>)
    requires
        0 <= s.active < s.buffers.len(),
    ensures
        with_text(s, text).buffers.len() == s.buffers.len(),
        with_text(s, text).buffers[s.active].text == text,
        with_text(s, text).buffers[s.active].dirty == (s.buffers[s.active].dirty
            || s.buffers[s.active].text != text),
        with_text(s, text).buffers[s.active].path == s.buffers[s.active].path,
        with_text(s, text).buffers[s.active].name == s.buffers[s.active].name,
        with_text(s, text).active == s.active,
        forall|k: int|
            0 <= k < s.buffers.len() && k != s.active ==> #[trigger] with_text(s, text).buffers[k]
                == s.buffers[k],
{
}

/// Commenting works on whole lines: those of the selection, else that of the
/// caret, else all of them.
pub proof fn law_commenting_takes_whole_lines(
    b: Seq<u8>,
    selection: Option<(usize, usize)>,
    cursor: Option<usize>,
)
    requires
        selection matches Some((lo, hi)) ==> lo <= hi <= b.len(),
        cursor matches Some(c) ==> c <= b.len(),
    ensures
        ({
            let (from, to) = toggle_range(b, selection, cursor);
            &&& 0 <= from <= to <= b.len()
            &&& from > 0 ==> b[from - 1] == '\n' as u8
            &&& to < b.len() ==> to > 0 && b[to - 1] == '\n' as u8
            &&& selection matches Some((lo, hi)) ==> (lo < hi ==> from <= lo && hi <= to && forall|
                k: int,
            |
                from <= k < lo || hi <= k < to - 1 ==> #[trigger] b[k] != '\n' as u8)
            &&& (selection matches Some((lo, hi)) ==> lo == hi) && cursor is Some ==> from
                <= cursor->0 <= to && forall|k: int|
                from <= k < to - 1 ==> #[trigger] b[k] != '\n' as u8
            &&& (selection matches Some((lo, hi)) ==> lo == hi) && cursor is None ==> from == 0
                && to == b.len()
        }),
{
    match selection {
        Some((lo, hi)) => {
            law_lines_touched(b, lo as int, hi as int);
        },
        None => {},
    }
    match cursor {
        Some(c) => {
            law_lines_touched(b, c as int, c as int);
        },
        None => {},
    }
}

/// Commenting changes the lines that it works on, and what stands before and
/// after them stays.
pub proof fn law_commenting_keeps_the_rest(a: Seq<char>, block: Seq<char>, c: Seq<char>)
    requires
        block.len() > 0,
    ensures
        toggled_between(a + block + c, (byte_len(a), byte_len(a + block))) == a + toggled(block)
            + c,
{
    let s = a + block + c;
    let n = a.len() as int;
    let m = n + block.len();
    assert(s.take(n) =~= a);
    assert(s.take(m) =~= a + block);
    assert(s.skip(m) =~= c);
    assert(s.subrange(n, m) =~= block);
    lemma_chars_before(s, n);
    lemma_chars_before(s, m);
    lemma_prefix_len(s, n, m);
}

/// Running a buffer without a caret runs all of it but the white space around
/// it, and a blank one runs nothing.
pub proof fn law_run_everything(s: Seq<char>)
    ensures
        trimmed(s).len() == 0 ==> sql_to_run(s, None) is None,
        trimmed(s).len() > 0 ==> sql_to_run(s, None) == Some(trimmed(s)),
{
}

/// Scratch buffers are told apart by the numbers in their names.
pub proof fn law_scratch_names(id: u64)
    ensures
        begins_with(query_name(id), "query-"@),
        digits_read(query_name(id).skip(6)) == Some(id as nat),
{
    reveal_strlit("query-");
    law_decimal_reads_back(id as nat);
    let name = query_name(id);
    assert(name.subrange(0, 6) =~= "query-"@);
    assert(name.skip(6) =~= decimal(id as nat));
}

/// A file that is not open yet gets a buffer of its own, which comes last, has
/// the focus, holds the file and has nothing to save. A file that cannot be found
/// or read gives its error, and nothing changes.
pub proof fn law_opening_a_file(
    v: EditorView,
    file: FileTarget,
    raw: String,
    e: FileError,
    content: Result<String, FileError>,
)
    requires
        forall|i: int|
            0 <= i < v.buffers.len() ==> (#[trigger] v.buffers[i]).path != Some(file.path@),
        v.next_id < u64::MAX,
    ensures
        ({
            let (res, after) = opening(v, Ok(file), Ok(raw));
            let buffer = after.buffers.last();
            &&& res == Ok::<(u64, bool), FileError>((buffer.id, true))
            &&& after.buffers.drop_last() == v.buffers
            &&& after.active == v.buffers.len()
            &&& buffer.path == Some(file.path@)
            &&& buffer.text == unix_lines(raw@)
            &&& !buffer.dirty
            &&& file.name matches Some(name) ==> buffer.name == name@
            &&& buffer.id == v.next_id + 1 && after.next_id == buffer.id
        }),
        opening(v, Ok(file), Err(e)) == (Err::<(u64, bool), FileError>(e), v),
        opening(v, Err(e), content) == (Err::<(u64, bool), FileError>(e), v),
{
    v.lemma_path_from(file.path@, 0);
    let after = opening(v, Ok(file), Ok(raw)).1;
    assert(after.buffers.drop_last() =~= v.buffers);
}

/// The caret of the buffer with the keyboard focus is remembered as the number of
/// bytes before it, and the selection from its smaller to its larger end. Showing
/// a buffer changes no text; one that has lost the focus loses the popup.
pub proof fn law_caret_is_remembered(
    s: EditorView,
    i: int,
    primary: usize,
    secondary: usize,
    names: Seq<Seq<char>>,
    keywords: Seq<Seq<char>>,
)
    requires
        0 <= i < s.buffers.len(),
        primary <= s.buffers[i].text.len(),
        secondary <= s.buffers[i].text.len(),
        byte_len(s.buffers[i].text) <= usize::MAX,
    ensures
        ({
            let text = s.buffers[i].text;
            let p = byte_len(text.take(primary as int));
            let q = byte_len(text.take(secondary as int));
            let shown = after_frame(s, i, true, true, Some((primary, secondary)), names, keywords);
            let left = after_frame(s, i, true, false, Some((primary, secondary)), names, keywords);
            let other = after_frame(s, i, false, false, None, names, keywords);
            &&& shown.active == i
            &&& shown.buffers == s.buffers
            &&& shown.last_cursor matches Some(c) && c == p
            &&& shown.last_selection matches Some((lo, hi)) && lo <= hi && (lo == p && hi == q || lo
                == q && hi == p)
            &&& left.autocomplete is None && left.buffers == s.buffers && left.active == s.active
            &&& other == s
        }),
{
    let text = s.buffers[i].text;
    assert(text.take(text.len() as int) =~= text);
    lemma_prefix_len(text, primary as int, text.len() as int);
    lemma_prefix_len(text, secondary as int, text.len() as int);
}

} // verus!
