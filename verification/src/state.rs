//! State shared by the parts of the user interface.

use vstd::prelude::*;

use crate::connect::ServerInfo;
use crate::schema::{ObjectKind, SchemaObjects};
use crate::text::text_eq;

verus! {

/// Something that is loaded on demand.
#[derive(Debug, Clone)]
pub enum LoadState<T> {
    NotLoaded,
    Loading,
    Loaded(T),
    Error(String),
}

impl<T> Default for LoadState<T> {
    fn default() -> (res: LoadState<T>)
        ensures
            res is NotLoaded,
    {
        LoadState::NotLoaded
    }
}

impl<T> LoadState<T> {
    /// Start loading, unless that was done before. Returns whether it starts
    /// now.
    pub fn begin(&mut self) -> (res: bool)
        ensures
            res == (*old(self) is NotLoaded),
            *final(self) == (if *old(self) is NotLoaded {
                LoadState::Loading
            } else {
                *old(self)
            }),
    {
        match self {
            LoadState::NotLoaded => {
                *self = LoadState::Loading;
                true
            },
            _ => false,
        }
    }
}

/// What a load came to.
pub fn load_result<T>(result: Result<T, String>) -> (res: LoadState<T>)
    ensures
        res == (match result {
            Ok(value) => LoadState::Loaded(value),
            Err(e) => LoadState::Error(e),
        }),
{
    match result {
        Ok(value) => LoadState::Loaded(value),
        Err(e) => LoadState::Error(e),
    }
}

/// A schema object: its database, its kind and its name.
#[derive(Debug, Clone, PartialEq, Eq, Hash)]
pub struct ObjectKey {
    pub db: String,
    pub kind: ObjectKind,
    pub name: String,
}

impl ObjectKey {
    /// The object that the key names.
    pub open spec fn names(self) -> (Seq<char>, ObjectKind, Seq<char>) {
        (self.db@, self.kind, self.name@)
    }

    /// Copy the key.
    pub fn copy(&self) -> (res: ObjectKey)
        ensures
            res.names() == self.names(),
    {
        ObjectKey { db: self.db.clone(), kind: self.kind, name: self.name.clone() }
    }
}

/// The objects of one database, as far as they are loaded.
#[derive(Debug)]
pub struct DbObjects {
    pub db: String,
    pub state: LoadState<SchemaObjects>,
}

/// What is known of the schema of a connection. No database is listed twice in
/// `objects`.
#[derive(Debug)]
pub struct SchemaState {
    pub databases: LoadState<Vec<String>>,
    pub objects: Vec<DbObjects>,
}

impl Default for SchemaState {
    fn default() -> (res: SchemaState)
        ensures
            res.databases is NotLoaded,
            res.objects@.len() == 0,
            res.wf(),
    {
        SchemaState { databases: LoadState::NotLoaded, objects: Vec::new() }
    }
}

/// Position of the entry for `db`, from `i` on.
pub open spec fn entry_from(objects: Seq<DbObjects>, db: Seq<char>, i: int) -> Option<int>
    decreases objects.len() - i,
{
    if i < 0 || i >= objects.len() {
        None
    } else if objects[i].db@ == db {
        Some(i)
    } else {
        entry_from(objects, db, i + 1)
    }
}

impl SchemaState {
    /// No database is listed twice.
    pub open spec fn wf(self) -> bool {
        forall|i: int, j: int|
            0 <= i < j < self.objects@.len() ==> (#[trigger] self.objects@[i]).db@ != (
            #[trigger] self.objects@[j]).db@
    }

    /// What is known of the objects of a database; `None` where nothing is.
    pub open spec fn objects_of(self, db: Seq<char>) -> Option<LoadState<SchemaObjects>> {
        match entry_from(self.objects@, db, 0) {
            Some(i) => Some(self.objects@[i].state),
            None => None,
        }
    }

    fn position(&self, db: &str) -> (res: Option<usize>)
        ensures
            match res {
                Some(i) => entry_from(self.objects@, db@, 0) == Some(i as int) && i
                    < self.objects@.len() && self.objects@[i as int].db@ == db@,
                None => entry_from(self.objects@, db@, 0) is None,
            },
    {
        let mut i: usize = 0;
        while i < self.objects.len()
            invariant
                i <= self.objects@.len(),
                entry_from(self.objects@, db@, i as int) == entry_from(self.objects@, db@, 0),
            decreases self.objects@.len() - i,
        {
            if text_eq(self.objects[i].db.as_str(), db) {
                return Some(i);
            }
            i = i + 1;
        }
        None
    }

    /// What is known of the objects of a database; `None` where nothing is.
    pub fn get(&self, db: &str) -> (res: Option<&LoadState<SchemaObjects>>)
        ensures
            match res {
                Some(state) => self.objects_of(db@) == Some(*state),
                None => self.objects_of(db@) is None,
            },
    {
        match self.position(db) {
            Some(i) => Some(&self.objects[i].state),
            None => None,
        }
    }

    /// Set what is known of the objects of a database.
    pub fn set(&mut self, db: String, state: LoadState<SchemaObjects>)
        requires
            old(self).wf(),
        ensures
            final(self).wf(),
            final(self).databases == old(self).databases,
            final(self).objects_of(db@) == Some(state),
            forall|other: Seq<char>| other != db@ ==> #[trigger] final(self).objects_of(other)
                == old(self).objects_of(other),
    {
        let ghost before = self.objects@;
        match self.position(db.as_str()) {
            Some(i) => {
                self.objects[i].state = state;
                proof {
                    assert(self.objects@ =~= before.update(i as int, self.objects@[i as int]));
                    lemma_same_places(before, self.objects@, db@, 0);
                    assert forall|other: Seq<char>| other != db@ implies
                        #[trigger] self.objects_of(other) == old(self).objects_of(other) by {
                        lemma_same_places(before, self.objects@, other, 0);
                        lemma_entry(before, other, 0);
                    }
                }
            },
            None => {
                let ghost name = db@;
                self.objects.push(DbObjects { db, state });
                proof {
                    lemma_entry(before, name, 0);
                    lemma_appended(before, self.objects@, name, 0);
                    assert forall|other: Seq<char>| other != name implies
                        #[trigger] self.objects_of(other) == old(self).objects_of(other) by {
                        lemma_appended(before, self.objects@, other, 0);
                        lemma_entry(before, other, 0);
                    }
                }
            },
        }
    }
}

proof fn lemma_entry(objects: Seq<DbObjects>, db: Seq<char>, i: int)
    requires
        0 <= i,
    ensures
        match entry_from(objects, db, i) {
            Some(k) => i <= k < objects.len() && objects[k].db@ == db,
            None => forall|k: int| i <= k < objects.len() ==> (#[trigger] objects[k]).db@ != db,
        },
    decreases objects.len() - i,
{
    if i < objects.len() && objects[i].db@ != db {
        lemma_entry(objects, db, i + 1);
    }
}

proof fn lemma_same_places(a: Seq<DbObjects>, b: Seq<DbObjects>, db: Seq<char>, i: int)
    requires
        0 <= i,
        a.len() == b.len(),
        forall|k: int| 0 <= k < a.len() ==> (#[trigger] a[k]).db@ == b[k].db@,
    ensures
        entry_from(a, db, i) == entry_from(b, db, i),
    decreases a.len() - i,
{
    if i < a.len() {
        assert(a[i].db@ == b[i].db@);
        lemma_same_places(a, b, db, i + 1);
    }
}

proof fn lemma_appended(a: Seq<DbObjects>, b: Seq<DbObjects>, db: Seq<char>, i: int)
    requires
        0 <= i <= a.len(),
        b.len() == a.len() + 1,
        forall|k: int| 0 <= k < a.len() ==> #[trigger] a[k] == b[k],
    ensures
        entry_from(b, db, i) == (match entry_from(a, db, i) {
            Some(k) => Some(k),
            None => if b[a.len() as int].db@ == db {
                Some(a.len() as int)
            } else {
                None
            },
        }),
    decreases a.len() - i,
{
    if i < a.len() {
        assert(a[i] == b[i]);
        lemma_appended(a, b, db, i + 1);
    } else {
        assert(entry_from(b, db, i + 1) is None);
    }
}

/// A change of one cell of a result tab.
#[derive(Debug, Clone)]
pub struct EditRequest {
    pub tab_id: u64,
    pub row: usize,
    pub col: usize,
    pub new_value: String,
}

/// A statement that waits for the user's confirmation.
#[derive(Debug, Clone)]
pub struct ConfirmAction {
    pub title: String,
    pub message: String,
    pub sql: String,
    pub kind: PendingExec,
}

/// What a statement that waits for confirmation does.
#[derive(Debug, Clone)]
pub enum PendingExec {
    DropObject { db: String, name: String },
    Truncate { db: String, name: String },
    DropDatabase { db: String },
    EditCell(EditRequest),
    ReplaceSource { key: ObjectKey },
    InsertRow { tab_id: u64 },
}

/// What a [`ConfirmAction`] says.
#[verifier::ext_equal]
pub struct ConfirmView {
    pub title: Seq<char>,
    pub message: Seq<char>,
    pub sql: Seq<char>,
    pub kind: PendingView,
}

/// What a [`PendingExec`] says.
#[verifier::ext_equal]
pub enum PendingView {
    DropObject { db: Seq<char>, name: Seq<char> },
    Truncate { db: Seq<char>, name: Seq<char> },
    DropDatabase { db: Seq<char> },
    EditCell { tab_id: u64, row: usize, col: usize, new_value: Seq<char> },
    ReplaceSource { key: (Seq<char>, ObjectKind, Seq<char>) },
    InsertRow { tab_id: u64 },
}

impl View for PendingExec {
    type V = PendingView;

    open spec fn view(&self) -> PendingView {
        match *self {
            PendingExec::DropObject { db, name } => PendingView::DropObject {
                db: db@,
                name: name@,
            },
            PendingExec::Truncate { db, name } => PendingView::Truncate { db: db@, name: name@ },
            PendingExec::DropDatabase { db } => PendingView::DropDatabase { db: db@ },
            PendingExec::EditCell(e) => PendingView::EditCell {
                tab_id: e.tab_id,
                row: e.row,
                col: e.col,
                new_value: e.new_value@,
            },
            PendingExec::ReplaceSource { key } => PendingView::ReplaceSource { key: key.names() },
            PendingExec::InsertRow { tab_id } => PendingView::InsertRow { tab_id },
        }
    }
}

impl View for ConfirmAction {
    type V = ConfirmView;

    open spec fn view(&self) -> ConfirmView {
        ConfirmView {
            title: self.title@,
            message: self.message@,
            sql: self.sql@,
            kind: self.kind@,
        }
    }
}

/// What a statement did, for what was loaded before it.
#[derive(Debug, Clone)]
pub enum ExecKind {
    /// An object of a database has changed: its list of objects is out of date.
    AlteredDb(String),
    /// A database is gone: the list of databases is out of date.
    DroppedDatabase,
    /// A statement from the editor: nothing is known to be out of date.
    Adhoc,
    /// The source of an object was replaced.
    ReplaceSource(ObjectKey),
    /// A row was inserted into a result tab.
    InsertedRow { tab_id: u64 },
    /// Rows of a result tab, by their numbers as they came, were deleted.
    DeletedRows { tab_id: u64, rows: Vec<usize> },
    /// One column of several rows of a result tab was set to one value.
    BulkUpdated { tab_id: u64, rows: Vec<usize>, col_idx: usize, new_value: String },
    /// The columns of an object have changed.
    AlteredColumns(ObjectKey),
}

/// An open connection, apart from the handle that talks to it.
#[derive(Debug)]
pub struct ActiveConnection {
    pub profile_name: String,
    pub info: ServerInfo,
    pub schema: SchemaState,
}

} // verus!
