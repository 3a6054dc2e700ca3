//! The inspector of a schema object: its subtabs, what they load and when, and
//! what they show.

use vstd::prelude::*;

use crate::filter::{build_where_clause, where_text, FilterCond, FilterOp};
use crate::schema::{kind_short_label, ColumnInfo, ForeignKeyInfo, IndexInfo, ObjectKind};
use crate::state::LoadState;
use crate::text::{is_empty, join, joined, opt_text, text_eq, texts};

verus! {

/// The part of the inspector that is shown.
#[derive(Debug, Clone, Copy, PartialEq, Eq, Structural)]
pub enum SubTab {
    Structure,
    Data,
    Source,
}

/// The inspector of one object. Each part is loaded the first time that it is
/// shown.
#[derive(Debug)]
pub struct ObjectViewState {
    pub kind: ObjectKind,
    pub db: String,
    pub name: String,
    pub sub: SubTab,
    pub columns: LoadState<Vec<ColumnInfo>>,
    pub indexes: LoadState<Vec<IndexInfo>>,
    pub foreign_keys: LoadState<Vec<ForeignKeyInfo>>,
    pub source: LoadState<String>,
    /// The id of the result tab that holds the rows.
    pub data: LoadState<u64>,
    /// The conditions as the user has them. They outlive a reload of the rows.
    pub data_filters: Vec<FilterCond>,
    /// The conditions in effect, without the word `WHERE`.
    pub applied_where: Option<String>,
    /// Whether the source is being edited.
    pub source_editing: bool,
    /// The source as the user has it.
    pub source_buffer: String,
    /// The source as it was when the user began.
    pub source_original: String,
}

/// What the inspector asks for.
#[derive(Debug, Clone)]
pub enum ObjectAction {
    LoadColumns,
    LoadIndexes,
    LoadForeignKeys,
    LoadSource,
    LoadData,
    /// Create the object anew from this source.
    SaveSource(String),
    AddColumn,
    DropColumn { name: String },
    ModifyColumn { name: String },
    ApplyDataFilter,
    ClearDataFilter,
}

/// What an [`ObjectAction`] says.
#[verifier::ext_equal]
pub enum ObjectIntent {
    LoadColumns,
    LoadIndexes,
    LoadForeignKeys,
    LoadSource,
    LoadData,
    SaveSource(Seq<char>),
    AddColumn,
    DropColumn(Seq<char>),
    ModifyColumn(Seq<char>),
    ApplyDataFilter,
    ClearDataFilter,
}

impl View for ObjectAction {
    type V = ObjectIntent;

    open spec fn view(&self) -> ObjectIntent {
        match *self {
            ObjectAction::LoadColumns => ObjectIntent::LoadColumns,
            ObjectAction::LoadIndexes => ObjectIntent::LoadIndexes,
            ObjectAction::LoadForeignKeys => ObjectIntent::LoadForeignKeys,
            ObjectAction::LoadSource => ObjectIntent::LoadSource,
            ObjectAction::LoadData => ObjectIntent::LoadData,
            ObjectAction::SaveSource(body) => ObjectIntent::SaveSource(body@),
            ObjectAction::AddColumn => ObjectIntent::AddColumn,
            ObjectAction::DropColumn { name } => ObjectIntent::DropColumn(name@),
            ObjectAction::ModifyColumn { name } => ObjectIntent::ModifyColumn(name@),
            ObjectAction::ApplyDataFilter => ObjectIntent::ApplyDataFilter,
            ObjectAction::ClearDataFilter => ObjectIntent::ClearDataFilter,
        }
    }
}

/// What each action says.
pub open spec fn object_intents(actions: Seq<ObjectAction>) -> Seq<ObjectIntent> {
    actions.map_values(|a: ObjectAction| a@)
}

/// One intent, where it is wanted.
pub open spec fn wanted(on: bool, intent: ObjectIntent) -> Seq<ObjectIntent> {
    if on {
        seq![intent]
    } else {
        seq![]
    }
}

/// Push an action where it is wanted.
fn push_action(out: &mut Vec<ObjectAction>, on: bool, action: ObjectAction)
    ensures
        object_intents(final(out)@) == object_intents(old(out)@) + wanted(on, action@),
{
    let ghost before = object_intents(out@);
    if on {
        out.push(action);
    }
    assert(object_intents(out@) =~= before + wanted(on, action@));
}

/// Whether the source of such an object can be edited in place. Tables have
/// their column editor; triggers and events hang on a table or a schedule.
pub fn supports_source_editing(kind: ObjectKind) -> (res: bool)
    ensures
        res == (kind == ObjectKind::Procedure || kind == ObjectKind::Function || kind
            == ObjectKind::View),
{
    match kind {
        ObjectKind::Procedure | ObjectKind::Function | ObjectKind::View => true,
        _ => false,
    }
}

/// The object has columns.
pub open spec fn has_columns(kind: ObjectKind) -> bool {
    kind == ObjectKind::Table || kind == ObjectKind::View
}

/// Whether such an object has a structure to show.
pub fn supports_structure(kind: ObjectKind) -> (res: bool)
    ensures
        res == has_columns(kind),
{
    match kind {
        ObjectKind::Table | ObjectKind::View => true,
        _ => false,
    }
}

/// Whether such an object has rows to show.
pub fn supports_data(kind: ObjectKind) -> (res: bool)
    ensures
        res == has_columns(kind),
{
    match kind {
        ObjectKind::Table | ObjectKind::View => true,
        _ => false,
    }
}

/// Whether such an object can have foreign keys.
pub fn supports_foreign_keys(kind: ObjectKind) -> (res: bool)
    ensures
        res == (kind == ObjectKind::Table),
{
    match kind {
        ObjectKind::Table => true,
        _ => false,
    }
}

/// Whether the columns of such an object can be changed one by one. Those of a
/// view cannot.
pub fn supports_column_editing(kind: ObjectKind) -> (res: bool)
    ensures
        res == (kind == ObjectKind::Table),
{
    match kind {
        ObjectKind::Table => true,
        _ => false,
    }
}

/// The part that is shown first.
pub open spec fn first_sub(kind: ObjectKind) -> SubTab {
    if has_columns(kind) {
        SubTab::Structure
    } else {
        SubTab::Source
    }
}

fn default_sub(kind: ObjectKind) -> (res: SubTab)
    ensures
        res == first_sub(kind),
{
    if supports_structure(kind) {
        SubTab::Structure
    } else {
        SubTab::Source
    }
}

/// Name of a kind of object.
pub open spec fn kind_name(kind: ObjectKind) -> Seq<char> {
    match kind {
        ObjectKind::Table => "Table"@,
        ObjectKind::View => "View"@,
        ObjectKind::Procedure => "Procedure"@,
        ObjectKind::Function => "Function"@,
        ObjectKind::Trigger => "Trigger"@,
        ObjectKind::Event => "Event"@,
    }
}

/// Name of a kind of object.
pub fn kind_label(kind: ObjectKind) -> (res: &'static str)
    ensures
        res@ == kind_name(kind),
{
    match kind {
        ObjectKind::Table => "Table",
        ObjectKind::View => "View",
        ObjectKind::Procedure => "Procedure",
        ObjectKind::Function => "Function",
        ObjectKind::Trigger => "Trigger",
        ObjectKind::Event => "Event",
    }
}

/// The columns, as far as they are loaded.
pub open spec fn loaded_columns(columns: LoadState<Vec<ColumnInfo>>) -> Seq<ColumnInfo> {
    match columns {
        LoadState::Loaded(cols) => cols@,
        _ => seq![],
    }
}

/// The state of a load once it was asked for.
pub open spec fn asked_for<T>(s: LoadState<T>) -> LoadState<T> {
    if s is NotLoaded {
        LoadState::Loading
    } else {
        s
    }
}

/// What the user clicked in the Structure part.
#[derive(Debug, Clone, Copy)]
pub struct StructureClicks {
    /// Place of the column whose Edit was clicked.
    pub edit: Option<usize>,
    /// Place of the column whose Drop was clicked.
    pub drop: Option<usize>,
    pub add: bool,
}

/// The column that a click names, where there is such a column.
pub open spec fn clicked_column(columns: Seq<ColumnInfo>, at: Option<usize>) -> Option<Seq<char>> {
    match at {
        Some(i) => if i < columns.len() {
            Some(columns[i as int].name@)
        } else {
            None
        },
        None => None,
    }
}

/// What the Structure part asks for: what was not asked for yet, and what the
/// user clicked. Only the columns of a table can be changed.
pub open spec fn structure_intents(s: ObjectViewState, clicks: StructureClicks) -> Seq<ObjectIntent> {
    let table = s.kind == ObjectKind::Table;
    let columns = loaded_columns(s.columns);
    let edit = clicked_column(columns, clicks.edit);
    let drop = clicked_column(columns, clicks.drop);
    wanted(s.columns is NotLoaded, ObjectIntent::LoadColumns) + wanted(
        s.indexes is NotLoaded,
        ObjectIntent::LoadIndexes,
    ) + wanted(table && s.foreign_keys is NotLoaded, ObjectIntent::LoadForeignKeys) + wanted(
        table && edit is Some,
        ObjectIntent::ModifyColumn(edit->0),
    ) + wanted(table && drop is Some, ObjectIntent::DropColumn(drop->0)) + wanted(
        table && clicks.add,
        ObjectIntent::AddColumn,
    )
}

/// The inspector once the Structure part was shown.
pub open spec fn structure_shown(s: ObjectViewState) -> ObjectViewState {
    ObjectViewState {
        columns: asked_for(s.columns),
        indexes: asked_for(s.indexes),
        foreign_keys: if s.kind == ObjectKind::Table {
            asked_for(s.foreign_keys)
        } else {
            s.foreign_keys
        },
        ..s
    }
}

fn column_at(columns: &LoadState<Vec<ColumnInfo>>, at: Option<usize>) -> (res: Option<String>)
    ensures
        opt_text(res) == clicked_column(loaded_columns(*columns), at),
{
    match columns {
        LoadState::Loaded(cols) => match at {
            Some(i) => if i < cols.len() {
                Some(cols[i].name.clone())
            } else {
                None
            },
            None => None,
        },
        _ => None,
    }
}

/// What the user clicked in the filter bar.
#[derive(Debug, Clone, Copy)]
pub struct FilterClicks {
    pub add: bool,
    pub apply: bool,
    pub clear: bool,
    /// Place of the condition in whose value Enter was pressed.
    pub entered: Option<usize>,
    /// Place of the condition whose removal was clicked.
    pub remove: Option<usize>,
}

/// What each condition says.
pub open spec fn cond_views(filters: Seq<FilterCond>) -> Seq<(Seq<char>, FilterOp, Seq<char>)> {
    filters.map_values(|f: FilterCond| (f.column@, f.op, f.value@))
}

/// The conditions after a click on Add, which takes a loaded column: one more,
/// on the first column, equal to nothing yet.
pub open spec fn with_added(
    conds: Seq<(Seq<char>, FilterOp, Seq<char>)>,
    columns: Seq<ColumnInfo>,
    add: bool,
) -> Seq<(Seq<char>, FilterOp, Seq<char>)> {
    if add && columns.len() > 0 {
        conds.push((columns[0].name@, FilterOp::Eq, seq![]))
    } else {
        conds
    }
}

/// `conds` without the one at `at`, where there is one.
pub open spec fn without(
    conds: Seq<(Seq<char>, FilterOp, Seq<char>)>,
    at: Option<usize>,
) -> Seq<(Seq<char>, FilterOp, Seq<char>)> {
    match at {
        Some(i) => if i < conds.len() {
            conds.remove(i as int)
        } else {
            conds
        },
        None => conds,
    }
}

/// A value is being typed for the condition that Enter was pressed in.
pub open spec fn enters_value(filters: Seq<FilterCond>, at: Option<usize>) -> bool {
    match at {
        Some(i) => i < filters.len() && filters[i as int].op != FilterOp::IsNull
            && filters[i as int].op != FilterOp::IsNotNull,
        None => false,
    }
}

/// What the filter bar asks for. Apply and Clear are there while there are
/// conditions.
pub open spec fn filter_intents(
    filters: Seq<FilterCond>,
    columns: Seq<ColumnInfo>,
    clicks: FilterClicks,
) -> Seq<ObjectIntent> {
    let some = with_added(cond_views(filters), columns, clicks.add).len() > 0;
    wanted(
        (some && clicks.apply) || enters_value(filters, clicks.entered),
        ObjectIntent::ApplyDataFilter,
    ) + wanted(some && clicks.clear, ObjectIntent::ClearDataFilter)
}

/// What the user clicked in the Source part.
#[derive(Debug, Clone, Copy)]
pub struct SourceClicks {
    pub edit: bool,
    pub save: bool,
    pub revert: bool,
}

/// The source can be edited, and is there.
pub open spec fn source_editable(s: ObjectViewState) -> bool {
    &&& s.kind == ObjectKind::Procedure || s.kind == ObjectKind::Function || s.kind
        == ObjectKind::View
    &&& s.source is Loaded
}

/// The line above the inspector.
pub open spec fn title_text(kind: ObjectKind, db: Seq<char>, name: Seq<char>) -> Seq<char> {
    kind_short_label(kind) + " "@ + kind_name(kind) + " · "@ + db + "."@ + name
}

impl ObjectViewState {
    /// The inspector of an object, with nothing loaded.
    pub fn new(kind: ObjectKind, db: String, name: String) -> (res: ObjectViewState)
        ensures
            res.kind == kind,
            res.db == db,
            res.name == name,
            res.sub == first_sub(kind),
            res.columns is NotLoaded,
            res.indexes is NotLoaded,
            res.foreign_keys is NotLoaded,
            res.source is NotLoaded,
            res.data is NotLoaded,
            res.data_filters@.len() == 0,
            res.applied_where is None,
            !res.source_editing,
            res.source_buffer@.len() == 0,
            res.source_original@.len() == 0,
    {
        ObjectViewState {
            kind,
            db,
            name,
            sub: default_sub(kind),
            columns: LoadState::NotLoaded,
            indexes: LoadState::NotLoaded,
            foreign_keys: LoadState::NotLoaded,
            source: LoadState::NotLoaded,
            data: LoadState::NotLoaded,
            data_filters: Vec::new(),
            applied_where: None,
            source_editing: false,
            source_buffer: String::new(),
            source_original: String::new(),
        }
    }

    /// The id of the result tab that holds the rows, once they are loaded.
    pub fn data_tab_id(&self) -> (res: Option<u64>)
        ensures
            res == (match self.data {
                LoadState::Loaded(id) => Some(id),
                _ => None,
            }),
    {
        match &self.data {
            LoadState::Loaded(id) => Some(*id),
            _ => None,
        }
    }

    /// The source is being edited and has changed.
    pub open spec fn is_source_dirty(self) -> bool {
        self.source_editing && self.source_buffer@ != self.source_original@
    }

    /// Whether the source is being edited and has changed.
    pub fn source_dirty(&self) -> (res: bool)
        ensures
            res == self.is_source_dirty(),
    {
        self.source_editing && !text_eq(self.source_buffer.as_str(), self.source_original.as_str())
    }

    /// The line above the inspector.
    pub fn title_line(&self) -> (res: String)
        ensures
            res@ == title_text(self.kind, self.db@, self.name@),
    {
        let mut out = self.kind.short_label().to_string();
        out.append(" ");
        out.append(kind_label(self.kind));
        out.append(" · ");
        out.append(self.db.as_str());
        out.append(".");
        out.append(self.name.as_str());
        out
    }

    /// Show another part, given which were clicked. Parts that the object does
    /// not have cannot be.
    pub fn choose_sub(&mut self, structure: bool, data: bool, source: bool)
        ensures
            *final(self) == (ObjectViewState {
                sub: if source {
                    SubTab::Source
                } else if data && has_columns(old(self).kind) {
                    SubTab::Data
                } else if structure && has_columns(old(self).kind) {
                    SubTab::Structure
                } else {
                    old(self).sub
                },
                ..*old(self)
            }),
    {
        if structure && supports_structure(self.kind) {
            self.sub = SubTab::Structure;
        }
        if data && supports_data(self.kind) {
            self.sub = SubTab::Data;
        }
        if source {
            self.sub = SubTab::Source;
        }
    }

    /// Show the Structure part: ask for what was not asked for yet, and for what
    /// the user clicked.
    pub fn show_structure(&mut self, clicks: StructureClicks) -> (res: Vec<ObjectAction>)
        ensures
            *final(self) == structure_shown(*old(self)),
            object_intents(res@) == structure_intents(*old(self), clicks),
    {
        let ghost before = *self;
        let mut out: Vec<ObjectAction> = Vec::new();
        assert(object_intents(out@) =~= Seq::<ObjectIntent>::empty());
        let load = self.columns.begin();
        push_action(&mut out, load, ObjectAction::LoadColumns);
        assert(Seq::<ObjectIntent>::empty() + wanted(load, ObjectIntent::LoadColumns) =~= wanted(
            load,
            ObjectIntent::LoadColumns,
        ));
        let load = self.indexes.begin();
        push_action(&mut out, load, ObjectAction::LoadIndexes);
        let load = supports_foreign_keys(self.kind) && self.foreign_keys.begin();
        push_action(&mut out, load, ObjectAction::LoadForeignKeys);
        let editable = supports_column_editing(self.kind);
        assert(loaded_columns(self.columns) =~= loaded_columns(before.columns));
        match column_at(&self.columns, clicks.edit) {
            Some(name) => push_action(&mut out, editable, ObjectAction::ModifyColumn { name }),
            None => {
                assert(object_intents(out@) + Seq::<ObjectIntent>::empty() =~= object_intents(
                    out@,
                ));
            },
        }
        match column_at(&self.columns, clicks.drop) {
            Some(name) => push_action(&mut out, editable, ObjectAction::DropColumn { name }),
            None => {
                assert(object_intents(out@) + Seq::<ObjectIntent>::empty() =~= object_intents(
                    out@,
                ));
            },
        }
        push_action(&mut out, editable && clicks.add, ObjectAction::AddColumn);
        out
    }

    /// Show the filter bar: change the conditions as the user clicked, and ask
    /// for what that comes to. Adding takes a loaded column, whose first one it
    /// picks.
    pub fn filter_bar(&mut self, clicks: FilterClicks) -> (res: Vec<ObjectAction>)
        ensures
            object_intents(res@) == filter_intents(
                old(self).data_filters@,
                loaded_columns(old(self).columns),
                clicks,
            ),
            *final(self) == (ObjectViewState {
                data_filters: final(self).data_filters,
                ..*old(self)
            }),
            cond_views(final(self).data_filters@) == without(
                with_added(
                    cond_views(old(self).data_filters@),
                    loaded_columns(old(self).columns),
                    clicks.add,
                ),
                clicks.remove,
            ),
    {
        let ghost before = self.data_filters@;
        let apply = match clicks.entered {
            Some(i) => i < self.data_filters.len() && self.data_filters[i].op.needs_value(),
            None => false,
        };
        let first = column_at(&self.columns, Some(0));
        if clicks.add {
            if let Some(column) = first {
                self.data_filters.push(FilterCond { column, op: FilterOp::Eq, value: String::new() });
            }
        }
        let some = self.data_filters.len() > 0;
        let ghost added = self.data_filters@;
        if let Some(i) = clicks.remove {
            if i < self.data_filters.len() {
                self.data_filters.remove(i);
            }
        }
        assert(cond_views(added) =~= with_added(
            cond_views(before),
            loaded_columns(old(self).columns),
            clicks.add,
        ));
        assert(cond_views(self.data_filters@) =~= without(cond_views(added), clicks.remove));
        let mut out: Vec<ObjectAction> = Vec::new();
        assert(object_intents(out@) =~= Seq::<ObjectIntent>::empty());
        let applies = (some && clicks.apply) || apply;
        push_action(&mut out, applies, ObjectAction::ApplyDataFilter);
        assert(Seq::<ObjectIntent>::empty() + wanted(applies, ObjectIntent::ApplyDataFilter)
            =~= wanted(applies, ObjectIntent::ApplyDataFilter));
        push_action(&mut out, some && clicks.clear, ObjectAction::ClearDataFilter);
        out
    }

    /// Show the rows, given whether the result tab that held them is still there
    /// and whether Retry was clicked: ask for them the first time, and again
    /// after a failure. Rows whose tab is gone are asked for anew next time.
    pub fn show_data(&mut self, tab_alive: bool, retry: bool) -> (res: Vec<ObjectAction>)
        ensures
            *final(self) == (ObjectViewState {
                data: match old(self).data {
                    LoadState::NotLoaded => LoadState::Loading,
                    LoadState::Loading => LoadState::Loading,
                    LoadState::Error(e) => if retry {
                        LoadState::Loading
                    } else {
                        old(self).data
                    },
                    LoadState::Loaded(_) => if tab_alive {
                        old(self).data
                    } else {
                        LoadState::NotLoaded
                    },
                },
                ..*old(self)
            }),
            object_intents(res@) == wanted(
                old(self).data is NotLoaded || (old(self).data is Error && retry),
                ObjectIntent::LoadData,
            ),
    {
        let mut out: Vec<ObjectAction> = Vec::new();
        assert(object_intents(out@) =~= Seq::<ObjectIntent>::empty());
        let load = match &self.data {
            LoadState::NotLoaded => true,
            LoadState::Loading => false,
            LoadState::Error(_) => retry,
            LoadState::Loaded(_) => false,
        };
        let evicted = match &self.data {
            LoadState::Loaded(_) => !tab_alive,
            _ => false,
        };
        if load {
            self.data = LoadState::Loading;
        }
        if evicted {
            self.data = LoadState::NotLoaded;
        }
        push_action(&mut out, load, ObjectAction::LoadData);
        assert(Seq::<ObjectIntent>::empty() + wanted(load, ObjectIntent::LoadData) =~= wanted(
            load,
            ObjectIntent::LoadData,
        ));
        out
    }

    /// Ask for the columns, which the filter bar offers, if they were not asked
    /// for yet.
    pub fn begin_data(&mut self) -> (res: Vec<ObjectAction>)
        ensures
            *final(self) == (ObjectViewState {
                columns: asked_for(old(self).columns),
                ..*old(self)
            }),
            object_intents(res@) == wanted(
                old(self).columns is NotLoaded,
                ObjectIntent::LoadColumns,
            ),
    {
        let mut out: Vec<ObjectAction> = Vec::new();
        let load = self.columns.begin();
        push_action(&mut out, load, ObjectAction::LoadColumns);
        assert(object_intents(out@) =~= wanted(load, ObjectIntent::LoadColumns));
        out
    }

    /// Put the conditions into effect, and have the rows loaded anew.
    pub fn apply_filter(&mut self)
        ensures
            *final(self) == (ObjectViewState {
                applied_where: final(self).applied_where,
                data: LoadState::NotLoaded,
                ..*old(self)
            }),
            opt_text(final(self).applied_where) == where_text(
                old(self).data_filters@,
                loaded_columns(old(self).columns),
            ),
    {
        let none: Vec<ColumnInfo> = Vec::new();
        assert(none@ =~= Seq::<ColumnInfo>::empty());
        self.applied_where = match &self.columns {
            LoadState::Loaded(columns) => build_where_clause(
                self.data_filters.as_slice(),
                columns.as_slice(),
            ),
            _ => build_where_clause(self.data_filters.as_slice(), none.as_slice()),
        };
        self.data = LoadState::NotLoaded;
    }

    /// Drop all conditions, and have the rows loaded anew.
    pub fn clear_filter(&mut self)
        ensures
            *final(self) == (ObjectViewState {
                data_filters: final(self).data_filters,
                applied_where: None,
                data: LoadState::NotLoaded,
                ..*old(self)
            }),
            final(self).data_filters@.len() == 0,
    {
        self.data_filters = Vec::new();
        self.applied_where = None;
        self.data = LoadState::NotLoaded;
    }

    /// Show the Source part, given what was clicked. Edit, Save and Revert are
    /// there while the source is loaded and its kind of object can be edited.
    pub fn show_source(&mut self, clicks: SourceClicks) -> (res: Vec<ObjectAction>)
        ensures
            *final(self) == (ObjectViewState {
                source: asked_for(old(self).source),
                source_editing: final(self).source_editing,
                source_buffer: final(self).source_buffer,
                source_original: final(self).source_original,
                ..*old(self)
            }),
            source_editable(*old(self)) && !old(self).source_editing && clicks.edit ==> {
                &&& final(self).source_editing
                &&& final(self).source_buffer@ == old(self).source->Loaded_0@
                &&& final(self).source_original@ == old(self).source->Loaded_0@
            },
            source_editable(*old(self)) && old(self).source_editing && clicks.revert ==> {
                &&& !final(self).source_editing
                &&& final(self).source_buffer@.len() == 0
                &&& final(self).source_original@.len() == 0
            },
            !source_editable(*old(self)) || (if old(self).source_editing {
                !clicks.revert
            } else {
                !clicks.edit
            }) ==> {
                &&& final(self).source_editing == old(self).source_editing
                &&& final(self).source_buffer == old(self).source_buffer
                &&& final(self).source_original == old(self).source_original
            },
            object_intents(res@) == wanted(
                old(self).source is NotLoaded,
                ObjectIntent::LoadSource,
            ) + wanted(
                source_editable(*old(self)) && old(self).source_editing && clicks.save,
                ObjectIntent::SaveSource(final(self).source_buffer@),
            ),
    {
        let mut out: Vec<ObjectAction> = Vec::new();
        let load = self.source.begin();
        push_action(&mut out, load, ObjectAction::LoadSource);
        assert(object_intents(out@) =~= wanted(load, ObjectIntent::LoadSource));
        let ddl = match &self.source {
            LoadState::Loaded(ddl) => Some(ddl.clone()),
            _ => None,
        };
        let mut save = false;
        if supports_source_editing(self.kind) {
            if let Some(ddl) = ddl {
                if !self.source_editing {
                    if clicks.edit {
                        self.source_buffer = ddl.clone();
                        self.source_original = ddl;
                        self.source_editing = true;
                    }
                } else {
                    save = clicks.save;
                    if clicks.revert {
                        self.source_editing = false;
                        self.source_buffer = String::new();
                        self.source_original = String::new();
                    }
                }
            }
        }
        push_action(&mut out, save, ObjectAction::SaveSource(self.source_buffer.clone()));
        out
    }

    /// The source was saved: leave the edit mode, and have it loaded anew.
    pub fn source_replaced(&mut self)
        ensures
            *final(self) == (ObjectViewState {
                source: LoadState::NotLoaded,
                source_editing: false,
                ..*old(self)
            }),
    {
        self.source = LoadState::NotLoaded;
        self.source_editing = false;
    }

    /// The columns have changed: have everything that rests on them loaded anew.
    pub fn columns_altered(&mut self)
        ensures
            *final(self) == (ObjectViewState {
                columns: LoadState::NotLoaded,
                indexes: LoadState::NotLoaded,
                foreign_keys: LoadState::NotLoaded,
                data: LoadState::NotLoaded,
                ..*old(self)
            }),
    {
        self.columns = LoadState::NotLoaded;
        self.indexes = LoadState::NotLoaded;
        self.foreign_keys = LoadState::NotLoaded;
        self.data = LoadState::NotLoaded;
    }
}

/// Each part is asked for once: showing the structure again, with nothing
/// clicked, asks for nothing, as long as what was asked for is under way, there,
/// or failed.
pub proof fn law_structure_is_asked_for_once(s: ObjectViewState)
    ensures
        structure_intents(
            structure_shown(s),
            StructureClicks { edit: None, drop: None, add: false },
        ).len() == 0,
        structure_shown(structure_shown(s)) == structure_shown(s),
{
}

/// Headers of the table of columns. The last one stands over the buttons.
pub fn column_headers(editable: bool) -> (res: Vec<&'static str>)
    ensures
        res@ == (if editable {
            seq!["Name", "Type", "Null", "PK", "Default", "Extra", "Comment", ""]
        } else {
            seq!["Name", "Type", "Null", "PK", "Default", "Extra", "Comment"]
        }),
{
    if editable {
        vec!["Name", "Type", "Null", "PK", "Default", "Extra", "Comment", ""]
    } else {
        vec!["Name", "Type", "Null", "PK", "Default", "Extra", "Comment"]
    }
}

/// The mark for something that holds.
pub open spec fn check_mark(on: bool) -> Seq<char> {
    if on {
        "✓"@
    } else {
        ""@
    }
}

fn mark(on: bool) -> (res: &'static str)
    ensures
        res@ == check_mark(on),
{
    if on {
        "✓"
    } else {
        ""
    }
}

/// What the table of columns shows of a column.
pub open spec fn column_cells(c: ColumnInfo) -> Seq<Seq<char>> {
    seq![
        c.name@,
        c.data_type@,
        if c.nullable {
            "YES"@
        } else {
            "NO"@
        },
        check_mark(c.is_pk),
        match c.default_value {
            Some(v) => v@,
            None => seq![],
        },
        c.extra@,
        c.comment@,
    ]
}

/// What the table of columns shows of a column.
pub fn column_row(c: &ColumnInfo) -> (res: Vec<String>)
    ensures
        texts(res@) == column_cells(*c),
{
    let default_value = match &c.default_value {
        Some(v) => v.clone(),
        None => String::new(),
    };
    let nullable = if c.nullable {
        "YES".to_string()
    } else {
        "NO".to_string()
    };
    let mut out: Vec<String> = Vec::new();
    out.push(c.name.clone());
    out.push(c.data_type.clone());
    out.push(nullable);
    out.push(mark(c.is_pk).to_string());
    out.push(default_value);
    out.push(c.extra.clone());
    out.push(c.comment.clone());
    assert(default_value@ =~= (match c.default_value {
        Some(v) => v@,
        None => seq![],
    }));
    assert(texts(out@) =~= column_cells(*c));
    out
}

/// What the table of indexes shows of an index.
pub fn index_row(i: &IndexInfo) -> (res: Vec<String>)
    ensures
        texts(res@) == seq![
            i.name@,
            joined(texts(i.columns@), ", "@),
            check_mark(i.unique),
            i.index_type@,
        ],
{
    let mut out: Vec<String> = Vec::new();
    out.push(i.name.clone());
    out.push(join(&i.columns, ", "));
    out.push(mark(i.unique).to_string());
    out.push(i.index_type.clone());
    assert(texts(out@) =~= seq![
        i.name@,
        joined(texts(i.columns@), ", "@),
        check_mark(i.unique),
        i.index_type@,
    ]);
    out
}

/// The line that says what a foreign key refers to.
pub fn reference_line(fk: &ForeignKeyInfo) -> (res: String)
    ensures
        res@ == "("@ + joined(texts(fk.columns@), ", "@) + ") → `"@ + fk.ref_db@ + "`.`"@
            + fk.ref_table@ + "` ("@ + joined(texts(fk.ref_columns@), ", "@) + ")"@,
{
    let mut out = "(".to_string();
    out.append(join(&fk.columns, ", ").as_str());
    out.append(") → `");
    out.append(fk.ref_db.as_str());
    out.append("`.`");
    out.append(fk.ref_table.as_str());
    out.append("` (");
    out.append(join(&fk.ref_columns, ", ").as_str());
    out.append(")");
    out
}

/// The line that says what a foreign key does.
pub fn rules_line(fk: &ForeignKeyInfo) -> (res: String)
    ensures
        res@ == "ON DELETE "@ + fk.on_delete@ + " · ON UPDATE "@ + fk.on_update@,
{
    let mut out = "ON DELETE ".to_string();
    out.append(fk.on_delete.as_str());
    out.append(" · ON UPDATE ");
    out.append(fk.on_update.as_str());
    out
}

/// What stands for the column of a condition.
pub fn filter_column_label(cond: &FilterCond) -> (res: String)
    ensures
        res@ == (if cond.column@.len() == 0 {
            "(column)"@
        } else {
            cond.column@
        }),
{
    if is_empty(cond.column.as_str()) {
        "(column)".to_string()
    } else {
        cond.column.clone()
    }
}

proof fn lemma_wanted(a: Seq<ObjectIntent>, on: bool, x: ObjectIntent)
    ensures
        forall|y: ObjectIntent| #[trigger] (a + wanted(on, x)).contains(y) <==> a.contains(y) || (on
            && x == y),
        forall|y: ObjectIntent| #[trigger] wanted(on, x).contains(y) <==> on && x == y,
{
    let c = wanted(on, x);
    let all = a + c;
    if on {
        assert(c[0] == x);
        assert(all[a.len() as int] == x);
    }
    assert forall|y: ObjectIntent| #[trigger] all.contains(y) <==> a.contains(y) || (on && x
        == y) by {
        if all.contains(y) {
            let k = choose|k: int| 0 <= k < all.len() && all[k] == y;
            if k < a.len() {
                assert(a[k] == y);
            }
        }
        if a.contains(y) {
            let k = choose|k: int| 0 <= k < a.len() && a[k] == y;
            assert(all[k] == y);
        }
    }
}

/// The Structure part asks for what was not asked for yet, and for a change of a
/// column exactly where the object is a table and a column that is shown, or Add,
/// was clicked. Only a table has foreign keys to ask for.
pub proof fn law_structure_asks(s: ObjectViewState, clicks: StructureClicks, intent: ObjectIntent)
    ensures
        structure_intents(s, clicks).contains(intent) <==> match intent {
            ObjectIntent::LoadColumns => s.columns is NotLoaded,
            ObjectIntent::LoadIndexes => s.indexes is NotLoaded,
            ObjectIntent::LoadForeignKeys => s.kind == ObjectKind::Table
                && s.foreign_keys is NotLoaded,
            ObjectIntent::ModifyColumn(name) => s.kind == ObjectKind::Table && match (
                s.columns,
                clicks.edit,
            ) {
                (LoadState::Loaded(cols), Some(i)) => i < cols@.len() && cols@[i as int].name@
                    == name,
                _ => false,
            },
            ObjectIntent::DropColumn(name) => s.kind == ObjectKind::Table && match (
                s.columns,
                clicks.drop,
            ) {
                (LoadState::Loaded(cols), Some(i)) => i < cols@.len() && cols@[i as int].name@
                    == name,
                _ => false,
            },
            ObjectIntent::AddColumn => s.kind == ObjectKind::Table && clicks.add,
            _ => false,
        },
{
    let table = s.kind == ObjectKind::Table;
    let columns = loaded_columns(s.columns);
    let edit = clicked_column(columns, clicks.edit);
    let drop = clicked_column(columns, clicks.drop);
    let keys = table && s.foreign_keys is NotLoaded;
    let a = wanted(s.columns is NotLoaded, ObjectIntent::LoadColumns);
    let b = a + wanted(s.indexes is NotLoaded, ObjectIntent::LoadIndexes);
    let c = b + wanted(keys, ObjectIntent::LoadForeignKeys);
    let d = c + wanted(table && edit is Some, ObjectIntent::ModifyColumn(edit->0));
    let e = d + wanted(table && drop is Some, ObjectIntent::DropColumn(drop->0));
    lemma_wanted(seq![], s.columns is NotLoaded, ObjectIntent::LoadColumns);
    lemma_wanted(a, s.indexes is NotLoaded, ObjectIntent::LoadIndexes);
    lemma_wanted(b, keys, ObjectIntent::LoadForeignKeys);
    lemma_wanted(c, table && edit is Some, ObjectIntent::ModifyColumn(edit->0));
    lemma_wanted(d, table && drop is Some, ObjectIntent::DropColumn(drop->0));
    lemma_wanted(e, table && clicks.add, ObjectIntent::AddColumn);
}

/// Showing the structure marks what was asked for as under way, and touches
/// nothing that was asked for before.
pub proof fn law_structure_is_under_way(s: ObjectViewState)
    ensures
        structure_shown(s).columns !is NotLoaded,
        structure_shown(s).indexes !is NotLoaded,
        s.columns is NotLoaded ==> structure_shown(s).columns is Loading,
        s.indexes is NotLoaded ==> structure_shown(s).indexes is Loading,
        s.columns !is NotLoaded ==> structure_shown(s).columns == s.columns,
        s.indexes !is NotLoaded ==> structure_shown(s).indexes == s.indexes,
        s.kind == ObjectKind::Table && s.foreign_keys is NotLoaded ==> structure_shown(
            s,
        ).foreign_keys is Loading,
        s.kind != ObjectKind::Table || s.foreign_keys !is NotLoaded ==> structure_shown(
            s,
        ).foreign_keys == s.foreign_keys,
        structure_shown(s).kind == s.kind && structure_shown(s).source == s.source
            && structure_shown(s).data == s.data && structure_shown(s).data_filters
            == s.data_filters,
{
}

/// Removing a condition leaves those before it and those after it; adding one
/// puts it last, on the first column, as an equality without a value.
pub proof fn law_conditions_come_and_go(
    a: Seq<(Seq<char>, FilterOp, Seq<char>)>,
    cond: (Seq<char>, FilterOp, Seq<char>),
    b: Seq<(Seq<char>, FilterOp, Seq<char>)>,
    columns: Seq<ColumnInfo>,
    at: usize,
)
    ensures
        a.len() == at ==> without(a + seq![cond] + b, Some(at)) == a + b,
        without(a, None) == a,
        at >= a.len() ==> without(a, Some(at)) == a,
        columns.len() > 0 ==> with_added(a, columns, true) == a + seq![
            (columns[0].name@, FilterOp::Eq, Seq::<char>::empty()),
        ],
        columns.len() == 0 ==> with_added(a, columns, true) == a,
        with_added(a, columns, false) == a,
{
    if a.len() == at {
        assert(without(a + seq![cond] + b, Some(at)) =~= a + b);
    }
    if columns.len() > 0 {
        assert(with_added(a, columns, true) =~= a + seq![
            (columns[0].name@, FilterOp::Eq, Seq::<char>::empty()),
        ]);
    }
}

/// The filter is put into effect by Apply, or by Enter in a value, and dropped by
/// Clear; without conditions neither button does anything.
pub proof fn law_filter_bar_asks(
    filters: Seq<FilterCond>,
    columns: Seq<ColumnInfo>,
    clicks: FilterClicks,
    intent: ObjectIntent,
)
    requires
        !clicks.add,
    ensures
        filter_intents(filters, columns, clicks).contains(intent) <==> match intent {
            ObjectIntent::ApplyDataFilter => (clicks.apply && filters.len() > 0) || (
            clicks.entered matches Some(i) && i < filters.len() && filters[i as int].op
                != FilterOp::IsNull && filters[i as int].op != FilterOp::IsNotNull),
            ObjectIntent::ClearDataFilter => clicks.clear && filters.len() > 0,
            _ => false,
        },
{
    let some = with_added(cond_views(filters), columns, clicks.add).len() > 0;
    let apply = (some && clicks.apply) || enters_value(filters, clicks.entered);
    let a = wanted(apply, ObjectIntent::ApplyDataFilter);
    lemma_wanted(seq![], apply, ObjectIntent::ApplyDataFilter);
    lemma_wanted(a, some && clicks.clear, ObjectIntent::ClearDataFilter);
}

/// An object opens on a part that it has: its structure where it has columns,
/// and its source otherwise.
pub proof fn law_first_part(kind: ObjectKind)
    ensures
        first_sub(kind) == SubTab::Structure <==> kind == ObjectKind::Table || kind
            == ObjectKind::View,
        first_sub(kind) == SubTab::Source <==> !(kind == ObjectKind::Table || kind
            == ObjectKind::View),
{
}

} // verus!
