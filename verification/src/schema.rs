//! Schema metadata: the objects of a database, their kinds, and the
//! statements that read them from the server.

use vstd::prelude::*;

use crate::quote::{qualified, qualified_name};
use crate::text::{begins_with, law_ascii_case, lowered, text_eq, texts, uppercase, uppered};

verus! {

/// Names of the databases of the server, in name order.
pub const DATABASES_SQL: &'static str =
    "SELECT SCHEMA_NAME FROM information_schema.SCHEMATA ORDER BY SCHEMA_NAME";

/// Name and type of each table and view of a database, in name order.
pub const TABLES_SQL: &'static str =
    "SELECT TABLE_NAME, TABLE_TYPE FROM information_schema.TABLES WHERE TABLE_SCHEMA = ? ORDER BY TABLE_NAME";

/// Name and type of each routine of a database, in name order.
pub const ROUTINES_SQL: &'static str =
    "SELECT ROUTINE_NAME, ROUTINE_TYPE FROM information_schema.ROUTINES WHERE ROUTINE_SCHEMA = ? ORDER BY ROUTINE_NAME";

/// Name of each trigger of a database, in name order.
pub const TRIGGERS_SQL: &'static str =
    "SELECT TRIGGER_NAME FROM information_schema.TRIGGERS WHERE TRIGGER_SCHEMA = ? ORDER BY TRIGGER_NAME";

/// Name of each event of a database, in name order.
pub const EVENTS_SQL: &'static str =
    "SELECT EVENT_NAME FROM information_schema.EVENTS WHERE EVENT_SCHEMA = ? ORDER BY EVENT_NAME";

/// Primary-key column names of a table, in key order.
pub const PRIMARY_KEY_SQL: &'static str =
    "SELECT COLUMN_NAME FROM information_schema.KEY_COLUMN_USAGE WHERE TABLE_SCHEMA = ? AND TABLE_NAME = ? AND CONSTRAINT_NAME = 'PRIMARY' ORDER BY ORDINAL_POSITION";

/// Kind of a schema object.
#[derive(Debug, Clone, Copy, PartialEq, Eq, Hash, Structural)]
pub enum ObjectKind {
    Table,
    View,
    Procedure,
    Function,
    Trigger,
    Event,
}

/// Abbreviation of a kind, as the object tree shows it.
pub open spec fn kind_short_label(kind: ObjectKind) -> Seq<char> {
    match kind {
        ObjectKind::Table => "T"@,
        ObjectKind::View => "V"@,
        ObjectKind::Procedure => "P"@,
        ObjectKind::Function => "F"@,
        ObjectKind::Trigger => "Tr"@,
        ObjectKind::Event => "E"@,
    }
}

/// SQL keyword of a kind.
pub open spec fn kind_keyword(kind: ObjectKind) -> Seq<char> {
    match kind {
        ObjectKind::Table => "TABLE"@,
        ObjectKind::View => "VIEW"@,
        ObjectKind::Procedure => "PROCEDURE"@,
        ObjectKind::Function => "FUNCTION"@,
        ObjectKind::Trigger => "TRIGGER"@,
        ObjectKind::Event => "EVENT"@,
    }
}

impl ObjectKind {
    /// Abbreviation, as the object tree shows it.
    pub fn short_label(self) -> (res: &'static str)
        ensures
            res@ == kind_short_label(self),
    {
        match self {
            ObjectKind::Table => "T",
            ObjectKind::View => "V",
            ObjectKind::Procedure => "P",
            ObjectKind::Function => "F",
            ObjectKind::Trigger => "Tr",
            ObjectKind::Event => "E",
        }
    }

    /// SQL keyword.
    pub fn keyword(self) -> (res: &'static str)
        ensures
            res@ == kind_keyword(self),
    {
        match self {
            ObjectKind::Table => "TABLE",
            ObjectKind::View => "VIEW",
            ObjectKind::Procedure => "PROCEDURE",
            ObjectKind::Function => "FUNCTION",
            ObjectKind::Trigger => "TRIGGER",
            ObjectKind::Event => "EVENT",
        }
    }
}

/// A column of a table.
#[derive(Debug, Clone)]
pub struct ColumnInfo {
    pub name: String,
    pub data_type: String,
    pub nullable: bool,
    pub default_value: Option<String>,
    pub is_pk: bool,
    pub extra: String,
    pub comment: String,
}

/// An index of a table.
#[derive(Debug, Clone)]
pub struct IndexInfo {
    pub name: String,
    pub columns: Vec<String>,
    pub unique: bool,
    pub index_type: String,
}

/// A foreign key of a table.
#[derive(Debug, Clone)]
pub struct ForeignKeyInfo {
    pub name: String,
    pub columns: Vec<String>,
    pub ref_db: String,
    pub ref_table: String,
    pub ref_columns: Vec<String>,
    pub on_delete: String,
    pub on_update: String,
}

/// What an [`IndexInfo`] says.
#[verifier::ext_equal]
pub struct IndexView {
    pub name: Seq<char>,
    pub columns: Seq<Seq<char>>,
    pub unique: bool,
    pub index_type: Seq<char>,
}

impl View for IndexInfo {
    type V = IndexView;

    open spec fn view(&self) -> IndexView {
        IndexView {
            name: self.name@,
            columns: texts(self.columns@),
            unique: self.unique,
            index_type: self.index_type@,
        }
    }
}

/// What a [`ForeignKeyInfo`] says.
#[verifier::ext_equal]
pub struct ForeignKeyView {
    pub name: Seq<char>,
    pub columns: Seq<Seq<char>>,
    pub ref_db: Seq<char>,
    pub ref_table: Seq<char>,
    pub ref_columns: Seq<Seq<char>>,
    pub on_delete: Seq<char>,
    pub on_update: Seq<char>,
}

impl View for ForeignKeyInfo {
    type V = ForeignKeyView;

    open spec fn view(&self) -> ForeignKeyView {
        ForeignKeyView {
            name: self.name@,
            columns: texts(self.columns@),
            ref_db: self.ref_db@,
            ref_table: self.ref_table@,
            ref_columns: texts(self.ref_columns@),
            on_delete: self.on_delete@,
            on_update: self.on_update@,
        }
    }
}

/// One column of an index, as the server lists it.
#[derive(Debug, Clone)]
pub struct IndexRow {
    pub name: String,
    pub column: String,
    pub unique: bool,
    pub index_type: String,
}

/// One column of a foreign key, as the server lists it.
#[derive(Debug, Clone)]
pub struct ForeignKeyRow {
    pub name: String,
    pub column: String,
    pub ref_db: String,
    pub ref_table: String,
    pub ref_column: String,
    pub on_delete: String,
    pub on_update: String,
}

/// The objects of a database, by kind.
#[derive(Debug, Clone, PartialEq, Eq)]
pub struct SchemaObjects {
    pub tables: Vec<String>,
    pub views: Vec<String>,
    pub procedures: Vec<String>,
    pub functions: Vec<String>,
    pub triggers: Vec<String>,
    pub events: Vec<String>,
}

/// The names in a [`SchemaObjects`].
#[verifier::ext_equal]
pub struct SchemaNames {
    pub tables: Seq<Seq<char>>,
    pub views: Seq<Seq<char>>,
    pub procedures: Seq<Seq<char>>,
    pub functions: Seq<Seq<char>>,
    pub triggers: Seq<Seq<char>>,
    pub events: Seq<Seq<char>>,
}

impl View for SchemaObjects {
    type V = SchemaNames;

    open spec fn view(&self) -> SchemaNames {
        SchemaNames {
            tables: texts(self.tables@),
            views: texts(self.views@),
            procedures: texts(self.procedures@),
            functions: texts(self.functions@),
            triggers: texts(self.triggers@),
            events: texts(self.events@),
        }
    }
}

impl SchemaNames {
    /// Number of names of all kinds.
    pub open spec fn count(self) -> nat {
        self.tables.len() + self.views.len() + self.procedures.len() + self.functions.len()
            + self.triggers.len() + self.events.len()
    }

    /// The names of one kind.
    pub open spec fn of_kind(self, kind: ObjectKind) -> Seq<Seq<char>> {
        match kind {
            ObjectKind::Table => self.tables,
            ObjectKind::View => self.views,
            ObjectKind::Procedure => self.procedures,
            ObjectKind::Function => self.functions,
            ObjectKind::Trigger => self.triggers,
            ObjectKind::Event => self.events,
        }
    }
}

impl Default for SchemaObjects {
    fn default() -> (res: Self)
        ensures
            res@.count() == 0,
    {
        SchemaObjects {
            tables: Vec::new(),
            views: Vec::new(),
            procedures: Vec::new(),
            functions: Vec::new(),
            triggers: Vec::new(),
            events: Vec::new(),
        }
    }
}

impl SchemaObjects {
    /// Number of objects of all kinds.
    pub fn total(&self) -> (res: usize)
        requires
            self@.count() <= usize::MAX,
        ensures
            res == self@.count(),
    {
        self.tables.len() + self.views.len() + self.procedures.len() + self.functions.len()
            + self.triggers.len() + self.events.len()
    }

    /// The names of one kind.
    pub fn names(&self, kind: ObjectKind) -> (res: &Vec<String>)
        ensures
            texts(res@) == self@.of_kind(kind),
    {
        match kind {
            ObjectKind::Table => &self.tables,
            ObjectKind::View => &self.views,
            ObjectKind::Procedure => &self.procedures,
            ObjectKind::Function => &self.functions,
            ObjectKind::Trigger => &self.triggers,
            ObjectKind::Event => &self.events,
        }
    }
}

/// The schemas that MySQL and MariaDB keep for themselves.
pub open spec fn system_schema(name: Seq<char>) -> bool {
    ||| name == "mysql"@
    ||| name == "information_schema"@
    ||| name == "performance_schema"@
    ||| name == "sys"@
}

/// Whether a schema is one that the server keeps for itself.
pub fn is_system_schema(name: &str) -> (res: bool)
    ensures
        res == system_schema(name@),
{
    text_eq(name, "mysql") || text_eq(name, "information_schema") || text_eq(
        name,
        "performance_schema",
    ) || text_eq(name, "sys")
}

/// The databases of the server without its internal schemas, in the same
/// order.
pub fn list_databases_user(names: Vec<String>) -> (res: Vec<String>)
    ensures
        texts(res@) == texts(names@).filter(|name: Seq<char>| !system_schema(name)),
{
    let mut out: Vec<String> = Vec::new();
    let mut i: usize = 0;
    let ghost all = texts(names@);
    let ghost keep = |name: Seq<char>| !system_schema(name);
    while i < names.len()
        invariant
            i <= names@.len(),
            all == texts(names@),
            keep == (|name: Seq<char>| !system_schema(name)),
            texts(out@) == all.take(i as int).filter(keep),
        decreases names@.len() - i,
    {
        proof {
            assert(all.take(i + 1).drop_last() == all.take(i as int));
            reveal(Seq::filter);
        }
        let ghost before = out@;
        if !is_system_schema(names[i].as_str()) {
            out.push(names[i].clone());
            assert(texts(out@) == texts(before).push(names@[i as int]@));
        }
        i = i + 1;
    }
    assert(all.take(i as int) == all);
    out
}

/// The names of the rows whose type satisfies `pick`.
pub open spec fn names_where(
    rows: Seq<(String, String)>,
    pick: spec_fn(Seq<char>) -> bool,
) -> Seq<Seq<char>>
    decreases rows.len(),
{
    if rows.len() == 0 {
        seq![]
    } else if pick(rows.last().1@) {
        names_where(rows.drop_last(), pick).push(rows.last().0@)
    } else {
        names_where(rows.drop_last(), pick)
    }
}

/// Type names that spell `word`, in any ASCII case.
pub open spec fn of_type(word: Seq<char>) -> spec_fn(Seq<char>) -> bool {
    |t: Seq<char>| uppered(t) == word
}

/// Type names that do not spell `word`.
pub open spec fn not_of_type(word: Seq<char>) -> spec_fn(Seq<char>) -> bool {
    |t: Seq<char>| uppered(t) != word
}

/// Sort the rows of the metadata queries into the objects of a database:
/// tables and views from `(name, type)` rows, where every type but `VIEW`
/// counts as a table; procedures and functions from `(name, type)` rows, other
/// types being left out; triggers and events as they are.
pub fn list_objects(
    tables: Vec<(String, String)>,
    routines: Vec<(String, String)>,
    triggers: Vec<String>,
    events: Vec<String>,
) -> (res: SchemaObjects)
    ensures
        res@.tables == names_where(tables@, not_of_type("VIEW"@)),
        res@.views == names_where(tables@, of_type("VIEW"@)),
        res@.procedures == names_where(routines@, of_type("PROCEDURE"@)),
        res@.functions == names_where(routines@, of_type("FUNCTION"@)),
        res@.triggers == texts(triggers@),
        res@.events == texts(events@),
{
    let mut out = SchemaObjects::default();
    let mut i: usize = 0;
    while i < tables.len()
        invariant
            i <= tables@.len(),
            texts(out.tables@) == names_where(tables@.take(i as int), not_of_type("VIEW"@)),
            texts(out.views@) == names_where(tables@.take(i as int), of_type("VIEW"@)),
            out.procedures@.len() == 0,
            out.functions@.len() == 0,
        decreases tables@.len() - i,
    {
        proof {
            assert(tables@.take(i + 1).drop_last() == tables@.take(i as int));
        }
        let ghost before = out;
        let kind = uppercase(tables[i].1.as_str());
        if text_eq(kind.as_str(), "VIEW") {
            out.views.push(tables[i].0.clone());
            assert(texts(out.views@) == texts(before.views@).push(tables@[i as int].0@));
        } else {
            out.tables.push(tables[i].0.clone());
            assert(texts(out.tables@) == texts(before.tables@).push(tables@[i as int].0@));
        }
        i = i + 1;
    }
    assert(tables@.take(i as int) == tables@);
    let mut j: usize = 0;
    while j < routines.len()
        invariant
            j <= routines@.len(),
            texts(out.tables@) == names_where(tables@, not_of_type("VIEW"@)),
            texts(out.views@) == names_where(tables@, of_type("VIEW"@)),
            texts(out.procedures@) == names_where(
                routines@.take(j as int),
                of_type("PROCEDURE"@),
            ),
            texts(out.functions@) == names_where(routines@.take(j as int), of_type("FUNCTION"@)),
        decreases routines@.len() - j,
    {
        proof {
            assert(routines@.take(j + 1).drop_last() == routines@.take(j as int));
            reveal_strlit("PROCEDURE");
            reveal_strlit("FUNCTION");
            assert("PROCEDURE"@.len() != "FUNCTION"@.len());
        }
        let ghost before = out;
        let kind = uppercase(routines[j].1.as_str());
        if text_eq(kind.as_str(), "PROCEDURE") {
            out.procedures.push(routines[j].0.clone());
            assert(texts(out.procedures@) == texts(before.procedures@).push(
                routines@[j as int].0@,
            ));
        } else if text_eq(kind.as_str(), "FUNCTION") {
            out.functions.push(routines[j].0.clone());
            assert(texts(out.functions@) == texts(before.functions@).push(routines@[j as int].0@));
        }
        j = j + 1;
    }
    assert(routines@.take(j as int) == routines@);
    out.triggers = triggers;
    out.events = events;
    out
}

/// What each index says.
pub open spec fn index_views(indexes: Seq<IndexInfo>) -> Seq<IndexView> {
    indexes.map_values(|i: IndexInfo| i@)
}

/// The indexes that the rows list: each run of rows of one name is an index,
/// with a column for each row.
pub open spec fn indexes_in(rows: Seq<IndexRow>) -> Seq<IndexView>
    decreases rows.len(),
{
    if rows.len() == 0 {
        seq![]
    } else {
        let before = indexes_in(rows.drop_last());
        let row = rows.last();
        if before.len() > 0 && before.last().name == row.name@ {
            let index = before.last();
            before.drop_last().push(IndexView { columns: index.columns.push(row.column@), ..index })
        } else {
            before.push(
                IndexView {
                    name: row.name@,
                    columns: seq![row.column@],
                    unique: row.unique,
                    index_type: row.index_type@,
                },
            )
        }
    }
}

/// Put the rows of an index listing together: one index for each run of rows of
/// one name.
pub fn list_indexes(rows: Vec<IndexRow>) -> (res: Vec<IndexInfo>)
    ensures
        index_views(res@) == indexes_in(rows@),
{
    let mut out: Vec<IndexInfo> = Vec::new();
    let mut i: usize = 0;
    assert(index_views(out@) =~= indexes_in(rows@.take(0)));
    while i < rows.len()
        invariant
            i <= rows@.len(),
            index_views(out@) == indexes_in(rows@.take(i as int)),
        decreases rows@.len() - i,
    {
        let ghost before = out@;
        assert(rows@.take(i + 1).drop_last() =~= rows@.take(i as int));
        let size = out.len();
        let column = rows[i].column.clone();
        if size > 0 && text_eq(out[size - 1].name.as_str(), rows[i].name.as_str()) {
            out[size - 1].columns.push(column);
            proof {
                let last = IndexView {
                    columns: before.last()@.columns.push(rows@[i as int].column@),
                    ..before.last()@
                };
                assert(out@.last()@ =~= last);
                assert(index_views(out@) =~= index_views(before).drop_last().push(last));
            }
        } else {
            let mut columns: Vec<String> = Vec::new();
            columns.push(column);
            out.push(
                IndexInfo {
                    name: rows[i].name.clone(),
                    columns,
                    unique: rows[i].unique,
                    index_type: rows[i].index_type.clone(),
                },
            );
            proof {
                assert(out@.last()@.columns =~= seq![rows@[i as int].column@]);
                assert(index_views(out@) =~= index_views(before).push(out@.last()@));
            }
        }
        i = i + 1;
    }
    assert(rows@.take(i as int) =~= rows@);
    out
}

/// What each foreign key says.
pub open spec fn foreign_key_views(keys: Seq<ForeignKeyInfo>) -> Seq<ForeignKeyView> {
    keys.map_values(|k: ForeignKeyInfo| k@)
}

/// The foreign keys that the rows list: each run of rows of one name is a key,
/// with a pair of columns for each row.
pub open spec fn foreign_keys_in(rows: Seq<ForeignKeyRow>) -> Seq<ForeignKeyView>
    decreases rows.len(),
{
    if rows.len() == 0 {
        seq![]
    } else {
        let before = foreign_keys_in(rows.drop_last());
        let row = rows.last();
        if before.len() > 0 && before.last().name == row.name@ {
            let key = before.last();
            before.drop_last().push(
                ForeignKeyView {
                    columns: key.columns.push(row.column@),
                    ref_columns: key.ref_columns.push(row.ref_column@),
                    ..key
                },
            )
        } else {
            before.push(
                ForeignKeyView {
                    name: row.name@,
                    columns: seq![row.column@],
                    ref_db: row.ref_db@,
                    ref_table: row.ref_table@,
                    ref_columns: seq![row.ref_column@],
                    on_delete: row.on_delete@,
                    on_update: row.on_update@,
                },
            )
        }
    }
}

/// Put the rows of a foreign-key listing together: one key for each run of rows
/// of one name.
pub fn list_foreign_keys(rows: Vec<ForeignKeyRow>) -> (res: Vec<ForeignKeyInfo>)
    ensures
        foreign_key_views(res@) == foreign_keys_in(rows@),
{
    let mut out: Vec<ForeignKeyInfo> = Vec::new();
    let mut i: usize = 0;
    assert(foreign_key_views(out@) =~= foreign_keys_in(rows@.take(0)));
    while i < rows.len()
        invariant
            i <= rows@.len(),
            foreign_key_views(out@) == foreign_keys_in(rows@.take(i as int)),
        decreases rows@.len() - i,
    {
        let ghost before = out@;
        assert(rows@.take(i + 1).drop_last() =~= rows@.take(i as int));
        let size = out.len();
        let row = &rows[i];
        if size > 0 && text_eq(out[size - 1].name.as_str(), row.name.as_str()) {
            out[size - 1].columns.push(row.column.clone());
            out[size - 1].ref_columns.push(row.ref_column.clone());
            proof {
                let last = ForeignKeyView {
                    columns: before.last()@.columns.push(row.column@),
                    ref_columns: before.last()@.ref_columns.push(row.ref_column@),
                    ..before.last()@
                };
                assert(out@.last()@ =~= last);
                assert(foreign_key_views(out@) =~= foreign_key_views(before).drop_last().push(
                    last,
                ));
            }
        } else {
            let mut columns: Vec<String> = Vec::new();
            columns.push(row.column.clone());
            let mut ref_columns: Vec<String> = Vec::new();
            ref_columns.push(row.ref_column.clone());
            out.push(
                ForeignKeyInfo {
                    name: row.name.clone(),
                    columns,
                    ref_db: row.ref_db.clone(),
                    ref_table: row.ref_table.clone(),
                    ref_columns,
                    on_delete: row.on_delete.clone(),
                    on_update: row.on_update.clone(),
                },
            );
            proof {
                assert(out@.last()@.columns =~= seq![row.column@]);
                assert(out@.last()@.ref_columns =~= seq![row.ref_column@]);
                assert(foreign_key_views(out@) =~= foreign_key_views(before).push(out@.last()@));
            }
        }
        i = i + 1;
    }
    assert(rows@.take(i as int) =~= rows@);
    out
}

/// The statement that shows how an object is created.
pub open spec fn show_create_text(db: Seq<char>, kind: ObjectKind, name: Seq<char>) -> Seq<char> {
    "SHOW CREATE "@ + kind_keyword(kind) + " "@ + qualified_name(db, name)
}

/// The statement that shows how an object is created.
pub fn show_create_sql(db: &str, kind: ObjectKind, name: &str) -> (res: String)
    ensures
        res@ == show_create_text(db@, kind, name@),
{
    let mut out = "SHOW CREATE ".to_string();
    out.append(kind.keyword());
    out.append(" ");
    out.append(qualified(db, name).as_str());
    out
}

/// Position of the DDL text in the row that `SHOW CREATE` returns.
pub fn show_create_column(kind: ObjectKind) -> (res: usize)
    ensures
        res == (if kind == ObjectKind::Procedure || kind == ObjectKind::Function {
            2usize
        } else {
            1usize
        }),
{
    match kind {
        ObjectKind::Procedure | ObjectKind::Function => 2,
        _ => 1,
    }
}

/// Every row of the table listing is counted once: as a table or as a view.
pub proof fn law_tables_and_views(rows: Seq<(String, String)>)
    ensures
        names_where(rows, not_of_type("VIEW"@)).len() + names_where(rows, of_type("VIEW"@)).len()
            == rows.len(),
    decreases rows.len(),
{
    if rows.len() > 0 {
        law_tables_and_views(rows.drop_last());
    }
}

/// The rows that an index stands for: one for each of its columns.
pub open spec fn index_rows_of(index: IndexView) -> Seq<(Seq<char>, Seq<char>, bool, Seq<char>)> {
    index.columns.map_values(|c: Seq<char>| (index.name, c, index.unique, index.index_type))
}

/// The rows that several indexes stand for, in order.
pub open spec fn index_rows(indexes: Seq<IndexView>) -> Seq<(Seq<char>, Seq<char>, bool, Seq<char>)>
    decreases indexes.len(),
{
    if indexes.len() == 0 {
        seq![]
    } else {
        index_rows(indexes.drop_last()) + index_rows_of(indexes.last())
    }
}

/// What a row of an index listing says.
pub open spec fn index_row(row: IndexRow) -> (Seq<char>, Seq<char>, bool, Seq<char>) {
    (row.name@, row.column@, row.unique, row.index_type@)
}

/// The indexes of a table stand for exactly the rows of the listing, in order,
/// where rows of one name say the same of the index. No index is empty, and two
/// indexes one after the other have different names.
pub proof fn law_indexes_list_every_row(rows: Seq<IndexRow>)
    requires
        forall|i: int, j: int|
            0 <= i < rows.len() && 0 <= j < rows.len() && (#[trigger] rows[i]).name@ == (
            #[trigger] rows[j]).name@ ==> rows[i].unique == rows[j].unique && rows[i].index_type@
                == rows[j].index_type@,
    ensures
        index_rows(indexes_in(rows)) == rows.map_values(|row: IndexRow| index_row(row)),
        forall|k: int| 0 <= k < indexes_in(rows).len() ==> (#[trigger] indexes_in(
            rows,
        )[k]).columns.len() > 0,
        forall|k: int|
            0 < k < indexes_in(rows).len() ==> (#[trigger] indexes_in(rows)[k]).name != indexes_in(
                rows,
            )[k - 1].name,
    decreases rows.len(),
{
    let all = indexes_in(rows);
    let said = rows.map_values(|row: IndexRow| index_row(row));
    if rows.len() == 0 {
        assert(index_rows(all) =~= said);
    } else {
        let prev = rows.drop_last();
        assert forall|i: int, j: int|
            0 <= i < prev.len() && 0 <= j < prev.len() && (#[trigger] prev[i]).name@ == (
            #[trigger] prev[j]).name@ implies prev[i].unique == prev[j].unique
            && prev[i].index_type@ == prev[j].index_type@ by {
            assert(rows[i] == prev[i] && rows[j] == prev[j]);
        }
        law_indexes_list_every_row(prev);
        let before = indexes_in(prev);
        let row = rows.last();
        let earlier = prev.map_values(|row: IndexRow| index_row(row));
        assert(said =~= earlier.push(index_row(row)));
        assert(all.drop_last() =~= if before.len() > 0 && before.last().name == row.name@ {
            before.drop_last()
        } else {
            before
        });
        if before.len() > 0 && before.last().name == row.name@ {
            let index = before[before.len() - 1];
            assert(index.columns.len() > 0);
            let own = index_rows_of(index);
            assert(index_rows(before) == index_rows(before.drop_last()) + own);
            assert(earlier.last() == own.last());
            assert(prev.len() > 0);
            assert(earlier.last() == index_row(prev[prev.len() - 1]));
            assert(rows[rows.len() - 2] == prev[prev.len() - 1]);
            assert(rows[rows.len() - 1] == row);
            assert(index_rows_of(all.last()) =~= own.push(index_row(row)));
            assert(index_rows(all) =~= said);
            assert forall|k: int| 0 < k < all.len() implies (#[trigger] all[k]).name != all[k
                - 1].name by {
                assert(before[k].name != before[k - 1].name);
            }
            assert forall|k: int| 0 <= k < all.len() implies (
            #[trigger] all[k]).columns.len() > 0 by {
                assert(before[k].columns.len() > 0);
            }
        } else {
            assert(index_rows_of(all.last()) =~= seq![index_row(row)]);
            assert(index_rows(all) =~= said);
            assert forall|k: int| 0 < k < all.len() implies (#[trigger] all[k]).name != all[k
                - 1].name by {
                if k < before.len() {
                    assert(before[k].name != before[k - 1].name);
                } else {
                    assert(before.last().name != row.name@);
                }
            }
            assert forall|k: int| 0 <= k < all.len() implies (
            #[trigger] all[k]).columns.len() > 0 by {
                if k < before.len() {
                    assert(before[k].columns.len() > 0);
                }
            }
        }
    }
}

/// What one row of a foreign-key listing says.
#[verifier::ext_equal]
pub struct KeyRow {
    pub name: Seq<char>,
    pub column: Seq<char>,
    pub ref_db: Seq<char>,
    pub ref_table: Seq<char>,
    pub ref_column: Seq<char>,
    pub on_delete: Seq<char>,
    pub on_update: Seq<char>,
}

/// What a row of a foreign-key listing says.
pub open spec fn key_row(row: ForeignKeyRow) -> KeyRow {
    KeyRow {
        name: row.name@,
        column: row.column@,
        ref_db: row.ref_db@,
        ref_table: row.ref_table@,
        ref_column: row.ref_column@,
        on_delete: row.on_delete@,
        on_update: row.on_update@,
    }
}

/// The rows that a foreign key stands for: one for each pair of columns.
pub open spec fn key_rows_of(key: ForeignKeyView) -> Seq<KeyRow> {
    Seq::new(
        key.columns.len(),
        |i: int|
            KeyRow {
                name: key.name,
                column: key.columns[i],
                ref_db: key.ref_db,
                ref_table: key.ref_table,
                ref_column: key.ref_columns[i],
                on_delete: key.on_delete,
                on_update: key.on_update,
            },
    )
}

/// The rows that several foreign keys stand for, in order.
pub open spec fn key_rows(keys: Seq<ForeignKeyView>) -> Seq<KeyRow>
    decreases keys.len(),
{
    if keys.len() == 0 {
        seq![]
    } else {
        key_rows(keys.drop_last()) + key_rows_of(keys.last())
    }
}

/// Rows of one name say the same of the foreign key.
pub open spec fn keys_agree(a: KeyRow, b: KeyRow) -> bool {
    a.name == b.name ==> a.ref_db == b.ref_db && a.ref_table == b.ref_table && a.on_delete
        == b.on_delete && a.on_update == b.on_update
}

/// The foreign keys of a table stand for exactly the rows of the listing, in
/// order, where rows of one name say the same of the key. A key has as many
/// columns as it refers to, at least one, and two keys one after the other have
/// different names.
pub proof fn law_foreign_keys_list_every_row(rows: Seq<ForeignKeyRow>)
    requires
        forall|i: int, j: int|
            0 <= i < rows.len() && 0 <= j < rows.len() ==> keys_agree(
                key_row(#[trigger] rows[i]),
                key_row(#[trigger] rows[j]),
            ),
    ensures
        key_rows(foreign_keys_in(rows)) == rows.map_values(|row: ForeignKeyRow| key_row(row)),
        forall|k: int|
            0 <= k < foreign_keys_in(rows).len() ==> (#[trigger] foreign_keys_in(
                rows,
            )[k]).columns.len() > 0 && foreign_keys_in(rows)[k].ref_columns.len()
                == foreign_keys_in(rows)[k].columns.len(),
        forall|k: int|
            0 < k < foreign_keys_in(rows).len() ==> (#[trigger] foreign_keys_in(rows)[k]).name
                != foreign_keys_in(rows)[k - 1].name,
    decreases rows.len(),
{
    let all = foreign_keys_in(rows);
    let said = rows.map_values(|row: ForeignKeyRow| key_row(row));
    if rows.len() == 0 {
        assert(key_rows(all) =~= said);
    } else {
        let prev = rows.drop_last();
        assert forall|i: int, j: int| 0 <= i < prev.len() && 0 <= j < prev.len() implies keys_agree(
            key_row(#[trigger] prev[i]),
            key_row(#[trigger] prev[j]),
        ) by {
            assert(rows[i] == prev[i] && rows[j] == prev[j]);
        }
        law_foreign_keys_list_every_row(prev);
        let before = foreign_keys_in(prev);
        let row = rows.last();
        let earlier = prev.map_values(|row: ForeignKeyRow| key_row(row));
        assert(said =~= earlier.push(key_row(row)));
        assert(all.drop_last() =~= if before.len() > 0 && before.last().name == row.name@ {
            before.drop_last()
        } else {
            before
        });
        if before.len() > 0 && before.last().name == row.name@ {
            let key = before[before.len() - 1];
            assert(key.columns.len() > 0);
            let own = key_rows_of(key);
            assert(key_rows(before) == key_rows(before.drop_last()) + own);
            assert(earlier.last() == own.last());
            assert(prev.len() > 0);
            assert(earlier.last() == key_row(prev[prev.len() - 1]));
            assert(rows[rows.len() - 2] == prev[prev.len() - 1]);
            assert(rows[rows.len() - 1] == row);
            assert(keys_agree(key_row(rows[rows.len() - 2]), key_row(rows[rows.len() - 1])));
            assert(key_rows_of(all.last()) =~= own.push(key_row(row)));
            assert(key_rows(all) =~= said);
            assert forall|k: int| 0 < k < all.len() implies (#[trigger] all[k]).name != all[k
                - 1].name by {
                assert(before[k].name != before[k - 1].name);
            }
            assert forall|k: int| 0 <= k < all.len() implies (#[trigger] all[k]).columns.len() > 0
                && all[k].ref_columns.len() == all[k].columns.len() by {
                assert(before[k].columns.len() > 0);
            }
        } else {
            assert(key_rows_of(all.last()) =~= seq![key_row(row)]);
            assert(key_rows(all) =~= said);
            assert forall|k: int| 0 < k < all.len() implies (#[trigger] all[k]).name != all[k
                - 1].name by {
                if k < before.len() {
                    assert(before[k].name != before[k - 1].name);
                } else {
                    assert(before.last().name != row.name@);
                }
            }
            assert forall|k: int| 0 <= k < all.len() implies (#[trigger] all[k]).columns.len() > 0
                && all[k].ref_columns.len() == all[k].columns.len() by {
                if k < before.len() {
                    assert(before[k].columns.len() > 0);
                }
            }
        }
    }
}

/// A listing is picked from part by part: what is picked from two listings one
/// after the other is what is picked from each, in order, and one row is picked
/// or left by its type alone.
pub proof fn law_rows_are_picked_by_type(
    a: Seq<(String, String)>,
    b: Seq<(String, String)>,
    row: (String, String),
    pick: spec_fn(Seq<char>) -> bool,
)
    ensures
        names_where(a + b, pick) == names_where(a, pick) + names_where(b, pick),
        names_where(seq![row], pick) == if pick(row.1@) {
            seq![row.0@]
        } else {
            Seq::<Seq<char>>::empty()
        },
    decreases b.len(),
{
    reveal_with_fuel(names_where, 2);
    assert(seq![row].drop_last() =~= Seq::<(String, String)>::empty());
    assert(names_where(seq![row], pick) =~= if pick(row.1@) {
        seq![row.0@]
    } else {
        Seq::<Seq<char>>::empty()
    });
    if b.len() == 0 {
        assert(a + b =~= a);
        assert(names_where(a, pick) + names_where(b, pick) =~= names_where(a, pick));
    } else {
        assert((a + b).drop_last() =~= a + b.drop_last());
        law_rows_are_picked_by_type(a, b.drop_last(), row, pick);
        assert(names_where(a + b, pick) =~= names_where(a, pick) + names_where(b, pick));
    }
}

/// A type name is told in any ASCII case: a word in upper case is told from
/// every spelling of it and from no other name.
pub proof fn law_types_in_any_case(word: Seq<char>, name: Seq<char>)
    requires
        uppered(word) == word,
    ensures
        of_type(word)(word),
        of_type(word)(lowered(word)),
        of_type(word)(name) == of_type(word)(lowered(name)),
        of_type(word)(name) ==> lowered(name) == lowered(word),
        not_of_type(word)(name) == !of_type(word)(name),
{
    lemma_case(word);
    lemma_case(name);
}

proof fn lemma_case(s: Seq<char>)
    ensures
        uppered(lowered(s)) == uppered(s),
        lowered(uppered(s)) == lowered(s),
{
    assert forall|i: int| 0 <= i < s.len() implies #[trigger] uppered(lowered(s))[i] == uppered(
        s,
    )[i] && lowered(uppered(s))[i] == lowered(s)[i] by {
        law_ascii_case(s[i]);
    }
    assert(uppered(lowered(s)) =~= uppered(s));
    assert(lowered(uppered(s)) =~= lowered(s));
}

/// The databases that are listed for the user are those whose names are not
/// among the four of the server.
pub proof fn law_system_schemas(name: Seq<char>)
    ensures
        system_schema(name) <==> seq![
            "information_schema"@,
            "mysql"@,
            "performance_schema"@,
            "sys"@,
        ].contains(name),
{
    let four = seq!["information_schema"@, "mysql"@, "performance_schema"@, "sys"@];
    assert(four[0] == "information_schema"@);
    assert(four[1] == "mysql"@);
    assert(four[2] == "performance_schema"@);
    assert(four[3] == "sys"@);
}

/// The abbreviation of a kind begins its keyword, in any ASCII case, and no two
/// kinds share an abbreviation or a keyword.
pub proof fn law_kinds_are_told_apart(a: ObjectKind, b: ObjectKind)
    ensures
        kind_short_label(a).len() > 0,
        begins_with(kind_keyword(a), uppered(kind_short_label(a))),
        a != b ==> kind_short_label(a) != kind_short_label(b),
        a != b ==> kind_keyword(a) != kind_keyword(b),
{
    reveal_strlit("T");
    reveal_strlit("V");
    reveal_strlit("P");
    reveal_strlit("F");
    reveal_strlit("Tr");
    reveal_strlit("E");
    reveal_strlit("TABLE");
    reveal_strlit("VIEW");
    reveal_strlit("PROCEDURE");
    reveal_strlit("FUNCTION");
    reveal_strlit("TRIGGER");
    reveal_strlit("EVENT");
    let short = uppered(kind_short_label(a));
    assert(kind_keyword(a).take(short.len() as int) =~= short);
    assert(a != b ==> kind_keyword(a).len() != kind_keyword(b).len() || kind_keyword(a)[0]
        != kind_keyword(b)[0] || kind_keyword(a)[1] != kind_keyword(b)[1]);
    assert(a != b ==> kind_short_label(a).len() != kind_short_label(b).len() || kind_short_label(
        a,
    )[0] != kind_short_label(b)[0]);
}

/// The names of the kinds make up the objects of a database: each object is
/// counted under one kind.
pub proof fn law_objects_are_counted_once(objs: SchemaNames)
    ensures
        objs.count() == objs.of_kind(ObjectKind::Table).len() + objs.of_kind(
            ObjectKind::View,
        ).len() + objs.of_kind(ObjectKind::Procedure).len() + objs.of_kind(
            ObjectKind::Function,
        ).len() + objs.of_kind(ObjectKind::Trigger).len() + objs.of_kind(ObjectKind::Event).len(),
        objs.of_kind(ObjectKind::Table) == objs.tables,
        objs.of_kind(ObjectKind::View) == objs.views,
        objs.of_kind(ObjectKind::Procedure) == objs.procedures,
        objs.of_kind(ObjectKind::Function) == objs.functions,
        objs.of_kind(ObjectKind::Trigger) == objs.triggers,
        objs.of_kind(ObjectKind::Event) == objs.events,
{
}

} // verus!
