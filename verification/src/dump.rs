//! A `.sql` dump of a database, as a machine: it says what it needs to know
//! next, takes the answer, and grows the text of the dump. Reading from the
//! server is left to the caller.
//!
//! Tables come first, then functions and procedures (a view may call them),
//! then views, triggers and events. A view that depends on another view is not
//! ordered after it.

use vstd::prelude::*;

use crate::errors::ActorError;
use crate::export::{
    append_inserts, body_text, delimiter_for, ident_list, inserts_text, is_generated,
    marks_generated, maybe_strip_definer, pick_delimiter, quote_names, routine_label,
    routine_section_label, section, section_text, ExportProgress, SqlDumpOptions,
};
use crate::query::{row_values_of, Cell, CellValue};
use crate::quote::{ident, qualified, qualified_name, quoted_ident};
use crate::schema::{kind_keyword, ColumnInfo, ObjectKind, SchemaNames, SchemaObjects};
use crate::text::{is_empty, lowercase, lowered, texts};

verus! {

/// What the dump is waiting for. The number is that of the object at hand.
#[derive(Debug, Clone, Copy, PartialEq, Eq, Structural)]
pub enum DumpStage {
    Objects,
    Version,
    Definition(usize),
    Columns(usize),
    Rows(usize),
    Done,
    Failed,
}

/// What the dump needs to know next.
#[derive(Debug, Clone)]
pub enum DumpRequest {
    ListObjects { db: String },
    ServerInfo,
    ShowCreate { db: String, kind: ObjectKind, name: String },
    ListColumns { db: String, table: String },
    Query { sql: String },
    /// Nothing: the dump is complete, or has failed.
    Finished,
}

/// The answer to a request.
#[derive(Debug)]
pub enum DumpReply {
    Objects(SchemaObjects),
    Version(String),
    Definition(String),
    Columns(Vec<ColumnInfo>),
    Rows(Vec<Vec<Cell>>),
    Failed(ActorError),
}

/// What a [`DumpRequest`] asks for.
pub enum Ask {
    ListObjects { db: Seq<char> },
    ServerInfo,
    ShowCreate { db: Seq<char>, kind: ObjectKind, name: Seq<char> },
    ListColumns { db: Seq<char>, table: Seq<char> },
    Query { sql: Seq<char> },
    Finished,
}

/// What a [`DumpReply`] says. A column is its name and its `EXTRA`.
pub enum Answer {
    Objects(SchemaNames),
    Version(Seq<char>),
    Definition(Seq<char>),
    Columns(Seq<(Seq<char>, Seq<char>)>),
    Rows(Seq<Seq<CellValue>>),
    Failed(ActorError),
}

impl View for DumpRequest {
    type V = Ask;

    open spec fn view(&self) -> Ask {
        match self {
            DumpRequest::ListObjects { db } => Ask::ListObjects { db: db@ },
            DumpRequest::ServerInfo => Ask::ServerInfo,
            DumpRequest::ShowCreate { db, kind, name } => Ask::ShowCreate {
                db: db@,
                kind: *kind,
                name: name@,
            },
            DumpRequest::ListColumns { db, table } => Ask::ListColumns { db: db@, table: table@ },
            DumpRequest::Query { sql } => Ask::Query { sql: sql@ },
            DumpRequest::Finished => Ask::Finished,
        }
    }
}

/// Name and `EXTRA` of each column.
pub open spec fn column_pairs(columns: Seq<ColumnInfo>) -> Seq<(Seq<char>, Seq<char>)> {
    columns.map_values(|c: ColumnInfo| (c.name@, c.extra@))
}

impl View for DumpReply {
    type V = Answer;

    open spec fn view(&self) -> Answer {
        match self {
            DumpReply::Objects(objs) => Answer::Objects(objs@),
            DumpReply::Version(v) => Answer::Version(v@),
            DumpReply::Definition(ddl) => Answer::Definition(ddl@),
            DumpReply::Columns(cols) => Answer::Columns(column_pairs(cols@)),
            DumpReply::Rows(rows) => Answer::Rows(row_values_of(rows@)),
            DumpReply::Failed(e) => Answer::Failed(*e),
        }
    }
}

/// An object to dump.
#[derive(Debug, Clone)]
pub struct WorkItem {
    pub kind: ObjectKind,
    pub name: String,
}

/// Kind and name of each object.
pub open spec fn items(work: Seq<WorkItem>) -> Seq<(ObjectKind, Seq<char>)> {
    work.map_values(|w: WorkItem| (w.kind, w.name@))
}

/// The objects of one kind, where they are wanted.
pub open spec fn wanted(on: bool, kind: ObjectKind, names: Seq<Seq<char>>) -> Seq<
    (ObjectKind, Seq<char>),
> {
    if on {
        names.map_values(|n: Seq<char>| (kind, n))
    } else {
        seq![]
    }
}

/// The objects to dump, in the order in which they are dumped.
pub open spec fn worklist(objs: SchemaNames, opts: SqlDumpOptions) -> Seq<(ObjectKind, Seq<char>)> {
    wanted(opts.tables, ObjectKind::Table, objs.tables) + wanted(
        opts.functions,
        ObjectKind::Function,
        objs.functions,
    ) + wanted(opts.procedures, ObjectKind::Procedure, objs.procedures) + wanted(
        opts.views,
        ObjectKind::View,
        objs.views,
    ) + wanted(opts.triggers, ObjectKind::Trigger, objs.triggers) + wanted(
        opts.events,
        ObjectKind::Event,
        objs.events,
    )
}

fn add_work(work: &mut Vec<WorkItem>, on: bool, kind: ObjectKind, names: &Vec<String>)
    ensures
        items(final(work)@) == items(old(work)@) + wanted(on, kind, texts(names@)),
{
    let ghost before = items(work@);
    if on {
        let ghost more = wanted(on, kind, texts(names@));
        let mut i: usize = 0;
        assert(items(work@) =~= before + more.take(0));
        while i < names.len()
            invariant
                i <= names@.len(),
                more == texts(names@).map_values(|n: Seq<char>| (kind, n)),
                items(work@) == before + more.take(i as int),
            decreases names@.len() - i,
        {
            let ghost done = items(work@);
            work.push(WorkItem { kind, name: names[i].clone() });
            assert(items(work@) =~= done.push((kind, names@[i as int]@)));
            assert(items(work@) =~= before + more.take(i + 1));
            i = i + 1;
        }
        assert(more.take(i as int) =~= more);
    } else {
        assert(before + wanted(on, kind, texts(names@)) =~= before);
    }
}

/// The objects to dump, in the order in which they are dumped.
pub fn plan(objs: &SchemaObjects, opts: SqlDumpOptions) -> (work: Vec<WorkItem>)
    ensures
        items(work@) == worklist(objs@, opts),
{
    let mut work: Vec<WorkItem> = Vec::new();
    add_work(&mut work, opts.tables, ObjectKind::Table, &objs.tables);
    assert(items(work@) =~= wanted(opts.tables, ObjectKind::Table, objs@.tables));
    add_work(&mut work, opts.functions, ObjectKind::Function, &objs.functions);
    add_work(&mut work, opts.procedures, ObjectKind::Procedure, &objs.procedures);
    add_work(&mut work, opts.views, ObjectKind::View, &objs.views);
    add_work(&mut work, opts.triggers, ObjectKind::Trigger, &objs.triggers);
    add_work(&mut work, opts.events, ObjectKind::Event, &objs.events);
    work
}

/// `text` where it is wanted.
pub open spec fn when(on: bool, text: Seq<char>) -> Seq<char> {
    if on {
        text
    } else {
        seq![]
    }
}

/// The leading comment block.
pub open spec fn comment_text(db: Seq<char>, version: Seq<char>) -> Seq<char> {
    "-- RySQL database export\n"@ + "-- Database: "@ + db + "\n"@ + when(
        version.len() > 0,
        "-- Server version: "@ + version + "\n"@,
    ) + "\n"@
}

/// The statements that prepare an import.
pub open spec fn prepare_text() -> Seq<char> {
    "SET NAMES utf8mb4;\nSET FOREIGN_KEY_CHECKS=0;\nSET @OLD_SQL_MODE=@@SQL_MODE, SQL_MODE='NO_AUTO_VALUE_ON_ZERO';\n\n"@
}

/// The statements that undo what `prepare_text` did.
pub open spec fn restore_text() -> Seq<char> {
    "\nSET FOREIGN_KEY_CHECKS=1;\nSET SQL_MODE=@OLD_SQL_MODE;\n"@
}

/// The statements that create and choose the database.
pub open spec fn use_text(db: Seq<char>) -> Seq<char> {
    "CREATE DATABASE IF NOT EXISTS "@ + quoted_ident(db) + ";\nUSE "@ + quoted_ident(db)
        + ";\n\n"@
}

/// What stands before the first object.
pub open spec fn head_text(db: Seq<char>, opts: SqlDumpOptions, version: Seq<char>) -> Seq<char> {
    when(opts.comment_header, comment_text(db, version)) + when(
        opts.portability_header,
        prepare_text(),
    ) + when(opts.create_database, use_text(db))
}

/// What stands after the last object.
pub open spec fn foot_text(opts: SqlDumpOptions) -> Seq<char> {
    when(opts.portability_header, restore_text())
}

fn header(db: &str, opts: SqlDumpOptions, version: &str) -> (res: String)
    ensures
        res@ == head_text(db@, opts, version@),
{
    let mut out = String::new();
    if opts.comment_header {
        let mut block = "-- RySQL database export\n".to_string();
        block.append("-- Database: ");
        block.append(db);
        block.append("\n");
        let ghost start = block@;
        if !is_empty(version) {
            let mut line = "-- Server version: ".to_string();
            line.append(version);
            line.append("\n");
            block.append(line.as_str());
        }
        assert(block@ =~= start + when(
            version@.len() > 0,
            "-- Server version: "@ + version@ + "\n"@,
        ));
        block.append("\n");
        out = block;
    }
    assert(out@ =~= when(opts.comment_header, comment_text(db@, version@)));
    let ghost first = out@;
    if opts.portability_header {
        out.append(
            "SET NAMES utf8mb4;\nSET FOREIGN_KEY_CHECKS=0;\nSET @OLD_SQL_MODE=@@SQL_MODE, SQL_MODE='NO_AUTO_VALUE_ON_ZERO';\n\n",
        );
    }
    assert(out@ =~= first + when(opts.portability_header, prepare_text()));
    let ghost second = out@;
    if opts.create_database {
        let mut lines = "CREATE DATABASE IF NOT EXISTS ".to_string();
        lines.append(ident(db).as_str());
        lines.append(";\nUSE ");
        lines.append(ident(db).as_str());
        lines.append(";\n\n");
        out.append(lines.as_str());
    }
    assert(out@ =~= second + when(opts.create_database, use_text(db@)));
    out
}

/// The part of the dump that creates an object.
pub open spec fn object_text(
    kind: ObjectKind,
    name: Seq<char>,
    ddl: Seq<char>,
    opts: SqlDumpOptions,
) -> Seq<char> {
    match kind {
        ObjectKind::Table => section_text("Table structure for"@, name) + when(
            opts.drop_if_exists,
            "DROP TABLE IF EXISTS "@ + quoted_ident(name) + ";\n"@,
        ) + ddl + ";\n"@,
        ObjectKind::View => section_text("View structure for"@, name) + when(
            opts.drop_if_exists,
            "DROP VIEW IF EXISTS "@ + quoted_ident(name) + ";\n"@,
        ) + body_text(ddl, opts.omit_definer) + ";\n"@,
        _ => {
            let body = body_text(ddl, opts.omit_definer);
            let delim = delimiter_for(body);
            section_text(routine_label(kind), name) + ("DELIMITER "@ + delim + "\n"@) + when(
                opts.drop_if_exists,
                "DROP "@ + kind_keyword(kind) + " IF EXISTS "@ + quoted_ident(name) + delim
                    + "\n"@,
            ) + body + (delim + "\nDELIMITER ;\n"@)
        },
    }
}

fn append_object(
    out: &mut String,
    kind: ObjectKind,
    name: &str,
    ddl: &str,
    opts: SqlDumpOptions,
)
    ensures
        final(out)@ == old(out)@ + object_text(kind, name@, ddl@, opts),
{
    let ghost before = out@;
    let mut part = String::new();
    match kind {
        ObjectKind::Table => {
            section(&mut part, "Table structure for", name);
            assert(part@ =~= section_text("Table structure for"@, name@));
            let ghost start = part@;
            if opts.drop_if_exists {
                let mut line = "DROP TABLE IF EXISTS ".to_string();
                line.append(ident(name).as_str());
                line.append(";\n");
                part.append(line.as_str());
            }
            assert(part@ =~= start + when(
                opts.drop_if_exists,
                "DROP TABLE IF EXISTS "@ + quoted_ident(name@) + ";\n"@,
            ));
            part.append(ddl);
            part.append(";\n");
        },
        ObjectKind::View => {
            section(&mut part, "View structure for", name);
            assert(part@ =~= section_text("View structure for"@, name@));
            let ghost start = part@;
            if opts.drop_if_exists {
                let mut line = "DROP VIEW IF EXISTS ".to_string();
                line.append(ident(name).as_str());
                line.append(";\n");
                part.append(line.as_str());
            }
            assert(part@ =~= start + when(
                opts.drop_if_exists,
                "DROP VIEW IF EXISTS "@ + quoted_ident(name@) + ";\n"@,
            ));
            part.append(maybe_strip_definer(ddl, opts.omit_definer).as_str());
            part.append(";\n");
        },
        _ => {
            section(&mut part, routine_section_label(kind), name);
            assert(part@ =~= section_text(routine_label(kind), name@));
            let body = maybe_strip_definer(ddl, opts.omit_definer);
            let delim = pick_delimiter(body.as_str());
            let mut open = "DELIMITER ".to_string();
            open.append(delim.as_str());
            open.append("\n");
            part.append(open.as_str());
            let ghost start = part@;
            if opts.drop_if_exists {
                let mut line = "DROP ".to_string();
                line.append(kind.keyword());
                line.append(" IF EXISTS ");
                line.append(ident(name).as_str());
                line.append(delim.as_str());
                line.append("\n");
                part.append(line.as_str());
            }
            assert(part@ =~= start + when(
                opts.drop_if_exists,
                "DROP "@ + kind_keyword(kind) + " IF EXISTS "@ + quoted_ident(name@) + delim@
                    + "\n"@,
            ));
            part.append(body.as_str());
            let mut close = delim;
            close.append("\nDELIMITER ;\n");
            part.append(close.as_str());
        },
    }
    out.append(part.as_str());
}

/// The columns that take explicit values, in order.
pub open spec fn insertable(columns: Seq<(Seq<char>, Seq<char>)>) -> Seq<Seq<char>>
    decreases columns.len(),
{
    if columns.len() == 0 {
        seq![]
    } else if marks_generated(columns.last().1) {
        insertable(columns.drop_last())
    } else {
        insertable(columns.drop_last()).push(columns.last().0)
    }
}

/// Names of the columns that take explicit values, in order.
pub fn insertable_columns(columns: &Vec<ColumnInfo>) -> (res: Vec<String>)
    ensures
        texts(res@) == insertable(column_pairs(columns@)),
{
    let mut out: Vec<String> = Vec::new();
    let ghost pairs = column_pairs(columns@);
    let mut i: usize = 0;
    while i < columns.len()
        invariant
            i <= columns@.len(),
            pairs == column_pairs(columns@),
            texts(out@) == insertable(pairs.take(i as int)),
        decreases columns@.len() - i,
    {
        assert(pairs.take(i + 1).drop_last() =~= pairs.take(i as int));
        let ghost before = out@;
        if !is_generated(columns[i].extra.as_str()) {
            out.push(columns[i].name.clone());
            assert(texts(out@) =~= texts(before).push(columns@[i as int].name@));
        }
        i = i + 1;
    }
    assert(pairs.take(i as int) =~= pairs);
    out
}

/// The query that reads the given columns of a table.
pub open spec fn select_text(db: Seq<char>, table: Seq<char>, columns: Seq<Seq<char>>) -> Seq<char> {
    "SELECT "@ + ident_list(columns) + " FROM "@ + qualified_name(db, table)
}

/// The query that reads the given columns of a table. One query gives one
/// consistent read of the table.
pub fn select_sql(db: &str, table: &str, columns: &Vec<String>) -> (res: String)
    ensures
        res@ == select_text(db@, table@, texts(columns@)),
{
    let mut out = "SELECT ".to_string();
    out.append(quote_names(columns).as_str());
    out.append(" FROM ");
    out.append(qualified(db, table).as_str());
    out
}

/// The part of the dump that fills a table; nothing for an empty table.
pub open spec fn data_text(
    table: Seq<char>,
    columns: Seq<Seq<char>>,
    rows: Seq<Seq<CellValue>>,
    extended: bool,
) -> Seq<char> {
    when(
        rows.len() > 0,
        "\n-- Data for `"@ + table + "`\n"@ + inserts_text(table, columns, rows, extended),
    )
}

fn append_data(
    out: &mut String,
    table: &str,
    columns: &Vec<String>,
    rows: &Vec<Vec<Cell>>,
    extended: bool,
)
    ensures
        final(out)@ == old(out)@ + data_text(
            table@,
            texts(columns@),
            row_values_of(rows@),
            extended,
        ),
{
    let ghost before = out@;
    if rows.len() > 0 {
        let mut part = "\n-- Data for `".to_string();
        part.append(table);
        part.append("`\n");
        append_inserts(&mut part, table, columns, rows, extended);
        out.append(part.as_str());
    }
    assert(out@ =~= before + data_text(table@, texts(columns@), row_values_of(rows@), extended));
}

/// How progress reports name an object.
pub open spec fn tick_label(kind: ObjectKind, name: Seq<char>) -> Seq<char> {
    lowered(kind_keyword(kind)) + " `"@ + name + "`"@
}

/// The state of a dump.
#[verifier::ext_equal]
pub struct DumpState {
    pub db: Seq<char>,
    pub opts: SqlDumpOptions,
    pub work: Seq<(ObjectKind, Seq<char>)>,
    /// Columns whose rows the dump is waiting for.
    pub columns: Seq<Seq<char>>,
    pub out: Seq<char>,
    pub stage: DumpStage,
    pub error: Option<ActorError>,
}

/// A progress report: how many objects are done, of how many, and the label of
/// the last one.
pub struct Tick {
    pub done: int,
    pub total: int,
    pub label: Seq<char>,
}

impl DumpState {
    /// The number in the stage is that of an object.
    pub open spec fn wf(self) -> bool {
        match self.stage {
            DumpStage::Definition(k) => k < self.work.len(),
            DumpStage::Columns(k) => k < self.work.len(),
            DumpStage::Rows(k) => k < self.work.len(),
            _ => true,
        }
    }

    /// Go on with object `k`, or end the dump if there is none.
    pub open spec fn at_object(self, k: int) -> DumpState {
        if k < self.work.len() {
            DumpState { stage: DumpStage::Definition(k as usize), ..self }
        } else {
            DumpState {
                stage: DumpStage::Done,
                out: self.out + foot_text(self.opts),
                ..self
            }
        }
    }

    /// Write the header and go on with the first object.
    pub open spec fn opened(self, version: Seq<char>) -> DumpState {
        DumpState {
            out: self.out + head_text(self.db, self.opts, version),
            ..self
        }.at_object(0)
    }

    /// What the dump needs to know next.
    pub open spec fn ask(self) -> Ask {
        match self.stage {
            DumpStage::Objects => Ask::ListObjects { db: self.db },
            DumpStage::Version => Ask::ServerInfo,
            DumpStage::Definition(k) => Ask::ShowCreate {
                db: self.db,
                kind: self.work[k as int].0,
                name: self.work[k as int].1,
            },
            DumpStage::Columns(k) => Ask::ListColumns {
                db: self.db,
                table: self.work[k as int].1,
            },
            DumpStage::Rows(k) => Ask::Query {
                sql: select_text(self.db, self.work[k as int].1, self.columns),
            },
            DumpStage::Done => Ask::Finished,
            DumpStage::Failed => Ask::Finished,
        }
    }

    /// The state after an answer. A failure ends the dump, except that a dump
    /// can do without the server's version. An answer to another question
    /// changes nothing.
    pub open spec fn next(self, answer: Answer) -> DumpState {
        match (self.stage, answer) {
            (DumpStage::Objects, Answer::Objects(objs)) => {
                let s = DumpState { work: worklist(objs, self.opts), ..self };
                if self.opts.comment_header {
                    DumpState { stage: DumpStage::Version, ..s }
                } else {
                    s.opened(seq![])
                }
            },
            (DumpStage::Version, Answer::Version(version)) => self.opened(version),
            (DumpStage::Version, Answer::Failed(_)) => self.opened(seq![]),
            (DumpStage::Definition(k), Answer::Definition(ddl)) => {
                let (kind, name) = self.work[k as int];
                let s = DumpState { out: self.out + object_text(kind, name, ddl, self.opts), ..self
                };
                if kind == ObjectKind::Table && self.opts.data {
                    DumpState { stage: DumpStage::Columns(k), ..s }
                } else {
                    s.at_object(k + 1)
                }
            },
            (DumpStage::Columns(k), Answer::Columns(columns)) => if insertable(columns).len() > 0 {
                DumpState { stage: DumpStage::Rows(k), columns: insertable(columns), ..self }
            } else {
                self.at_object(k + 1)
            },
            (DumpStage::Rows(k), Answer::Rows(rows)) => DumpState {
                out: self.out + data_text(
                    self.work[k as int].1,
                    self.columns,
                    rows,
                    self.opts.extended_insert,
                ),
                ..self
            }.at_object(k + 1),
            (DumpStage::Done, _) => self,
            (DumpStage::Failed, _) => self,
            (_, Answer::Failed(e)) => DumpState {
                stage: DumpStage::Failed,
                error: Some(e),
                ..self
            },
            _ => self,
        }
    }

    /// The progress report for an answer: there is one where the answer
    /// completes an object.
    pub open spec fn tick(self, answer: Answer) -> Option<Tick> {
        let k = match (self.stage, answer) {
            (DumpStage::Definition(k), Answer::Definition(_)) => if self.work[k as int].0
                == ObjectKind::Table && self.opts.data {
                None
            } else {
                Some(k)
            },
            (DumpStage::Columns(k), Answer::Columns(columns)) => if insertable(columns).len() > 0 {
                None
            } else {
                Some(k)
            },
            (DumpStage::Rows(k), Answer::Rows(_)) => Some(k),
            _ => None,
        };
        match k {
            Some(k) => Some(self.tick_for(k as int)),
            None => None,
        }
    }

    /// The progress report for object `k`.
    pub open spec fn tick_for(self, k: int) -> Tick {
        Tick {
            done: k + 1,
            total: self.work.len() as int,
            label: tick_label(self.work[k].0, self.work[k].1),
        }
    }
}

/// A dump at its start.
pub open spec fn fresh_dump(db: Seq<char>, opts: SqlDumpOptions) -> DumpState {
    DumpState {
        db,
        opts,
        work: seq![],
        columns: seq![],
        out: seq![],
        stage: DumpStage::Objects,
        error: None,
    }
}

/// A dump in progress.
#[derive(Debug)]
pub struct Dump {
    db: String,
    opts: SqlDumpOptions,
    work: Vec<WorkItem>,
    columns: Vec<String>,
    out: String,
    stage: DumpStage,
    error: Option<ActorError>,
}

impl View for Dump {
    type V = DumpState;

    closed spec fn view(&self) -> DumpState {
        DumpState {
            db: self.db@,
            opts: self.opts,
            work: items(self.work@),
            columns: texts(self.columns@),
            out: self.out@,
            stage: self.stage,
            error: self.error,
        }
    }
}

/// What a progress report says.
pub open spec fn tick_of(p: Option<ExportProgress>) -> Option<Tick> {
    match p {
        Some(p) => Some(Tick { done: p.done as int, total: p.total as int, label: p.label@ }),
        None => None,
    }
}

/// Start a dump of `db`.
pub fn dump_database(db: &str, opts: &SqlDumpOptions) -> (res: Dump)
    ensures
        res@ == fresh_dump(db@, *opts),
        res@.wf(),
{
    let res = Dump {
        db: db.to_string(),
        opts: *opts,
        work: Vec::new(),
        columns: Vec::new(),
        out: String::new(),
        stage: DumpStage::Objects,
        error: None,
    };
    assert(res@ =~= fresh_dump(db@, *opts));
    res
}

impl Dump {
    /// What the dump needs to know next.
    pub fn request(&self) -> (res: DumpRequest)
        requires
            self@.wf(),
        ensures
            res@ == self@.ask(),
    {
        match self.stage {
            DumpStage::Objects => DumpRequest::ListObjects { db: self.db.clone() },
            DumpStage::Version => DumpRequest::ServerInfo,
            DumpStage::Definition(k) => DumpRequest::ShowCreate {
                db: self.db.clone(),
                kind: self.work[k].kind,
                name: self.work[k].name.clone(),
            },
            DumpStage::Columns(k) => DumpRequest::ListColumns {
                db: self.db.clone(),
                table: self.work[k].name.clone(),
            },
            DumpStage::Rows(k) => DumpRequest::Query {
                sql: select_sql(self.db.as_str(), self.work[k].name.as_str(), &self.columns),
            },
            DumpStage::Done => DumpRequest::Finished,
            DumpStage::Failed => DumpRequest::Finished,
        }
    }

    fn go_to_object(&mut self, k: usize)
        requires
            k <= old(self)@.work.len(),
        ensures
            final(self)@ == old(self)@.at_object(k as int),
            final(self)@.wf(),
    {
        let ghost before = self@;
        if k < self.work.len() {
            self.stage = DumpStage::Definition(k);
        } else {
            if self.opts.portability_header {
                self.out.append("\nSET FOREIGN_KEY_CHECKS=1;\nSET SQL_MODE=@OLD_SQL_MODE;\n");
            }
            self.stage = DumpStage::Done;
        }
        assert(self@ =~= before.at_object(k as int));
    }

    fn open(&mut self, version: &str)
        ensures
            final(self)@ == old(self)@.opened(version@),
            final(self)@.wf(),
    {
        let ghost before = self@;
        let head = header(self.db.as_str(), self.opts, version);
        self.out.append(head.as_str());
        proof {
            let there = DumpState {
                out: before.out + head_text(before.db, before.opts, version@),
                ..before
            };
            assert(self@ =~= there);
        }
        self.go_to_object(0);
    }

    fn report(&self, k: usize) -> (res: Option<ExportProgress>)
        requires
            k < self@.work.len(),
        ensures
            tick_of(res) == Some(self@.tick_for(k as int)),
    {
        let kind = self.work[k].kind;
        let mut label = lowercase(kind.keyword());
        label.append(" `");
        label.append(self.work[k].name.as_str());
        label.append("`");
        let total: usize = self.work.len();
        Some(ExportProgress { done: k + 1, total, label })
    }

    fn accept_objects(&mut self, objs: SchemaObjects)
        requires
            old(self)@.wf(),
        ensures
            final(self)@ == old(self)@.next(Answer::Objects(objs@)),
            final(self)@.wf(),
    {
        let ghost before = self@;
        if let DumpStage::Objects = self.stage {
            self.work = plan(&objs, self.opts);
            assert(self@ =~= (DumpState { work: worklist(objs@, before.opts), ..before }));
            if self.opts.comment_header {
                self.stage = DumpStage::Version;
                assert(self@ =~= before.next(Answer::Objects(objs@)));
            } else {
                proof {
                    reveal_strlit("");
                    assert(""@ =~= Seq::<char>::empty());
                }
                self.open("");
            }
        }
    }

    fn accept_definition(&mut self, ddl: String) -> (res: Option<ExportProgress>)
        requires
            old(self)@.wf(),
        ensures
            final(self)@ == old(self)@.next(Answer::Definition(ddl@)),
            final(self)@.wf(),
            tick_of(res) == old(self)@.tick(Answer::Definition(ddl@)),
    {
        let ghost before = self@;
        if let DumpStage::Definition(k) = self.stage {
            let kind = self.work[k].kind;
            append_object(
                &mut self.out,
                kind,
                self.work[k].name.as_str(),
                ddl.as_str(),
                self.opts,
            );
            proof {
                let (kind, name) = before.work[k as int];
                assert(self@ =~= (DumpState {
                    out: before.out + object_text(kind, name, ddl@, before.opts),
                    ..before
                }));
            }
            let table = match kind {
                ObjectKind::Table => true,
                _ => false,
            };
            if table && self.opts.data {
                self.stage = DumpStage::Columns(k);
                assert(self@ =~= before.next(Answer::Definition(ddl@)));
                None
            } else {
                let res = self.report(k);
                self.go_to_object(k + 1);
                res
            }
        } else {
            None
        }
    }

    fn accept_columns(&mut self, columns: Vec<ColumnInfo>) -> (res: Option<ExportProgress>)
        requires
            old(self)@.wf(),
        ensures
            final(self)@ == old(self)@.next(Answer::Columns(column_pairs(columns@))),
            final(self)@.wf(),
            tick_of(res) == old(self)@.tick(Answer::Columns(column_pairs(columns@))),
    {
        let ghost before = self@;
        if let DumpStage::Columns(k) = self.stage {
            let names = insertable_columns(&columns);
            assert(texts(names@).len() == names@.len());
            if names.len() > 0 {
                self.columns = names;
                self.stage = DumpStage::Rows(k);
                assert(self@ =~= before.next(Answer::Columns(column_pairs(columns@))));
                None
            } else {
                let res = self.report(k);
                self.go_to_object(k + 1);
                res
            }
        } else {
            None
        }
    }

    fn accept_rows(&mut self, rows: Vec<Vec<Cell>>) -> (res: Option<ExportProgress>)
        requires
            old(self)@.wf(),
        ensures
            final(self)@ == old(self)@.next(Answer::Rows(row_values_of(rows@))),
            final(self)@.wf(),
            tick_of(res) == old(self)@.tick(Answer::Rows(row_values_of(rows@))),
    {
        let ghost before = self@;
        if let DumpStage::Rows(k) = self.stage {
            append_data(
                &mut self.out,
                self.work[k].name.as_str(),
                &self.columns,
                &rows,
                self.opts.extended_insert,
            );
            proof {
                assert(self@ =~= (DumpState {
                    out: before.out + data_text(
                        before.work[k as int].1,
                        before.columns,
                        row_values_of(rows@),
                        before.opts.extended_insert,
                    ),
                    ..before
                }));
            }
            let res = self.report(k);
            self.go_to_object(k + 1);
            res
        } else {
            None
        }
    }

    fn accept_failure(&mut self, e: ActorError)
        requires
            old(self)@.wf(),
        ensures
            final(self)@ == old(self)@.next(Answer::Failed(e)),
            final(self)@.wf(),
    {
        let ghost before = self@;
        match self.stage {
            DumpStage::Version => {
                proof {
                    reveal_strlit("");
                    assert(""@ =~= Seq::<char>::empty());
                }
                self.open("");
            },
            DumpStage::Done => {},
            DumpStage::Failed => {},
            _ => {
                self.stage = DumpStage::Failed;
                self.error = Some(e);
                assert(self@ =~= before.next(Answer::Failed(e)));
            },
        }
    }

    /// Take the answer to the last request. Returns a progress report where the
    /// answer completes an object.
    pub fn accept(&mut self, reply: DumpReply) -> (res: Option<ExportProgress>)
        requires
            old(self)@.wf(),
        ensures
            final(self)@ == old(self)@.next(reply@),
            final(self)@.wf(),
            tick_of(res) == old(self)@.tick(reply@),
    {
        match reply {
            DumpReply::Objects(objs) => {
                self.accept_objects(objs);
                None
            },
            DumpReply::Version(version) => {
                if let DumpStage::Version = self.stage {
                    self.open(version.as_str());
                }
                None
            },
            DumpReply::Definition(ddl) => self.accept_definition(ddl),
            DumpReply::Columns(columns) => self.accept_columns(columns),
            DumpReply::Rows(rows) => self.accept_rows(rows),
            DumpReply::Failed(e) => {
                self.accept_failure(e);
                None
            },
        }
    }

    /// The text of a complete dump, or the error that ended it. `None` while
    /// the dump still needs answers.
    pub fn finish(self) -> (res: Option<Result<String, ActorError>>)
        ensures
            match self@.stage {
                DumpStage::Done => res matches Some(Ok(text)) && text@ == self@.out,
                DumpStage::Failed => match self@.error {
                    Some(e) => res == Some(Err::<String, ActorError>(e)),
                    None => res is None,
                },
                _ => res is None,
            },
    {
        match self.stage {
            DumpStage::Done => Some(Ok(self.out)),
            DumpStage::Failed => match self.error {
                Some(e) => Some(Err(e)),
                None => None,
            },
            _ => None,
        }
    }
}

/// What a server holds of one database. The version is missing where the
/// server does not tell it.
pub struct Server {
    pub names: SchemaNames,
    pub version: Option<Seq<char>>,
    pub definition: spec_fn(ObjectKind, Seq<char>) -> Seq<char>,
    pub columns: spec_fn(Seq<char>) -> Seq<(Seq<char>, Seq<char>)>,
    pub rows: spec_fn(Seq<char>) -> Seq<Seq<CellValue>>,
}

impl Server {
    /// The server's answer to a request.
    pub open spec fn answer(self, ask: Ask) -> Answer {
        match ask {
            Ask::ListObjects { db } => Answer::Objects(self.names),
            Ask::ServerInfo => match self.version {
                Some(version) => Answer::Version(version),
                None => Answer::Failed(ActorError::Closed),
            },
            Ask::ShowCreate { db, kind, name } => Answer::Definition(
                (self.definition)(kind, name),
            ),
            Ask::ListColumns { db, table } => Answer::Columns((self.columns)(table)),
            Ask::Query { sql } => Answer::Rows((self.rows)(sql)),
            Ask::Finished => Answer::Failed(ActorError::Closed),
        }
    }

    /// The state of a dump after `n` requests to this server.
    pub open spec fn run(self, s: DumpState, n: nat) -> DumpState
        decreases n,
    {
        if n == 0 {
            s
        } else {
            self.run(s.next(self.answer(s.ask())), (n - 1) as nat)
        }
    }

    /// The progress reports of a dump during `n` requests to this server.
    pub open spec fn ticks(self, s: DumpState, n: nat) -> Seq<Tick>
        decreases n,
    {
        if n == 0 {
            seq![]
        } else {
            let answer = self.answer(s.ask());
            let first = match s.tick(answer) {
                Some(tick) => seq![tick],
                None => seq![],
            };
            first + self.ticks(s.next(answer), (n - 1) as nat)
        }
    }

    /// The part of a dump for one object.
    pub open spec fn item_text(
        self,
        db: Seq<char>,
        opts: SqlDumpOptions,
        item: (ObjectKind, Seq<char>),
    ) -> Seq<char> {
        let (kind, name) = item;
        let columns = insertable((self.columns)(name));
        object_text(kind, name, (self.definition)(kind, name), opts) + when(
            kind == ObjectKind::Table && opts.data && columns.len() > 0,
            data_text(
                name,
                columns,
                (self.rows)(select_text(db, name, columns)),
                opts.extended_insert,
            ),
        )
    }

    /// The part of a dump for the objects from `k` on.
    pub open spec fn items_text(
        self,
        db: Seq<char>,
        opts: SqlDumpOptions,
        work: Seq<(ObjectKind, Seq<char>)>,
        k: int,
    ) -> Seq<char>
        decreases work.len() - k,
    {
        if k < 0 || k >= work.len() {
            seq![]
        } else {
            self.item_text(db, opts, work[k]) + self.items_text(db, opts, work, k + 1)
        }
    }

    /// The version that the server tells, or nothing.
    pub open spec fn told_version(self) -> Seq<char> {
        match self.version {
            Some(version) => version,
            None => seq![],
        }
    }

    /// The whole dump of a database.
    pub open spec fn dump_text(self, db: Seq<char>, opts: SqlDumpOptions) -> Seq<char> {
        head_text(db, opts, self.told_version()) + self.items_text(
            db,
            opts,
            worklist(self.names, opts),
            0,
        ) + foot_text(opts)
    }
}

/// The progress reports for the objects from `k` on.
pub open spec fn ticks_from(s: DumpState, k: int) -> Seq<Tick> {
    Seq::new((s.work.len() - k) as nat, |j: int| s.tick_for(k + j))
}

#[verifier::spinoff_prover]
#[verifier::rlimit(60)]
proof fn lemma_one_object(server: Server, s: DumpState, k: usize) -> (n: nat)
    requires
        s.stage == DumpStage::Definition(k),
        k < s.work.len() <= usize::MAX,
    ensures
        ({
            let out = s.out + server.item_text(s.db, s.opts, s.work[k as int]);
            exists|columns: Seq<Seq<char>>|
                server.run(s, n) == #[trigger] (DumpState { out, columns, ..s }).at_object(k + 1)
        }),
        forall|m: nat| #[trigger]
            server.run(server.run(s, n), m) == server.run(s, n + m) && server.ticks(s, n + m)
                == seq![s.tick_for(k as int)] + server.ticks(server.run(s, n), m),
{
    reveal_with_fuel(Server::run, 4);
    reveal_with_fuel(Server::ticks, 4);
    let (kind, name) = s.work[k as int];
    let object = object_text(kind, name, (server.definition)(kind, name), s.opts);
    let one = s.next(server.answer(s.ask()));
    let tick = seq![s.tick_for(k as int)];
    let none = Seq::<Tick>::empty();
    let out = s.out + server.item_text(s.db, s.opts, s.work[k as int]);
    if kind == ObjectKind::Table && s.opts.data {
        assert(one =~= (DumpState { out: s.out + object, stage: DumpStage::Columns(k), ..s }));
        let columns = insertable((server.columns)(name));
        let two = one.next(server.answer(one.ask()));
        assert(two.work == s.work);
        if columns.len() > 0 {
            let data = data_text(
                name,
                columns,
                (server.rows)(select_text(s.db, name, columns)),
                s.opts.extended_insert,
            );
            assert(two =~= (DumpState { stage: DumpStage::Rows(k), columns, ..one }));
            let three = two.next(server.answer(two.ask()));
            assert(s.out + object + data =~= out);
            assert((DumpState { out: two.out + data, ..two }).at_object(k + 1) =~= (DumpState {
                out,
                columns,
                ..s
            }).at_object(k + 1));
            assert(three == (DumpState { out, columns, ..s }).at_object(k + 1));
            assert forall|m: nat| #[trigger]
                server.run(server.run(s, 3), m) == server.run(s, 3 + m) && server.ticks(s, 3 + m)
                    == tick + server.ticks(server.run(s, 3), m) by {
                let rest = server.ticks(three, m);
                assert(server.ticks(s, 3 + m) == none + (none + (tick + rest)));
                assert(none + (none + (tick + rest)) =~= tick + rest);
            }
            3
        } else {
            assert(s.out + object + Seq::<char>::empty() =~= s.out + object);
            assert(out =~= s.out + object);
            assert(two =~= (DumpState { out, columns: s.columns, ..s }).at_object(k + 1));
            assert forall|m: nat| #[trigger]
                server.run(server.run(s, 2), m) == server.run(s, 2 + m) && server.ticks(s, 2 + m)
                    == tick + server.ticks(server.run(s, 2), m) by {
                let rest = server.ticks(two, m);
                assert(server.ticks(s, 2 + m) == none + (tick + rest));
                assert(none + (tick + rest) =~= tick + rest);
            }
            2
        }
    } else {
        assert(out =~= s.out + object);
        assert(one =~= (DumpState { out, columns: s.columns, ..s }).at_object(k + 1));
        1
    }
}

proof fn lemma_objects(server: Server, s: DumpState, k: usize) -> (n: nat)
    requires
        s.stage == DumpStage::Definition(k),
        k < s.work.len() <= usize::MAX,
    ensures
        server.run(s, n).stage == DumpStage::Done,
        server.run(s, n).out == s.out + server.items_text(s.db, s.opts, s.work, k as int)
            + foot_text(s.opts),
        server.ticks(s, n) == ticks_from(s, k as int),
    decreases s.work.len() - k,
{
    let m = lemma_one_object(server, s, k);
    let t = server.run(s, m);
    let item = server.item_text(s.db, s.opts, s.work[k as int]);
    let out = s.out + item;
    let columns = choose|columns: Seq<Seq<char>>|
        t == #[trigger] (DumpState { out, columns, ..s }).at_object(k + 1);
    assert(t.work == s.work && t.db == s.db && t.opts == s.opts);
    assert(server.run(t, 0) == t);
    if k + 1 < s.work.len() {
        let next = (k + 1) as usize;
        assert(t.stage == DumpStage::Definition(next));
        let rest = lemma_objects(server, t, next);
        let later = server.items_text(s.db, s.opts, s.work, k + 1);
        assert(server.run(server.run(s, m), rest) == server.run(s, m + rest));
        assert(s.out + item + later =~= s.out + (item + later));
        assert(seq![s.tick_for(k as int)] + ticks_from(t, k + 1) =~= ticks_from(s, k as int));
        m + rest
    } else {
        let later = server.items_text(s.db, s.opts, s.work, k + 1);
        assert(item + later =~= item);
        assert(server.run(server.run(s, m), 0) == server.run(s, m + 0));
        assert(server.ticks(t, 0) =~= Seq::<Tick>::empty());
        assert(seq![s.tick_for(k as int)] + Seq::<Tick>::empty() =~= ticks_from(s, k as int));
        m
    }
}

/// A dump that is given the server's answers ends with the whole text of the
/// dump: the header, every object in the order of the worklist, and the footer.
/// It reports progress once per object.
pub proof fn law_dump_complete(server: Server, db: Seq<char>, opts: SqlDumpOptions)
    requires
        worklist(server.names, opts).len() <= usize::MAX,
    ensures
        exists|n: nat|
            {
                let end = #[trigger] server.run(fresh_dump(db, opts), n);
                &&& end.stage == DumpStage::Done
                &&& end.out == server.dump_text(db, opts)
                &&& end.work == worklist(server.names, opts)
                &&& server.ticks(fresh_dump(db, opts), n) == ticks_from(end, 0)
            },
{
    let s = fresh_dump(db, opts);
    let work = worklist(server.names, opts);
    let lead = lemma_opened(server, db, opts);
    let opened = server.run(s, lead);
    assert(server.run(opened, 0) == opened);
    assert(server.ticks(opened, 0) == Seq::<Tick>::empty());
    if work.len() > 0 {
        let m = lemma_objects(server, opened, 0);
        lemma_run_work(server, opened, m);
        assert(server.run(s, lead + m) == server.run(opened, m));
        assert(ticks_from(opened, 0) =~= ticks_from(server.run(s, lead + m), 0));
    } else {
        let head = head_text(db, opts, server.told_version());
        assert(head + server.items_text(db, opts, work, 0) =~= head);
        assert(server.run(s, lead + 0) == opened);
        assert(ticks_from(opened, 0) =~= Seq::<Tick>::empty());
    }
}

/// The requests that come before the first object, and what they leave.
proof fn lemma_opened(server: Server, db: Seq<char>, opts: SqlDumpOptions) -> (lead: nat)
    ensures
        ({
            let s = fresh_dump(db, opts);
            let work = worklist(server.names, opts);
            let out = head_text(db, opts, server.told_version());
            &&& server.run(s, lead) == (DumpState { work, out, ..s }).at_object(0)
            &&& forall|m: nat| #[trigger]
                server.run(server.run(s, lead), m) == server.run(s, lead + m) && server.ticks(
                    s,
                    lead + m,
                ) == server.ticks(server.run(s, lead), m)
        }),
{
    reveal_with_fuel(Server::run, 3);
    reveal_with_fuel(Server::ticks, 3);
    let s = fresh_dump(db, opts);
    let none = Seq::<Tick>::empty();
    let head = head_text(db, opts, server.told_version());
    assert(Seq::<char>::empty() + head =~= head);
    let one = s.next(server.answer(s.ask()));
    if opts.comment_header {
        let two = one.next(server.answer(one.ask()));
        assert forall|m: nat| #[trigger] server.run(two, m) == server.run(s, 2 + m)
            && server.ticks(s, 2 + m) == server.ticks(two, m) by {
            assert(server.ticks(s, 2 + m) == none + (none + server.ticks(two, m)));
            assert(none + (none + server.ticks(two, m)) =~= server.ticks(two, m));
        }
        2
    } else {
        assert(head == head_text(db, opts, seq![]));
        assert forall|m: nat| #[trigger] server.run(one, m) == server.run(s, 1 + m)
            && server.ticks(s, 1 + m) == server.ticks(one, m) by {
            assert(server.ticks(s, 1 + m) == none + server.ticks(one, m));
            assert(none + server.ticks(one, m) =~= server.ticks(one, m));
        }
        1
    }
}

proof fn lemma_run_work(server: Server, s: DumpState, n: nat)
    requires
        s.stage != DumpStage::Objects,
    ensures
        server.run(s, n).work == s.work,
    decreases n,
{
    if n > 0 {
        lemma_run_work(server, s.next(server.answer(s.ask())), (n - 1) as nat);
    }
}

/// A dump that is complete or has failed needs nothing more and ignores every
/// further answer.
pub proof fn law_dump_ends_once(s: DumpState, answer: Answer)
    requires
        s.stage == DumpStage::Done || s.stage == DumpStage::Failed,
    ensures
        s.next(answer) == s,
        s.ask() == Ask::Finished,
        s.tick(answer) is None,
{
}

/// A failed request ends the dump with its error, except that the dump goes on
/// without the server's version.
pub proof fn law_dump_failure(s: DumpState, e: ActorError)
    requires
        s.stage != DumpStage::Done,
        s.stage != DumpStage::Failed,
    ensures
        s.stage == DumpStage::Version ==> s.next(Answer::Failed(e)) == s.opened(seq![]),
        s.stage != DumpStage::Version ==> s.next(Answer::Failed(e)).stage == DumpStage::Failed
            && s.next(Answer::Failed(e)).error == Some(e),
{
}

/// Every request is about the database of the dump and the object at hand.
pub proof fn law_dump_requests(s: DumpState)
    ensures
        match s.ask() {
            Ask::ListObjects { db } => db == s.db && s.stage == DumpStage::Objects,
            Ask::ServerInfo => s.stage == DumpStage::Version,
            Ask::ShowCreate { db, kind, name } => db == s.db && (s.stage
                matches DumpStage::Definition(k) && (kind, name) == s.work[k as int]),
            Ask::ListColumns { db, table } => db == s.db && (s.stage matches DumpStage::Columns(k)
                && table == s.work[k as int].1),
            Ask::Query { sql } => s.stage matches DumpStage::Rows(k) && sql == select_text(
                s.db,
                s.work[k as int].1,
                s.columns,
            ),
            Ask::Finished => s.stage == DumpStage::Done || s.stage == DumpStage::Failed,
        },
{
}

} // verus!
