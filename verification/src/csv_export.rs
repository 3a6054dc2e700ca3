//! The export of a database as one CSV file per table, as a machine: it says
//! what it needs to know or to have written next, and takes the answer. Reading
//! from the server and writing files is left to the caller.

use vstd::prelude::*;

use crate::csv::{csv_record, csv_row, record_text, row_record};
use crate::dump::{select_sql, select_text, tick_of, Tick};
use crate::errors::ExportError;
use crate::export::{file_stem, sanitize_filename, ExportProgress};
use crate::query::{cell_values, row_values_of, Cell, CellValue};
use crate::schema::ColumnInfo;
use crate::text::texts;

verus! {

/// What the export is waiting for. The number is that of the table at hand.
#[derive(Debug, Clone, Copy, PartialEq, Eq, Structural)]
pub enum CsvStage {
    Tables,
    Columns(usize),
    Rows(usize),
    Written(usize),
    Done,
    Failed,
}

/// What the export needs next.
#[derive(Debug, Clone)]
pub enum CsvRequest {
    /// The tables of the database, from its object list.
    ListObjects { db: String },
    ListColumns { db: String, table: String },
    Query { sql: String },
    /// Write a file of this name in the destination directory.
    WriteFile { name: String, content: String },
    /// Nothing: the export is complete, or has failed.
    Finished,
}

/// The answer to a request.
#[derive(Debug)]
pub enum CsvReply {
    Tables(Vec<String>),
    Columns(Vec<ColumnInfo>),
    Rows(Vec<Vec<Cell>>),
    Written,
    Failed(ExportError),
}

/// What a [`CsvRequest`] asks for.
pub enum CsvAsk {
    ListObjects { db: Seq<char> },
    ListColumns { db: Seq<char>, table: Seq<char> },
    Query { sql: Seq<char> },
    WriteFile { name: Seq<char>, content: Seq<char> },
    Finished,
}

/// What a [`CsvReply`] says. A column is its name.
pub enum CsvAnswer {
    Tables(Seq<Seq<char>>),
    Columns(Seq<Seq<char>>),
    Rows(Seq<Seq<CellValue>>),
    Written,
    Failed(ExportError),
}

impl View for CsvRequest {
    type V = CsvAsk;

    open spec fn view(&self) -> CsvAsk {
        match self {
            CsvRequest::ListObjects { db } => CsvAsk::ListObjects { db: db@ },
            CsvRequest::ListColumns { db, table } => CsvAsk::ListColumns {
                db: db@,
                table: table@,
            },
            CsvRequest::Query { sql } => CsvAsk::Query { sql: sql@ },
            CsvRequest::WriteFile { name, content } => CsvAsk::WriteFile {
                name: name@,
                content: content@,
            },
            CsvRequest::Finished => CsvAsk::Finished,
        }
    }
}

/// The names of the columns.
pub open spec fn column_names(columns: Seq<ColumnInfo>) -> Seq<Seq<char>> {
    columns.map_values(|c: ColumnInfo| c.name@)
}

impl View for CsvReply {
    type V = CsvAnswer;

    open spec fn view(&self) -> CsvAnswer {
        match self {
            CsvReply::Tables(names) => CsvAnswer::Tables(texts(names@)),
            CsvReply::Columns(cols) => CsvAnswer::Columns(column_names(cols@)),
            CsvReply::Rows(rows) => CsvAnswer::Rows(row_values_of(rows@)),
            CsvReply::Written => CsvAnswer::Written,
            CsvReply::Failed(e) => CsvAnswer::Failed(*e),
        }
    }
}

/// The records of the first `n` rows.
pub open spec fn rows_text(rows: Seq<Seq<CellValue>>, n: int) -> Seq<char>
    decreases n,
{
    if n <= 0 {
        seq![]
    } else {
        rows_text(rows, n - 1) + row_record(rows[n - 1])
    }
}

fn append_rows(out: &mut String, rows: &Vec<Vec<Cell>>)
    ensures
        final(out)@ == old(out)@ + rows_text(row_values_of(rows@), rows@.len() as int),
{
    let ghost before = out@;
    let ghost values = row_values_of(rows@);
    let mut i: usize = 0;
    assert(out@ =~= before + rows_text(values, 0));
    while i < rows.len()
        invariant
            i <= rows@.len(),
            values == row_values_of(rows@),
            out@ == before + rows_text(values, i as int),
        decreases rows@.len() - i,
    {
        let line = csv_row(&rows[i]);
        out.append(line.as_str());
        proof {
            assert(values[i as int] == cell_values(rows@[i as int]@));
            let done = rows_text(values, i as int);
            assert((before + done) + line@ =~= before + (done + line@));
        }
        i = i + 1;
    }
}

/// Name of the file for a table.
pub open spec fn csv_file_name(table: Seq<char>) -> Seq<char> {
    file_stem(table) + ".csv"@
}

/// How progress reports name a table.
pub open spec fn table_label(table: Seq<char>) -> Seq<char> {
    "table `"@ + table + "`"@
}

/// The state of a CSV export.
#[verifier::ext_equal]
pub struct CsvState {
    pub db: Seq<char>,
    pub tables: Seq<Seq<char>>,
    /// Columns whose rows the export is waiting for.
    pub columns: Seq<Seq<char>>,
    /// Content of the file at hand.
    pub content: Seq<char>,
    /// Names of the files written.
    pub written: Seq<Seq<char>>,
    pub stage: CsvStage,
    pub error: Option<ExportError>,
}

impl CsvState {
    /// The number in the stage is that of a table.
    pub open spec fn wf(self) -> bool {
        match self.stage {
            CsvStage::Columns(k) => k < self.tables.len(),
            CsvStage::Rows(k) => k < self.tables.len(),
            CsvStage::Written(k) => k < self.tables.len(),
            _ => true,
        }
    }

    /// Go on with table `k`, or end the export if there is none.
    pub open spec fn at_table(self, k: int) -> CsvState {
        if k < self.tables.len() {
            CsvState { stage: CsvStage::Columns(k as usize), ..self }
        } else {
            CsvState { stage: CsvStage::Done, ..self }
        }
    }

    /// What the export needs next.
    pub open spec fn ask(self) -> CsvAsk {
        match self.stage {
            CsvStage::Tables => CsvAsk::ListObjects { db: self.db },
            CsvStage::Columns(k) => CsvAsk::ListColumns {
                db: self.db,
                table: self.tables[k as int],
            },
            CsvStage::Rows(k) => CsvAsk::Query {
                sql: select_text(self.db, self.tables[k as int], self.columns),
            },
            CsvStage::Written(k) => CsvAsk::WriteFile {
                name: csv_file_name(self.tables[k as int]),
                content: self.content,
            },
            CsvStage::Done => CsvAsk::Finished,
            CsvStage::Failed => CsvAsk::Finished,
        }
    }

    /// The state after an answer. A failure ends the export. An answer to
    /// another question changes nothing.
    pub open spec fn next(self, answer: CsvAnswer) -> CsvState {
        match (self.stage, answer) {
            (CsvStage::Tables, CsvAnswer::Tables(tables)) => CsvState { tables, ..self }.at_table(
                0,
            ),
            (CsvStage::Columns(k), CsvAnswer::Columns(columns)) => CsvState {
                stage: if columns.len() > 0 {
                    CsvStage::Rows(k)
                } else {
                    CsvStage::Written(k)
                },
                columns,
                content: record_text(columns),
                ..self
            },
            (CsvStage::Rows(k), CsvAnswer::Rows(rows)) => CsvState {
                stage: CsvStage::Written(k),
                content: self.content + rows_text(rows, rows.len() as int),
                ..self
            },
            (CsvStage::Written(k), CsvAnswer::Written) => CsvState {
                written: self.written.push(csv_file_name(self.tables[k as int])),
                ..self
            }.at_table(k + 1),
            (CsvStage::Done, _) => self,
            (CsvStage::Failed, _) => self,
            (_, CsvAnswer::Failed(e)) => CsvState {
                stage: CsvStage::Failed,
                error: Some(e),
                ..self
            },
            _ => self,
        }
    }

    /// The progress report for an answer: there is one where the answer
    /// completes a table.
    pub open spec fn tick(self, answer: CsvAnswer) -> Option<Tick> {
        match (self.stage, answer) {
            (CsvStage::Written(k), CsvAnswer::Written) => Some(table_tick(self.tables, k as int)),
            _ => None,
        }
    }
}

/// The progress report for the table at `k`.
pub open spec fn table_tick(tables: Seq<Seq<char>>, k: int) -> Tick {
    Tick { done: k + 1, total: tables.len() as int, label: table_label(tables[k]) }
}

/// An export at its start.
pub open spec fn fresh_export(db: Seq<char>) -> CsvState {
    CsvState {
        db,
        tables: seq![],
        columns: seq![],
        content: seq![],
        written: seq![],
        stage: CsvStage::Tables,
        error: None,
    }
}

/// A CSV export in progress.
#[derive(Debug)]
pub struct CsvExport {
    db: String,
    tables: Vec<String>,
    columns: Vec<String>,
    content: String,
    written: Vec<String>,
    stage: CsvStage,
    error: Option<ExportError>,
}

impl View for CsvExport {
    type V = CsvState;

    closed spec fn view(&self) -> CsvState {
        CsvState {
            db: self.db@,
            tables: texts(self.tables@),
            columns: texts(self.columns@),
            content: self.content@,
            written: texts(self.written@),
            stage: self.stage,
            error: self.error,
        }
    }
}

/// Start an export of every table of `db`.
pub fn export_csv(db: &str) -> (res: CsvExport)
    ensures
        res@ == fresh_export(db@),
        res@.wf(),
{
    let res = CsvExport {
        db: db.to_string(),
        tables: Vec::new(),
        columns: Vec::new(),
        content: String::new(),
        written: Vec::new(),
        stage: CsvStage::Tables,
        error: None,
    };
    assert(res@ =~= fresh_export(db@));
    res
}

fn file_name(table: &str) -> (res: String)
    ensures
        res@ == csv_file_name(table@),
{
    let mut name = sanitize_filename(table);
    name.append(".csv");
    name
}

impl CsvExport {
    /// What the export needs next.
    pub fn request(&self) -> (res: CsvRequest)
        requires
            self@.wf(),
        ensures
            res@ == self@.ask(),
    {
        match self.stage {
            CsvStage::Tables => CsvRequest::ListObjects { db: self.db.clone() },
            CsvStage::Columns(k) => CsvRequest::ListColumns {
                db: self.db.clone(),
                table: self.tables[k].clone(),
            },
            CsvStage::Rows(k) => CsvRequest::Query {
                sql: select_sql(self.db.as_str(), self.tables[k].as_str(), &self.columns),
            },
            CsvStage::Written(k) => CsvRequest::WriteFile {
                name: file_name(self.tables[k].as_str()),
                content: self.content.clone(),
            },
            CsvStage::Done => CsvRequest::Finished,
            CsvStage::Failed => CsvRequest::Finished,
        }
    }

    fn go_to_table(&mut self, k: usize)
        requires
            k <= old(self)@.tables.len(),
        ensures
            final(self)@ == old(self)@.at_table(k as int),
            final(self)@.wf(),
    {
        let ghost before = self@;
        if k < self.tables.len() {
            self.stage = CsvStage::Columns(k);
        } else {
            self.stage = CsvStage::Done;
        }
        assert(self@ =~= before.at_table(k as int));
    }

    fn accept_columns(&mut self, columns: Vec<ColumnInfo>)
        requires
            old(self)@.wf(),
        ensures
            final(self)@ == old(self)@.next(CsvAnswer::Columns(column_names(columns@))),
            final(self)@.wf(),
    {
        let ghost before = self@;
        if let CsvStage::Columns(k) = self.stage {
            let mut names: Vec<String> = Vec::new();
            let mut i: usize = 0;
            while i < columns.len()
                invariant
                    i <= columns@.len(),
                    names@.len() == i,
                    forall|j: int| 0 <= j < i ==> (#[trigger] names@[j])@ == columns@[j].name@,
                decreases columns@.len() - i,
            {
                names.push(columns[i].name.clone());
                i = i + 1;
            }
            assert(texts(names@) =~= column_names(columns@));
            self.content = csv_record(&names);
            self.stage = if names.len() > 0 {
                CsvStage::Rows(k)
            } else {
                CsvStage::Written(k)
            };
            self.columns = names;
            assert(self@ =~= before.next(CsvAnswer::Columns(column_names(columns@))));
        }
    }

    fn accept_rows(&mut self, rows: Vec<Vec<Cell>>)
        requires
            old(self)@.wf(),
        ensures
            final(self)@ == old(self)@.next(CsvAnswer::Rows(row_values_of(rows@))),
            final(self)@.wf(),
    {
        let ghost before = self@;
        if let CsvStage::Rows(k) = self.stage {
            append_rows(&mut self.content, &rows);
            self.stage = CsvStage::Written(k);
            assert(self@ =~= before.next(CsvAnswer::Rows(row_values_of(rows@))));
        }
    }

    fn accept_written(&mut self) -> (res: Option<ExportProgress>)
        requires
            old(self)@.wf(),
        ensures
            final(self)@ == old(self)@.next(CsvAnswer::Written),
            final(self)@.wf(),
            tick_of(res) == old(self)@.tick(CsvAnswer::Written),
    {
        let ghost before = self@;
        if let CsvStage::Written(k) = self.stage {
            let total: usize = self.tables.len();
            let mut label = "table `".to_string();
            label.append(self.tables[k].as_str());
            label.append("`");
            let name = file_name(self.tables[k].as_str());
            let ghost pushed = before.written.push(name@);
            self.written.push(name);
            proof {
                assert(texts(self.written@) =~= pushed);
                assert(self@ =~= (CsvState { written: pushed, ..before }));
            }
            self.go_to_table(k + 1);
            Some(ExportProgress { done: k + 1, total, label })
        } else {
            None
        }
    }

    /// Take the answer to the last request. Returns a progress report where the
    /// answer completes a table.
    pub fn accept(&mut self, reply: CsvReply) -> (res: Option<ExportProgress>)
        requires
            old(self)@.wf(),
        ensures
            final(self)@ == old(self)@.next(reply@),
            final(self)@.wf(),
            tick_of(res) == old(self)@.tick(reply@),
    {
        let ghost before = self@;
        match reply {
            CsvReply::Tables(tables) => {
                if let CsvStage::Tables = self.stage {
                    self.tables = tables;
                    assert(self@ =~= (CsvState { tables: texts(tables@), ..before }));
                    self.go_to_table(0);
                }
                None
            },
            CsvReply::Columns(columns) => {
                self.accept_columns(columns);
                None
            },
            CsvReply::Rows(rows) => {
                self.accept_rows(rows);
                None
            },
            CsvReply::Written => self.accept_written(),
            CsvReply::Failed(e) => {
                match self.stage {
                    CsvStage::Done => {},
                    CsvStage::Failed => {},
                    _ => {
                        self.stage = CsvStage::Failed;
                        self.error = Some(e);
                        assert(self@ =~= before.next(reply@));
                    },
                }
                None
            },
        }
    }

    /// The names of the files written by a complete export, or the error that
    /// ended it. `None` while the export still needs answers.
    pub fn finish(self) -> (res: Option<Result<Vec<String>, ExportError>>)
        ensures
            match self@.stage {
                CsvStage::Done => res matches Some(Ok(names)) && texts(names@) == self@.written,
                CsvStage::Failed => match self@.error {
                    Some(e) => res == Some(Err::<Vec<String>, ExportError>(e)),
                    None => res is None,
                },
                _ => res is None,
            },
    {
        match self.stage {
            CsvStage::Done => Some(Ok(self.written)),
            CsvStage::Failed => match self.error {
                Some(e) => Some(Err(e)),
                None => None,
            },
            _ => None,
        }
    }
}

/// What a server holds of the tables of one database.
pub struct TableServer {
    pub tables: Seq<Seq<char>>,
    pub columns: spec_fn(Seq<char>) -> Seq<Seq<char>>,
    pub rows: spec_fn(Seq<char>) -> Seq<Seq<CellValue>>,
}

/// A file: its name and its content.
pub struct CsvFile {
    pub name: Seq<char>,
    pub content: Seq<char>,
}

impl TableServer {
    /// The answer to a request, where files can be written.
    pub open spec fn answer(self, ask: CsvAsk) -> CsvAnswer {
        match ask {
            CsvAsk::ListObjects { db } => CsvAnswer::Tables(self.tables),
            CsvAsk::ListColumns { db, table } => CsvAnswer::Columns((self.columns)(table)),
            CsvAsk::Query { sql } => CsvAnswer::Rows((self.rows)(sql)),
            CsvAsk::WriteFile { name, content } => CsvAnswer::Written,
            CsvAsk::Finished => CsvAnswer::Written,
        }
    }

    /// The state of an export after `n` requests.
    pub open spec fn run(self, s: CsvState, n: nat) -> CsvState
        decreases n,
    {
        if n == 0 {
            s
        } else {
            self.run(s.next(self.answer(s.ask())), (n - 1) as nat)
        }
    }

    /// The files that an export writes during `n` requests.
    pub open spec fn files(self, s: CsvState, n: nat) -> Seq<CsvFile>
        decreases n,
    {
        if n == 0 {
            seq![]
        } else {
            let first = match s.ask() {
                CsvAsk::WriteFile { name, content } => seq![CsvFile { name, content }],
                _ => seq![],
            };
            first + self.files(s.next(self.answer(s.ask())), (n - 1) as nat)
        }
    }

    /// The progress reports of an export during `n` requests.
    pub open spec fn ticks(self, s: CsvState, n: nat) -> Seq<Tick>
        decreases n,
    {
        if n == 0 {
            seq![]
        } else {
            let answer = self.answer(s.ask());
            let first = match s.tick(answer) {
                Some(tick) => seq![tick],
                None => seq![],
            };
            first + self.ticks(s.next(answer), (n - 1) as nat)
        }
    }

    /// The file for one table: a record of its column names, and one record per
    /// row.
    pub open spec fn file_for(self, db: Seq<char>, table: Seq<char>) -> CsvFile {
        let columns = (self.columns)(table);
        let rows = if columns.len() > 0 {
            (self.rows)(select_text(db, table, columns))
        } else {
            seq![]
        };
        CsvFile {
            name: csv_file_name(table),
            content: record_text(columns) + rows_text(rows, rows.len() as int),
        }
    }

    /// The files for the tables from `k` on.
    pub open spec fn files_from(self, db: Seq<char>, k: int) -> Seq<CsvFile> {
        Seq::new((self.tables.len() - k) as nat, |j: int| self.file_for(db, self.tables[k + j]))
    }

    /// The progress reports for the tables from `k` on.
    pub open spec fn ticks_from(self, k: int) -> Seq<Tick> {
        Seq::new((self.tables.len() - k) as nat, |j: int| table_tick(self.tables, k + j))
    }
}

proof fn lemma_one_table(server: TableServer, s: CsvState, k: usize) -> (n: nat)
    requires
        s.stage == CsvStage::Columns(k),
        s.tables == server.tables,
        k < s.tables.len() <= usize::MAX,
    ensures
        ({
            let written = s.written.push(csv_file_name(s.tables[k as int]));
            exists|columns: Seq<Seq<char>>, content: Seq<char>|
                server.run(s, n) == #[trigger] (CsvState { written, columns, content, ..s }).at_table(
                    k + 1,
                )
        }),
        forall|m: nat| #[trigger]
            server.run(server.run(s, n), m) == server.run(s, n + m) && server.files(s, n + m)
                == seq![server.file_for(s.db, s.tables[k as int])] + server.files(
                server.run(s, n),
                m,
            ) && server.ticks(s, n + m) == seq![table_tick(s.tables, k as int)] + server.ticks(
                server.run(s, n),
                m,
            ),
{
    reveal_with_fuel(TableServer::run, 4);
    reveal_with_fuel(TableServer::files, 4);
    reveal_with_fuel(TableServer::ticks, 4);
    let table = s.tables[k as int];
    let written = s.written.push(csv_file_name(table));
    let columns = (server.columns)(table);
    let file = server.file_for(s.db, table);
    let none = Seq::<CsvFile>::empty();
    let tick = seq![table_tick(s.tables, k as int)];
    let quiet = Seq::<Tick>::empty();
    let one = s.next(server.answer(s.ask()));
    if columns.len() > 0 {
        assert(one =~= (CsvState {
            stage: CsvStage::Rows(k),
            columns,
            content: record_text(columns),
            ..s
        }));
        let two = one.next(server.answer(one.ask()));
        assert(two =~= (CsvState { stage: CsvStage::Written(k), content: file.content, ..one }));
        let three = two.next(server.answer(two.ask()));
        assert(three =~= (CsvState { written, columns, content: file.content, ..s }).at_table(
            k + 1,
        ));
        assert forall|m: nat| #[trigger]
            server.run(server.run(s, 3), m) == server.run(s, 3 + m) && server.files(s, 3 + m)
                == seq![file] + server.files(server.run(s, 3), m) && server.ticks(s, 3 + m)
                == tick + server.ticks(server.run(s, 3), m) by {
            let rest = server.files(three, m);
            assert(server.files(s, 3 + m) == none + (none + (seq![file] + rest)));
            assert(none + (none + (seq![file] + rest)) =~= seq![file] + rest);
            let later = server.ticks(three, m);
            assert(server.ticks(s, 3 + m) == quiet + (quiet + (tick + later)));
            assert(quiet + (quiet + (tick + later)) =~= tick + later);
        }
        3
    } else {
        let content = record_text(columns);
        assert(one =~= (CsvState { stage: CsvStage::Written(k), columns, content, ..s }));
        let two = one.next(server.answer(one.ask()));
        assert(two =~= (CsvState { written, columns, content, ..s }).at_table(k + 1));
        assert(file.content =~= content);
        assert forall|m: nat| #[trigger]
            server.run(server.run(s, 2), m) == server.run(s, 2 + m) && server.files(s, 2 + m)
                == seq![file] + server.files(server.run(s, 2), m) && server.ticks(s, 2 + m)
                == tick + server.ticks(server.run(s, 2), m) by {
            let rest = server.files(two, m);
            assert(server.files(s, 2 + m) == none + (seq![file] + rest));
            assert(none + (seq![file] + rest) =~= seq![file] + rest);
            let later = server.ticks(two, m);
            assert(server.ticks(s, 2 + m) == quiet + (tick + later));
            assert(quiet + (tick + later) =~= tick + later);
        }
        2
    }
}

/// The names of the files for the tables from `k` on.
pub open spec fn names_from(tables: Seq<Seq<char>>, k: int) -> Seq<Seq<char>> {
    Seq::new((tables.len() - k) as nat, |j: int| csv_file_name(tables[k + j]))
}

proof fn lemma_tables(server: TableServer, s: CsvState, k: usize) -> (n: nat)
    requires
        s.stage == CsvStage::Columns(k),
        s.tables == server.tables,
        k < s.tables.len() <= usize::MAX,
    ensures
        server.run(s, n).stage == CsvStage::Done,
        server.run(s, n).written == s.written + names_from(s.tables, k as int),
        server.files(s, n) == server.files_from(s.db, k as int),
        server.ticks(s, n) == server.ticks_from(k as int),
    decreases s.tables.len() - k,
{
    let m = lemma_one_table(server, s, k);
    let t = server.run(s, m);
    let name = csv_file_name(s.tables[k as int]);
    let file = server.file_for(s.db, s.tables[k as int]);
    let tick = seq![table_tick(s.tables, k as int)];
    let written = s.written.push(name);
    let (columns, content) = choose|columns: Seq<Seq<char>>, content: Seq<char>|
        t == #[trigger] (CsvState { written, columns, content, ..s }).at_table(k + 1);
    assert(t.tables == s.tables && t.db == s.db && t.written == written);
    assert(server.run(t, 0) == t);
    if k + 1 < s.tables.len() {
        let next = (k + 1) as usize;
        let rest = lemma_tables(server, t, next);
        assert(server.run(server.run(s, m), rest) == server.run(s, m + rest));
        assert(written + names_from(s.tables, k + 1) =~= s.written + names_from(
            s.tables,
            k as int,
        ));
        assert(seq![file] + server.files_from(s.db, k + 1) =~= server.files_from(s.db, k as int));
        assert(tick + server.ticks_from(k + 1) =~= server.ticks_from(k as int));
        m + rest
    } else {
        assert(server.run(server.run(s, m), 0) == server.run(s, m + 0));
        assert(written =~= s.written + names_from(s.tables, k as int));
        assert(server.files(t, 0) =~= Seq::<CsvFile>::empty());
        assert(seq![file] + Seq::<CsvFile>::empty() =~= server.files_from(s.db, k as int));
        assert(server.ticks(t, 0) =~= Seq::<Tick>::empty());
        assert(tick + Seq::<Tick>::empty() =~= server.ticks_from(k as int));
        m
    }
}

/// An export that is given the server's answers writes one file per table, in
/// the order of the table list, and ends with their names. It reports progress
/// once per table, counting the tables up to their number.
pub proof fn law_export_complete(server: TableServer, db: Seq<char>)
    requires
        server.tables.len() <= usize::MAX,
    ensures
        exists|n: nat|
            {
                let end = #[trigger] server.run(fresh_export(db), n);
                &&& end.stage == CsvStage::Done
                &&& end.written == names_from(server.tables, 0)
                &&& server.files(fresh_export(db), n) == server.files_from(db, 0)
                &&& server.ticks(fresh_export(db), n) == server.ticks_from(0)
            },
{
    reveal_with_fuel(TableServer::run, 2);
    reveal_with_fuel(TableServer::files, 2);
    reveal_with_fuel(TableServer::ticks, 2);
    let s = fresh_export(db);
    let one = s.next(server.answer(s.ask()));
    let none = Seq::<CsvFile>::empty();
    assert(server.run(s, 1) == one);
    if server.tables.len() > 0 {
        let m = lemma_tables(server, one, 0);
        assert(server.run(s, m + 1) == server.run(one, m));
        assert(server.files(s, m + 1) == none + server.files(one, m));
        assert(none + server.files(one, m) =~= server.files(one, m));
        assert(server.ticks(s, m + 1) == Seq::<Tick>::empty() + server.ticks(one, m));
        assert(Seq::<Tick>::empty() + server.ticks(one, m) =~= server.ticks(one, m));
        assert(one.written + names_from(server.tables, 0) =~= names_from(server.tables, 0));
    } else {
        assert(server.files(s, 1) =~= none);
        assert(server.files_from(db, 0) =~= none);
        assert(server.ticks(s, 1) =~= Seq::<Tick>::empty());
        assert(server.ticks_from(0) =~= Seq::<Tick>::empty());
        assert(names_from(server.tables, 0) =~= one.written);
    }
}

/// An export that is complete or has failed needs nothing more and ignores every
/// further answer.
pub proof fn law_export_ends_once(s: CsvState, answer: CsvAnswer)
    requires
        s.stage == CsvStage::Done || s.stage == CsvStage::Failed,
    ensures
        s.next(answer) == s,
        s.ask() == CsvAsk::Finished,
        s.tick(answer) is None,
{
}

/// A failed request, or a file that cannot be written, ends the export with its
/// error. The files written before it stay listed.
pub proof fn law_export_failure(s: CsvState, e: ExportError)
    requires
        s.stage != CsvStage::Done,
        s.stage != CsvStage::Failed,
    ensures
        s.next(CsvAnswer::Failed(e)).stage == CsvStage::Failed,
        s.next(CsvAnswer::Failed(e)).error == Some(e),
        s.next(CsvAnswer::Failed(e)).written == s.written,
        s.tick(CsvAnswer::Failed(e)) is None,
{
}

/// Every request is about the database of the export and the table at hand.
pub proof fn law_export_requests(s: CsvState)
    ensures
        match s.ask() {
            CsvAsk::ListObjects { db } => db == s.db,
            CsvAsk::ListColumns { db, table } => db == s.db && (s.stage matches CsvStage::Columns(k)
                && table == s.tables[k as int]),
            CsvAsk::Query { sql } => s.stage matches CsvStage::Rows(k) && sql == select_text(
                s.db,
                s.tables[k as int],
                s.columns,
            ),
            CsvAsk::WriteFile { name, content } => content == s.content && (
            s.stage matches CsvStage::Written(k) && name == file_stem(s.tables[k as int])
                + ".csv"@),
            CsvAsk::Finished => s.stage == CsvStage::Done || s.stage == CsvStage::Failed,
        },
{
}

/// Progress counts the tables one by one, up to their number, and names each.
pub proof fn law_table_ticks(tables: Seq<Seq<char>>, k: int)
    ensures
        table_tick(tables, k).done == k + 1,
        table_tick(tables, k).total == tables.len(),
        table_tick(tables, k).label == "table `"@ + tables[k] + "`"@,
{
}

} // verus!
