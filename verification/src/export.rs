//! The pieces of a database export: SQL literals and `INSERT` statements,
//! routine bodies without their `DEFINER`, delimiters, CSV records and file
//! names.

use vstd::prelude::*;

use crate::query::{cell_values, finite_bits, row_values_of, Cell, CellValue};
use crate::quote::{hex_literal, hex_text, ident, quote_str, quoted_ident, quoted_text};
use crate::schema::ObjectKind;
use crate::text::{
    contains, decimal, has_text, i64_text, is_white_space, join, joined, lower_char, lowered,
    matches_at, occurs_at, signed_decimal, sub_text, text_eq, texts, to_chars, trim, trimmed,
    trimmed_end, trimmed_start, u64_text, uppercase, uppered,
};
use crate::utf8::{byte_len, lemma_encode_concat};

verus! {

/// Cap on the byte length of an `INSERT` of several rows. A new statement is
/// started before crossing it, keeping each well under a typical
/// `max_allowed_packet`. A single row that is longer stands alone.
pub const MAX_INSERT_BYTES: usize = 4 * 1024 * 1024;

/// What goes into a `.sql` dump.
#[derive(Debug, Clone, Copy, PartialEq, Eq, Structural)]
pub struct SqlDumpOptions {
    pub tables: bool,
    pub views: bool,
    pub procedures: bool,
    pub functions: bool,
    pub triggers: bool,
    pub events: bool,
    /// Emit `INSERT` rows for table data (only with `tables`).
    pub data: bool,
    /// `DROP <object> IF EXISTS` before each `CREATE`.
    pub drop_if_exists: bool,
    /// Start with `CREATE DATABASE IF NOT EXISTS` and `USE`.
    pub create_database: bool,
    /// Set the character set, foreign-key checks and SQL mode for the import,
    /// and restore them at the end.
    pub portability_header: bool,
    /// Several rows per `INSERT` instead of one statement per row.
    pub extended_insert: bool,
    /// Leave out `DEFINER` clauses.
    pub omit_definer: bool,
    /// Leading comment block.
    pub comment_header: bool,
}

impl Default for SqlDumpOptions {
    fn default() -> (res: Self)
        ensures
            res == (SqlDumpOptions {
                tables: true,
                views: true,
                procedures: true,
                functions: true,
                triggers: true,
                events: true,
                data: true,
                drop_if_exists: true,
                create_database: false,
                portability_header: true,
                extended_insert: true,
                omit_definer: true,
                comment_header: true,
            }),
    {
        SqlDumpOptions {
            tables: true,
            views: true,
            procedures: true,
            functions: true,
            triggers: true,
            events: true,
            data: true,
            drop_if_exists: true,
            create_database: false,
            portability_header: true,
            extended_insert: true,
            omit_definer: true,
            comment_header: true,
        }
    }
}

/// Progress of an export, once per object processed.
#[derive(Debug, Clone)]
pub struct ExportProgress {
    pub done: usize,
    pub total: usize,
    pub label: String,
}

/// A cell value as a SQL literal. A number that is not finite has none, so it
/// becomes `NULL`.
pub open spec fn literal_text(v: CellValue) -> Seq<char> {
    match v {
        CellValue::Null => "NULL"@,
        CellValue::Int(n) => signed_decimal(n as int),
        CellValue::UInt(n) => decimal(n as nat),
        CellValue::Float { bits, text } => if finite_bits(bits) {
            text
        } else {
            "NULL"@
        },
        CellValue::Bool(b) => if b {
            "1"@
        } else {
            "0"@
        },
        CellValue::Text(s) => quoted_text(s),
        CellValue::Json(s) => quoted_text(s),
        CellValue::Blob(b) => if b.len() == 0 {
            "''"@
        } else {
            hex_text(b)
        },
    }
}

/// Write a cell as a SQL literal for an `INSERT`. Binary data is written in
/// hexadecimal so that it survives the round trip.
pub fn sql_literal(c: &Cell) -> (res: String)
    ensures
        res@ == literal_text(c@),
{
    match c {
        Cell::Null => "NULL".to_string(),
        Cell::Int(v) => i64_text(*v),
        Cell::UInt(v) => u64_text(*v),
        Cell::Float(r) => if r.is_finite() {
            r.text.clone()
        } else {
            "NULL".to_string()
        },
        Cell::Bool(v) => if *v {
            "1".to_string()
        } else {
            "0".to_string()
        },
        Cell::Text(s) => quote_str(s.as_str()),
        Cell::Json(s) => quote_str(s.as_str()),
        Cell::Blob(b) => if b.len() == 0 {
            "''".to_string()
        } else {
            hex_literal(b)
        },
    }
}

/// The literals of a row, separated by commas.
pub open spec fn row_text(row: Seq<CellValue>) -> Seq<char> {
    joined(row.map_values(|v: CellValue| literal_text(v)), ", "@)
}

/// The literals of a row, separated by commas.
pub fn row_values(row: &Vec<Cell>) -> (res: String)
    ensures
        res@ == row_text(cell_values(row@)),
{
    let mut parts: Vec<String> = Vec::new();
    let mut i: usize = 0;
    while i < row.len()
        invariant
            i <= row@.len(),
            parts@.len() == i,
            forall|k: int| 0 <= k < i ==> (#[trigger] parts@[k])@ == literal_text(row@[k]@),
        decreases row@.len() - i,
    {
        parts.push(sql_literal(&row[i]));
        i = i + 1;
    }
    assert(texts(parts@) =~= cell_values(row@).map_values(|v: CellValue| literal_text(v)));
    join(&parts, ", ")
}

/// The quoted names, separated by commas.
pub open spec fn ident_list(names: Seq<Seq<char>>) -> Seq<char> {
    joined(names.map_values(|n: Seq<char>| quoted_ident(n)), ", "@)
}

/// The quoted names, separated by commas.
pub fn quote_names(names: &Vec<String>) -> (res: String)
    ensures
        res@ == ident_list(texts(names@)),
{
    let mut parts: Vec<String> = Vec::new();
    let mut i: usize = 0;
    while i < names.len()
        invariant
            i <= names@.len(),
            parts@.len() == i,
            forall|k: int| 0 <= k < i ==> (#[trigger] parts@[k])@ == quoted_ident(names@[k]@),
        decreases names@.len() - i,
    {
        parts.push(ident(names[i].as_str()));
        i = i + 1;
    }
    assert(texts(parts@) =~= texts(names@).map_values(|n: Seq<char>| quoted_ident(n)));
    join(&parts, ", ")
}

/// The part of an `INSERT` before its `VALUES`.
pub open spec fn insert_prefix(table: Seq<char>, columns: Seq<Seq<char>>) -> Seq<char> {
    "INSERT INTO "@ + quoted_ident(table) + " ("@ + ident_list(columns) + ")"@
}

/// An `INSERT` of the rows from `i` to `j`, without its terminator.
pub open spec fn open_insert(prefix: Seq<char>, rows: Seq<Seq<CellValue>>, i: int, j: int) -> Seq<
    char,
>
    decreases j - i,
{
    if j <= i + 1 {
        prefix + " VALUES\n"@ + "("@ + row_text(rows[i]) + ")"@
    } else {
        open_insert(prefix, rows, i, j - 1) + (",\n("@ + row_text(rows[j - 1]) + ")"@)
    }
}

/// An `INSERT` of the rows from `i` to `j`.
pub open spec fn insert_statement(
    prefix: Seq<char>,
    rows: Seq<Seq<CellValue>>,
    i: int,
    j: int,
) -> Seq<char> {
    open_insert(prefix, rows, i, j) + ";\n"@
}

/// Where a statement that holds the rows from `i` to `j` ends, if further rows
/// are added for as long as it stays within [`MAX_INSERT_BYTES`].
pub open spec fn group_end(prefix: Seq<char>, rows: Seq<Seq<CellValue>>, i: int, j: int) -> int
    decreases rows.len() - j,
{
    if j < rows.len() && byte_len(insert_statement(prefix, rows, i, j + 1)) <= MAX_INSERT_BYTES {
        group_end(prefix, rows, i, j + 1)
    } else {
        j
    }
}

/// The multi-row statements for the rows from `i` on.
pub open spec fn grouped_inserts(prefix: Seq<char>, rows: Seq<Seq<CellValue>>, i: int) -> Seq<char>
    decreases rows.len() - i,
{
    if i < 0 || i >= rows.len() {
        seq![]
    } else {
        proof {
            lemma_group_end(prefix, rows, i, i + 1);
        }
        let j = group_end(prefix, rows, i, i + 1);
        insert_statement(prefix, rows, i, j) + grouped_inserts(prefix, rows, j)
    }
}

/// One statement for each of the first `n` rows.
pub open spec fn single_inserts(prefix: Seq<char>, rows: Seq<Seq<CellValue>>, n: int) -> Seq<char>
    decreases n,
{
    if n <= 0 {
        seq![]
    } else {
        single_inserts(prefix, rows, n - 1) + (prefix + " VALUES ("@ + row_text(rows[n - 1])
            + ");\n"@)
    }
}

/// The `INSERT` statements for the rows of a table.
pub open spec fn inserts_text(
    table: Seq<char>,
    columns: Seq<Seq<char>>,
    rows: Seq<Seq<CellValue>>,
    extended: bool,
) -> Seq<char> {
    let prefix = insert_prefix(table, columns);
    if extended {
        grouped_inserts(prefix, rows, 0)
    } else {
        single_inserts(prefix, rows, rows.len() as int)
    }
}

/// A statement takes at least one row, and none twice.
pub proof fn lemma_group_end(prefix: Seq<char>, rows: Seq<Seq<CellValue>>, i: int, j: int)
    requires
        j <= rows.len(),
    ensures
        j <= group_end(prefix, rows, i, j) <= rows.len(),
    decreases rows.len() - j,
{
    if j < rows.len() && byte_len(insert_statement(prefix, rows, i, j + 1)) <= MAX_INSERT_BYTES {
        lemma_group_end(prefix, rows, i, j + 1);
    }
}

/// No statement of several rows is longer than [`MAX_INSERT_BYTES`], and none
/// ends where one more row would still have fitted.
pub proof fn law_insert_cap(prefix: Seq<char>, rows: Seq<Seq<CellValue>>, i: int)
    requires
        0 <= i < rows.len(),
    ensures
        ({
            let j = group_end(prefix, rows, i, i + 1);
            &&& i < j <= rows.len()
            &&& j == i + 1 || byte_len(insert_statement(prefix, rows, i, j)) <= MAX_INSERT_BYTES
            &&& j == rows.len() || byte_len(insert_statement(prefix, rows, i, j + 1))
                > MAX_INSERT_BYTES
        }),
{
    lemma_group_cap(prefix, rows, i, i + 1);
}

proof fn lemma_group_cap(prefix: Seq<char>, rows: Seq<Seq<CellValue>>, i: int, j: int)
    requires
        0 <= i < j <= rows.len(),
        j == i + 1 || byte_len(insert_statement(prefix, rows, i, j)) <= MAX_INSERT_BYTES,
    ensures
        ({
            let k = group_end(prefix, rows, i, j);
            &&& j <= k <= rows.len()
            &&& k == i + 1 || byte_len(insert_statement(prefix, rows, i, k)) <= MAX_INSERT_BYTES
            &&& k == rows.len() || byte_len(insert_statement(prefix, rows, i, k + 1))
                > MAX_INSERT_BYTES
        }),
    decreases rows.len() - j,
{
    if j < rows.len() && byte_len(insert_statement(prefix, rows, i, j + 1)) <= MAX_INSERT_BYTES {
        lemma_group_cap(prefix, rows, i, j + 1);
    }
}

fn byte_count(s: &str) -> (res: usize)
    ensures
        res == byte_len(s@),
{
    s.as_bytes().len()
}

/// Append one statement that starts with row `i`, and return the row after its
/// last one.
fn append_group(out: &mut String, prefix: &str, rows: &Vec<Vec<Cell>>, i: usize) -> (j: usize)
    requires
        i < rows@.len(),
    ensures
        j == group_end(prefix@, row_values_of(rows@), i as int, i + 1),
        i < j <= rows@.len(),
        final(out)@ == old(out)@ + insert_statement(
            prefix@,
            row_values_of(rows@),
            i as int,
            j as int,
        ),
{
    let ghost values = row_values_of(rows@);
    let count: usize = rows.len();
    let mut stmt = prefix.to_string();
    stmt.append(" VALUES\n");
    stmt.append("(");
    stmt.append(row_values(&rows[i]).as_str());
    stmt.append(")");
    let mut size: usize = byte_count(stmt.as_str());
    let tail: usize = byte_count(";\n");
    let mut j: usize = i + 1;
    let ghost end = group_end(prefix@, values, i as int, i + 1);
    while j < count
        invariant
            count == rows@.len(),
            values == row_values_of(rows@),
            i < j <= rows@.len(),
            stmt@ == open_insert(prefix@, values, i as int, j as int),
            size == byte_len(stmt@),
            tail == byte_len(";\n"@),
            end == group_end(prefix@, values, i as int, j as int),
            end == group_end(prefix@, values, i as int, i + 1),
        ensures
            end == j,
        decreases rows@.len() - j,
    {
        let mut piece = ",\n(".to_string();
        piece.append(row_values(&rows[j]).as_str());
        piece.append(")");
        let extra: usize = byte_count(piece.as_str());
        proof {
            assert(values[j as int] == cell_values(rows@[j as int]@));
            let next = open_insert(prefix@, values, i as int, j + 1);
            assert(next == stmt@ + piece@);
            lemma_encode_concat(stmt@, piece@);
            lemma_encode_concat(next, ";\n"@);
        }
        if size > MAX_INSERT_BYTES || extra > MAX_INSERT_BYTES - size || tail > MAX_INSERT_BYTES
            - size - extra {
            break;
        }
        stmt.append(piece.as_str());
        size = size + extra;
        j = j + 1;
    }
    out.append(stmt.as_str());
    out.append(";\n");
    proof {
        let before = old(out)@;
        assert(before + stmt@ + ";\n"@ =~= before + (stmt@ + ";\n"@));
        lemma_group_end(prefix@, values, i as int, i + 1);
    }
    j
}

/// Append the `INSERT` statements for the rows of a table: several rows each,
/// or one row each.
pub fn append_inserts(
    out: &mut String,
    table: &str,
    columns: &Vec<String>,
    rows: &Vec<Vec<Cell>>,
    extended: bool,
)
    ensures
        final(out)@ == old(out)@ + inserts_text(
            table@,
            texts(columns@),
            row_values_of(rows@),
            extended,
        ),
{
    let mut prefix = "INSERT INTO ".to_string();
    prefix.append(ident(table).as_str());
    prefix.append(" (");
    prefix.append(quote_names(columns).as_str());
    prefix.append(")");
    let ghost before = out@;
    let ghost values = row_values_of(rows@);
    let mut i: usize = 0;
    if extended {
        assert(before + grouped_inserts(prefix@, values, 0) == out@ + grouped_inserts(
            prefix@,
            values,
            0,
        ));
        while i < rows.len()
            invariant
                i <= rows@.len(),
                values == row_values_of(rows@),
                before + grouped_inserts(prefix@, values, 0) == out@ + grouped_inserts(
                    prefix@,
                    values,
                    i as int,
                ),
            decreases rows@.len() - i,
        {
            let ghost start = out@;
            let next: usize = append_group(out, prefix.as_str(), rows, i);
            proof {
                let stmt = insert_statement(prefix@, values, i as int, next as int);
                let rest = grouped_inserts(prefix@, values, next as int);
                assert(start + (stmt + rest) =~= (start + stmt) + rest);
            }
            i = next;
        }
        assert(out@ + grouped_inserts(prefix@, values, i as int) =~= out@);
    } else {
        assert(before + single_inserts(prefix@, values, 0) =~= out@);
        while i < rows.len()
            invariant
                i <= rows@.len(),
                values == row_values_of(rows@),
                out@ == before + single_inserts(prefix@, values, i as int),
            decreases rows@.len() - i,
        {
            let mut stmt = prefix.clone();
            stmt.append(" VALUES (");
            stmt.append(row_values(&rows[i]).as_str());
            stmt.append(");\n");
            out.append(stmt.as_str());
            proof {
                assert(values[i as int] == cell_values(rows@[i as int]@));
                let done = single_inserts(prefix@, values, i as int);
                assert((before + done) + stmt@ =~= before + (done + stmt@));
            }
            i = i + 1;
        }
    }
}

/// Whether a column's `EXTRA` marks it as a generated column.
pub open spec fn marks_generated(extra: Seq<char>) -> bool {
    let e = uppered(extra);
    ||| has_text(e, "VIRTUAL GENERATED"@)
    ||| has_text(e, "STORED GENERATED"@)
    ||| e == "VIRTUAL"@
    ||| e == "STORED"@
    ||| e == "PERSISTENT"@
}

/// Whether a column's `EXTRA` marks it as a generated (computed) column, across
/// MySQL (`VIRTUAL GENERATED`, `STORED GENERATED`) and MariaDB (`VIRTUAL`,
/// `STORED`, `PERSISTENT`). Generated columns reject an explicit value on
/// insert. `DEFAULT_GENERATED`, which MySQL 8 reports for an ordinary column
/// with an expression default, is not one of them.
pub fn is_generated(extra: &str) -> (res: bool)
    ensures
        res == marks_generated(extra@),
{
    let upper = uppercase(extra);
    let e = upper.as_str();
    contains(e, "VIRTUAL GENERATED") || contains(e, "STORED GENERATED") || text_eq(e, "VIRTUAL")
        || text_eq(e, "STORED") || text_eq(e, "PERSISTENT")
}

/// The token `$RYSQL$`, made longer by `n` dollar signs.
pub open spec fn long_delimiter(n: nat) -> Seq<char> {
    "$RYSQL$"@ + Seq::new(n, |i: int| '$')
}

/// The shortest token from `long_delimiter(n)` on that does not occur in `body`.
pub open spec fn absent_from(body: Seq<char>, n: nat) -> Seq<char>
    decreases body.len() - n,
{
    if n < body.len() && has_text(body, long_delimiter(n)) {
        absent_from(body, n + 1)
    } else {
        long_delimiter(n)
    }
}

/// The delimiter for a routine body: the first of `$$`, `;;` and `$RYSQL$` that
/// does not occur in it, or else the shortest longer token that does not.
pub open spec fn delimiter_for(body: Seq<char>) -> Seq<char> {
    if !has_text(body, "$$"@) {
        "$$"@
    } else if !has_text(body, ";;"@) {
        ";;"@
    } else {
        absent_from(body, 0)
    }
}

proof fn lemma_absent_from(body: Seq<char>, n: nat)
    ensures
        !has_text(body, absent_from(body, n)),
    decreases body.len() - n,
{
    if n < body.len() && has_text(body, long_delimiter(n)) {
        lemma_absent_from(body, n + 1);
    } else if n >= body.len() {
        reveal_strlit("$RYSQL$");
        assert(long_delimiter(n).len() > body.len());
    }
}

/// Pick a `DELIMITER` token that does not occur in `body`, so that a literal
/// match inside a routine, trigger or event body does not end the statement
/// early.
pub fn pick_delimiter(body: &str) -> (res: String)
    ensures
        res@ == delimiter_for(body@),
        !has_text(body@, res@),
        !has_text(body@, "$$"@) ==> res@ == "$$"@,
{
    proof {
        lemma_absent_from(body@, 0);
    }
    if !contains(body, "$$") {
        return "$$".to_string();
    }
    if !contains(body, ";;") {
        return ";;".to_string();
    }
    let mut token = "$RYSQL$".to_string();
    let ghost mut n: nat = 0;
    assert(token@ =~= long_delimiter(0));
    while contains(body, token.as_str())
        invariant
            token@ == long_delimiter(n),
            absent_from(body@, n) == absent_from(body@, 0),
        ensures
            token@ == absent_from(body@, 0),
        decreases body@.len() - n,
    {
        proof {
            reveal_strlit("$RYSQL$");
            assert(long_delimiter(n).len() == 7 + n);
            assert(long_delimiter(n + 1) =~= long_delimiter(n).push('$'));
            n = n + 1;
        }
        token.push('$');
    }
    token
}

/// The delimiter does not occur in the body it is picked for.
pub proof fn law_delimiter_absent(body: Seq<char>)
    ensures
        !has_text(body, delimiter_for(body)),
{
    lemma_absent_from(body, 0);
}

/// A comment line that introduces an object.
pub open spec fn section_text(label: Seq<char>, name: Seq<char>) -> Seq<char> {
    "\n-- "@ + label + " `"@ + name + "`\n"@
}

/// Append a comment line that introduces an object.
pub fn section(out: &mut String, label: &str, name: &str)
    ensures
        final(out)@ == old(out)@ + section_text(label@, name@),
{
    let mut line = "\n-- ".to_string();
    line.append(label);
    line.append(" `");
    line.append(name);
    line.append("`\n");
    out.append(line.as_str());
}

/// What the comment line of a routine, trigger or event calls it.
pub open spec fn routine_label(kind: ObjectKind) -> Seq<char> {
    match kind {
        ObjectKind::Procedure => "Procedure"@,
        ObjectKind::Function => "Function"@,
        ObjectKind::Trigger => "Trigger"@,
        ObjectKind::Event => "Event"@,
        _ => "Object"@,
    }
}

/// What the comment line of a routine, trigger or event calls it.
pub fn routine_section_label(kind: ObjectKind) -> (res: &'static str)
    ensures
        res@ == routine_label(kind),
{
    match kind {
        ObjectKind::Procedure => "Procedure",
        ObjectKind::Function => "Function",
        ObjectKind::Trigger => "Trigger",
        ObjectKind::Event => "Event",
        _ => "Object",
    }
}

/// `needle` stands in `hay` at `i`, ASCII letters compared without case.
pub open spec fn occurs_ci(hay: Seq<char>, needle: Seq<char>, i: int) -> bool {
    occurs_at(lowered(hay), lowered(needle), i)
}

fn lower_chars(chars: &Vec<char>) -> (res: Vec<char>)
    ensures
        res@ == lowered(chars@),
{
    let mut out: Vec<char> = Vec::new();
    let mut i: usize = 0;
    while i < chars.len()
        invariant
            i <= chars@.len(),
            out@ == lowered(chars@.take(i as int)),
        decreases chars@.len() - i,
    {
        out.push(lower_char(chars[i]));
        i = i + 1;
        assert(chars@.take(i as int) == chars@.take(i - 1).push(chars@[i - 1]));
    }
    assert(chars@.take(i as int) == chars@);
    out
}

/// First position from `i` on at which `needle` stands in `hay`, ASCII letters
/// compared without case.
pub open spec fn first_ci(hay: Seq<char>, needle: Seq<char>, i: int) -> Option<int>
    decreases hay.len() - i + 1,
{
    if i < 0 || i + needle.len() > hay.len() {
        None
    } else if occurs_ci(hay, needle, i) {
        Some(i)
    } else {
        first_ci(hay, needle, i + 1)
    }
}

/// First position at which `needle` stands in `haystack`, ASCII letters
/// compared without case; an empty needle stands nowhere.
pub fn find_ci(haystack: &Vec<char>, needle: &str) -> (res: Option<usize>)
    ensures
        match res {
            Some(i) => needle@.len() > 0 && first_ci(haystack@, needle@, 0) == Some(i as int) && i
                + needle@.len() <= haystack@.len(),
            None => needle@.len() == 0 || first_ci(haystack@, needle@, 0) is None,
        },
{
    let low = lower_chars(&to_chars(needle));
    let hay = lower_chars(haystack);
    if low.len() == 0 || hay.len() < low.len() {
        return None;
    }
    let size: usize = hay.len();
    let last: usize = size - low.len();
    let mut i: usize = 0;
    while i <= last
        invariant
            low@ == lowered(needle@),
            hay@ == lowered(haystack@),
            0 < low@.len() <= hay@.len(),
            size == hay@.len(),
            last == size - low@.len(),
            i <= last + 1,
            first_ci(haystack@, needle@, i as int) == first_ci(haystack@, needle@, 0),
        decreases last + 1 - i,
    {
        if matches_at(&hay, &low, i) {
            return Some(i);
        }
        i = i + 1;
    }
    None
}

/// ASCII white space.
pub open spec fn ascii_space(c: char) -> bool {
    c == ' ' || c == '\t' || c == '\n' || c == '\u{c}' || c == '\r'
}

/// Where a quoted token ends, given a position inside it: after the first `q`
/// that is not doubled.
pub open spec fn quoted_token_end(s: Seq<char>, i: int, q: char) -> int
    decreases s.len() - i,
{
    if i < 0 || i >= s.len() {
        s.len() as int
    } else if s[i] == q {
        if i + 1 < s.len() && s[i + 1] == q {
            quoted_token_end(s, i + 2, q)
        } else {
            i + 1
        }
    } else {
        quoted_token_end(s, i + 1, q)
    }
}

/// Where a bare token ends: at the next `@` or white space.
pub open spec fn bare_token_end(s: Seq<char>, i: int) -> int
    decreases s.len() - i,
{
    if i < 0 || i >= s.len() || s[i] == '@' || ascii_space(s[i]) {
        i
    } else {
        bare_token_end(s, i + 1)
    }
}

/// Where the token at `i` ends.
pub open spec fn account_token_end(s: Seq<char>, i: int) -> int {
    if i < 0 || i >= s.len() {
        i
    } else if s[i] == '`' || s[i] == '\'' {
        quoted_token_end(s, i + 1, s[i])
    } else {
        bare_token_end(s, i)
    }
}

/// Advance past the token at `i`: a string in backticks or single quotes, in
/// which a doubled quote stands for itself, or a bare run up to the next `@`
/// or white space. An `i` past the end is returned as it is.
pub fn skip_token(s: &Vec<char>, i: usize) -> (res: usize)
    ensures
        res == account_token_end(s@, i as int),
        i <= res,
        i <= s@.len() ==> res <= s@.len(),
{
    if i >= s.len() {
        return i;
    }
    let size: usize = s.len();
    let q = s[i];
    if q == '`' || q == '\'' {
        let mut k: usize = i + 1;
        while k < s.len()
            invariant
                size == s@.len(),
                i < k <= s@.len(),
                q == s@[i as int],
                q == '`' || q == '\'',
                quoted_token_end(s@, k as int, q) == quoted_token_end(s@, i + 1, q),
            decreases s@.len() - k,
        {
            if s[k] == q {
                if size - k > 1 && s[k + 1] == q {
                    k = k + 2;
                } else {
                    return k + 1;
                }
            } else {
                k = k + 1;
            }
        }
        k
    } else {
        let mut k: usize = i;
        while k < s.len() && s[k] != '@' && !(s[k] == ' ' || s[k] == '\t' || s[k] == '\n' || s[k]
            == '\u{c}' || s[k] == '\r')
            invariant
                i <= k <= s@.len(),
                bare_token_end(s@, k as int) == bare_token_end(s@, i as int),
            ensures
                k <= s@.len(),
                bare_token_end(s@, k as int) == k,
            decreases s@.len() - k,
        {
            k = k + 1;
        }
        k
    }
}

/// Where the `DEFINER=user@host` clause at `start` ends, with the space after
/// it.
pub open spec fn definer_end(s: Seq<char>, start: int) -> int {
    let user = account_token_end(s, start + "DEFINER="@.len());
    let host = if user < s.len() && s[user] == '@' {
        account_token_end(s, user + 1)
    } else {
        user
    };
    if host < s.len() && s[host] == ' ' {
        host + 1
    } else {
        host
    }
}

/// `s` without the characters from `from` to `to`.
pub open spec fn cut(s: Seq<char>, from: int, to: int) -> Seq<char> {
    s.take(from) + s.skip(to)
}

/// `s` without its first `DEFINER=user@host` clause.
pub open spec fn stripped(s: Seq<char>) -> Seq<char> {
    match first_ci(s, "DEFINER="@, 0) {
        Some(start) => cut(s, start, definer_end(s, start)),
        None => s,
    }
}

/// Remove the first `DEFINER=user@host` clause from a `CREATE` statement. The
/// user and the host may be quoted or bare. A statement without such a clause
/// is returned unchanged.
pub fn strip_definer(ddl: &str) -> (res: String)
    ensures
        res@ == stripped(ddl@),
{
    let chars = to_chars(ddl);
    let size: usize = chars.len();
    proof {
        reveal_strlit("DEFINER=");
    }
    match find_ci(&chars, "DEFINER=") {
        None => ddl.to_string(),
        Some(start) => {
            let mut i: usize = skip_token(&chars, start + 8);
            if i < size && chars[i] == '@' {
                i = skip_token(&chars, i + 1);
            }
            if i < size && chars[i] == ' ' {
                i = i + 1;
            }
            let mut out = sub_text(&chars, 0, start);
            out.append(sub_text(&chars, i, size).as_str());
            assert(out@ =~= cut(ddl@, start as int, definer_end(ddl@, start as int)));
            out
        },
    }
}

/// The text of an object's definition as it goes into a dump.
pub open spec fn body_text(ddl: Seq<char>, strip: bool) -> Seq<char> {
    if strip {
        stripped(ddl)
    } else {
        ddl
    }
}

/// `ddl` without its `DEFINER` clause where `strip` asks for it.
pub fn maybe_strip_definer(ddl: &str, strip: bool) -> (res: String)
    ensures
        res@ == body_text(ddl@, strip),
{
    if strip {
        strip_definer(ddl)
    } else {
        ddl.to_string()
    }
}

proof fn lemma_first_ci(hay: Seq<char>, needle: Seq<char>, i: int)
    requires
        0 <= i,
    ensures
        first_ci(hay, needle, i) is None <==> forall|k: int|
            i <= k ==> !#[trigger] occurs_ci(hay, needle, k),
    decreases hay.len() - i + 1,
{
    if i + needle.len() <= hay.len() && !occurs_ci(hay, needle, i) {
        lemma_first_ci(hay, needle, i + 1);
        if first_ci(hay, needle, i) is None {
            assert forall|k: int| i <= k implies !#[trigger] occurs_ci(hay, needle, k) by {
                if k > i {
                }
            }
        }
    }
}

/// `first_ci` finds the first occurrence.
pub proof fn lemma_first_ci_is(hay: Seq<char>, needle: Seq<char>, i: int, k: int)
    requires
        0 <= i <= k,
        occurs_ci(hay, needle, k),
        forall|m: int| i <= m < k ==> !#[trigger] occurs_ci(hay, needle, m),
    ensures
        first_ci(hay, needle, i) == Some(k),
    decreases k - i,
{
    if i < k {
        lemma_first_ci_is(hay, needle, i + 1, k);
    }
}

/// A statement in which `DEFINER=` does not occur is left as it is.
pub proof fn law_no_definer_no_change(s: Seq<char>)
    requires
        forall|k: int| 0 <= k ==> !#[trigger] occurs_ci(s, "DEFINER="@, k),
    ensures
        stripped(s) == s,
{
    lemma_first_ci(s, "DEFINER="@, 0);
}

/// Only the clause is removed: what stands before and after it is kept.
pub proof fn law_strip_keeps_the_rest(s: Seq<char>)
    ensures
        exists|from: int, to: int|
            0 <= from <= to <= s.len() && #[trigger] cut(s, from, to) == stripped(s),
{
    reveal_strlit("DEFINER=");
    match first_ci(s, "DEFINER="@, 0) {
        Some(start) => {
            lemma_first_ci_bounds(s, "DEFINER="@, 0);
            let user = account_token_end(s, start + 8);
            lemma_token_bounds(s, start + 8);
            if user < s.len() && s[user] == '@' {
                lemma_token_bounds(s, user + 1);
            }
            assert(cut(s, start, definer_end(s, start)) == stripped(s));
        },
        None => {
            assert(cut(s, 0, 0) =~= s);
        },
    }
}

proof fn lemma_first_ci_bounds(hay: Seq<char>, needle: Seq<char>, i: int)
    requires
        0 <= i,
    ensures
        first_ci(hay, needle, i) matches Some(k) ==> i <= k && k + needle.len() <= hay.len(),
    decreases hay.len() - i + 1,
{
    if i + needle.len() <= hay.len() && !occurs_ci(hay, needle, i) {
        lemma_first_ci_bounds(hay, needle, i + 1);
    }
}

proof fn lemma_token_bounds(s: Seq<char>, i: int)
    requires
        0 <= i <= s.len(),
    ensures
        i <= account_token_end(s, i) <= s.len(),
{
    if i < s.len() {
        if s[i] == '`' || s[i] == '\'' {
            lemma_quoted_bounds(s, i + 1, s[i]);
        } else {
            lemma_bare_bounds(s, i);
        }
    }
}

proof fn lemma_quoted_bounds(s: Seq<char>, i: int, q: char)
    requires
        0 <= i <= s.len(),
    ensures
        i <= quoted_token_end(s, i, q) <= s.len(),
    decreases s.len() - i,
{
    if i < s.len() {
        if s[i] == q {
            if i + 1 < s.len() && s[i + 1] == q {
                lemma_quoted_bounds(s, i + 2, q);
            }
        } else {
            lemma_quoted_bounds(s, i + 1, q);
        }
    }
}

proof fn lemma_bare_bounds(s: Seq<char>, i: int)
    requires
        0 <= i <= s.len(),
    ensures
        i <= bare_token_end(s, i) <= s.len(),
    decreases s.len() - i,
{
    if i < s.len() && s[i] != '@' && !ascii_space(s[i]) {
        lemma_bare_bounds(s, i + 1);
    }
}

/// A character that some platform does not allow in a file name.
pub open spec fn unsafe_in_name(c: char) -> bool {
    ||| c == '/'
    ||| c == '\\'
    ||| c == ':'
    ||| c == '*'
    ||| c == '?'
    ||| c == '"'
    ||| c == '<'
    ||| c == '>'
    ||| c == '|'
    ||| (c as u32) < 0x20
    ||| 0x7f <= (c as u32) < 0xa0
}

/// `c`, or `_` where `c` is not allowed in a file name.
pub open spec fn safe_char(c: char) -> char {
    if unsafe_in_name(c) {
        '_'
    } else {
        c
    }
}

/// `s` without its leading dots.
pub open spec fn undotted_start(s: Seq<char>) -> Seq<char>
    decreases s.len(),
{
    if s.len() > 0 && s.first() == '.' {
        undotted_start(s.drop_first())
    } else {
        s
    }
}

/// `s` without its trailing dots.
pub open spec fn undotted_end(s: Seq<char>) -> Seq<char>
    decreases s.len(),
{
    if s.len() > 0 && s.last() == '.' {
        undotted_end(s.drop_last())
    } else {
        s
    }
}

/// A file stem for the table `name`: characters that are not allowed become
/// `_`, then white space and dots are taken off both ends.
pub open spec fn file_stem(name: Seq<char>) -> Seq<char> {
    let clean = name.map_values(|c: char| safe_char(c));
    let stem = undotted_end(undotted_start(trimmed(clean)));
    if stem.len() == 0 {
        "table"@
    } else {
        stem
    }
}

fn is_unsafe_in_name(c: char) -> (res: bool)
    ensures
        res == unsafe_in_name(c),
{
    let n: u32 = c as u32;
    c == '/' || c == '\\' || c == ':' || c == '*' || c == '?' || c == '"' || c == '<' || c == '>'
        || c == '|' || n < 0x20 || (0x7f <= n && n < 0xa0)
}

/// Make a table name safe to use as a file stem on every platform.
pub fn sanitize_filename(name: &str) -> (res: String)
    ensures
        res@ == file_stem(name@),
{
    let chars = to_chars(name);
    let ghost clean = name@.map_values(|c: char| safe_char(c));
    let mut safe = String::new();
    let mut i: usize = 0;
    while i < chars.len()
        invariant
            i <= chars@.len(),
            chars@ == name@,
            clean == name@.map_values(|c: char| safe_char(c)),
            safe@ == clean.take(i as int),
        decreases chars@.len() - i,
    {
        if is_unsafe_in_name(chars[i]) {
            safe.push('_');
        } else {
            safe.push(chars[i]);
        }
        assert(safe@ =~= clean.take(i + 1));
        i = i + 1;
    }
    assert(clean.take(i as int) == clean);
    let bare = trim(safe.as_str());
    let body = to_chars(bare.as_str());
    let mut from: usize = 0;
    assert(body@.skip(0) == body@);
    while from < body.len() && body[from] == '.'
        invariant
            from <= body@.len(),
            undotted_start(body@.skip(from as int)) == undotted_start(body@),
        ensures
            from <= body@.len(),
            from < body@.len() ==> body@[from as int] != '.',
        decreases body@.len() - from,
    {
        assert(body@.skip(from as int).drop_first() == body@.skip(from + 1));
        from = from + 1;
    }
    let ghost rest = body@.skip(from as int);
    let mut to: usize = body.len();
    assert(body@.subrange(from as int, to as int) == rest);
    while to > from && body[to - 1] == '.'
        invariant
            from <= to <= body@.len(),
            undotted_end(body@.subrange(from as int, to as int)) == undotted_end(rest),
        ensures
            from <= to <= body@.len(),
            to > from ==> body@[to - 1] != '.',
        decreases to,
    {
        assert(body@.subrange(from as int, to as int).drop_last() == body@.subrange(
            from as int,
            to - 1,
        ));
        to = to - 1;
    }
    if from == to {
        "table".to_string()
    } else {
        sub_text(&body, from, to)
    }
}

proof fn lemma_undotted(s: Seq<char>)
    ensures
        forall|c: char| undotted_start(s).contains(c) ==> #[trigger] s.contains(c),
        forall|c: char| undotted_end(s).contains(c) ==> #[trigger] s.contains(c),
    decreases s.len(),
{
    if s.len() > 0 {
        lemma_undotted(s.drop_first());
        lemma_undotted(s.drop_last());
        assert forall|c: char| s.drop_first().contains(c) implies #[trigger] s.contains(c) by {
            let k = choose|k: int| 0 <= k < s.drop_first().len() && s.drop_first()[k] == c;
            assert(s[k + 1] == c);
        }
        assert forall|c: char| s.drop_last().contains(c) implies #[trigger] s.contains(c) by {
            let k = choose|k: int| 0 <= k < s.drop_last().len() && s.drop_last()[k] == c;
            assert(s[k] == c);
        }
    }
}

proof fn lemma_trimmed_contains(s: Seq<char>)
    ensures
        forall|c: char| trimmed_start(s).contains(c) ==> #[trigger] s.contains(c),
        forall|c: char| trimmed_end(s).contains(c) ==> #[trigger] s.contains(c),
    decreases s.len(),
{
    if s.len() > 0 {
        lemma_trimmed_contains(s.drop_first());
        lemma_trimmed_contains(s.drop_last());
        assert forall|c: char| s.drop_first().contains(c) implies #[trigger] s.contains(c) by {
            let k = choose|k: int| 0 <= k < s.drop_first().len() && s.drop_first()[k] == c;
            assert(s[k + 1] == c);
        }
        assert forall|c: char| s.drop_last().contains(c) implies #[trigger] s.contains(c) by {
            let k = choose|k: int| 0 <= k < s.drop_last().len() && s.drop_last()[k] == c;
            assert(s[k] == c);
        }
    }
}

/// What is left neither begins nor ends with a dot, as far as the dots on that
/// side were taken off.
proof fn lemma_no_outer_dots(s: Seq<char>)
    ensures
        undotted_start(s).len() > 0 ==> undotted_start(s).first() != '.',
        undotted_end(s).len() > 0 ==> undotted_end(s).last() != '.' && undotted_end(s).first()
            == s.first(),
    decreases s.len(),
{
    if s.len() > 0 {
        lemma_no_outer_dots(s.drop_first());
        lemma_no_outer_dots(s.drop_last());
    }
}

/// A file stem is never empty, neither begins nor ends with a dot, and holds no
/// character that some platform does not allow in a file name.
pub proof fn law_file_stem_is_safe(name: Seq<char>)
    ensures
        file_stem(name).len() > 0,
        file_stem(name).first() != '.',
        file_stem(name).last() != '.',
        forall|c: char| #[trigger] file_stem(name).contains(c) ==> !unsafe_in_name(c),
{
    reveal_strlit("table");
    let clean = name.map_values(|c: char| safe_char(c));
    lemma_trimmed_contains(clean);
    lemma_trimmed_contains(trimmed_start(clean));
    lemma_undotted(trimmed(clean));
    lemma_undotted(undotted_start(trimmed(clean)));
    lemma_no_outer_dots(trimmed(clean));
    lemma_no_outer_dots(undotted_start(trimmed(clean)));
    let stem = undotted_end(undotted_start(trimmed(clean)));
    assert forall|c: char| #[trigger] file_stem(name).contains(c) implies !unsafe_in_name(c) by {
        if stem.len() > 0 {
            assert(undotted_start(trimmed(clean)).contains(c));
            assert(trimmed(clean).contains(c));
            assert(trimmed_start(clean).contains(c));
            assert(clean.contains(c));
            let k = choose|k: int| 0 <= k < clean.len() && clean[k] == c;
            assert(clean[k] == safe_char(name[k]));
        }
    }
}

proof fn lemma_open_insert_grows(
    prefix: Seq<char>,
    rows: Seq<Seq<CellValue>>,
    i: int,
    j: int,
    k: int,
)
    requires
        i < j <= k,
    ensures
        byte_len(insert_statement(prefix, rows, i, j)) <= byte_len(
            insert_statement(prefix, rows, i, k),
        ),
    decreases k - j,
{
    if j < k {
        lemma_open_insert_grows(prefix, rows, i, j, k - 1);
        let shorter = open_insert(prefix, rows, i, k - 1);
        let added = ",\n("@ + row_text(rows[k - 1]) + ")"@;
        lemma_encode_concat(shorter, ";\n"@);
        lemma_encode_concat(shorter, added);
        lemma_encode_concat(shorter + added, ";\n"@);
    }
}

/// With extended inserts, rows that fit into one statement are written in one.
pub proof fn law_rows_that_fit_share_a_statement(
    table: Seq<char>,
    columns: Seq<Seq<char>>,
    rows: Seq<Seq<CellValue>>,
)
    requires
        rows.len() > 0,
        byte_len(insert_statement(insert_prefix(table, columns), rows, 0, rows.len() as int))
            <= MAX_INSERT_BYTES,
    ensures
        inserts_text(table, columns, rows, true) == insert_statement(
            insert_prefix(table, columns),
            rows,
            0,
            rows.len() as int,
        ),
{
    let prefix = insert_prefix(table, columns);
    let n = rows.len() as int;
    lemma_group_takes_all(prefix, rows, 1);
    assert(grouped_inserts(prefix, rows, n) =~= Seq::<char>::empty());
    assert(insert_statement(prefix, rows, 0, n) + Seq::<char>::empty() =~= insert_statement(
        prefix,
        rows,
        0,
        n,
    ));
}

proof fn lemma_group_takes_all(prefix: Seq<char>, rows: Seq<Seq<CellValue>>, j: int)
    requires
        0 < j <= rows.len(),
        byte_len(insert_statement(prefix, rows, 0, rows.len() as int)) <= MAX_INSERT_BYTES,
    ensures
        group_end(prefix, rows, 0, j) == rows.len(),
    decreases rows.len() - j,
{
    if j < rows.len() {
        lemma_open_insert_grows(prefix, rows, 0, j + 1, rows.len() as int);
        lemma_group_takes_all(prefix, rows, j + 1);
    }
}

/// In a file stem each character that some platform does not allow is replaced
/// by one underscore, and the others stay in their places.
pub proof fn law_unsafe_characters_are_replaced(name: Seq<char>)
    requires
        name.len() > 0,
        !is_white_space(name[0]) && !is_white_space(name.last()),
        name[0] != '.' && name.last() != '.',
    ensures
        file_stem(name).len() == name.len(),
        forall|i: int|
            0 <= i < name.len() ==> #[trigger] file_stem(name)[i] == if unsafe_in_name(name[i]) {
                '_'
            } else {
                name[i]
            },
{
    let clean = name.map_values(|c: char| safe_char(c));
    assert(clean[0] == safe_char(name[0]));
    assert(clean[clean.len() - 1] == safe_char(name[name.len() - 1]));
    assert(trimmed(clean) == clean);
    assert(undotted_start(clean) == clean);
    assert(undotted_end(clean) == clean);
}

} // verus!
