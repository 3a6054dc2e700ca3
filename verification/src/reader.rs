//! What a server reads from the `INSERT` statements of an export.

use vstd::prelude::*;

use crate::export::{
    group_end, grouped_inserts, ident_list, insert_prefix, inserts_text, lemma_group_end,
    literal_text, open_insert, row_text, single_inserts,
};
use crate::query::{law_finite_and_nan, CellValue};
use crate::quote::{
    law_hex_round_trip, law_ident_round_trip, law_quote_round_trip, lemma_hex_chars, quoted_ident,
    quoted_text, read_hex, read_ident, read_literal,
};
use crate::text::{
    decimal, integer_read, law_decimal_reads_back, law_signed_decimal_reads_back,
    lemma_joined_front, signed_decimal,
};

verus! {

/// A value that a server reads.
#[verifier::ext_equal]
pub enum SqlValue {
    Null,
    Integer(int),
    /// A number that is no integer, as it is written.
    Number(Seq<char>),
    Text(Seq<char>),
    Bytes(Seq<u8>),
}

/// An `INSERT` that a server reads.
#[verifier::ext_equal]
pub struct Insert {
    pub table: Seq<char>,
    pub columns: Seq<Seq<char>>,
    pub rows: Seq<Seq<SqlValue>>,
}

/// What follows `word`, where the text begins with it.
pub open spec fn past(t: Seq<char>, word: Seq<char>) -> Option<Seq<char>> {
    if t.len() >= word.len() && t.take(word.len() as int) == word {
        Some(t.skip(word.len() as int))
    } else {
        None
    }
}

/// The text up to its first comma or closing parenthesis.
pub open spec fn bare_word(t: Seq<char>) -> Seq<char>
    decreases t.len(),
{
    if t.len() == 0 || t[0] == ',' || t[0] == ')' {
        seq![]
    } else {
        seq![t[0]] + bare_word(t.drop_first())
    }
}

/// What a word that is not quoted stands for.
pub open spec fn word_value(w: Seq<char>) -> SqlValue {
    if w == "NULL"@ {
        SqlValue::Null
    } else if w.len() >= 2 && w[0] == '0' && w[1] == 'x' {
        SqlValue::Bytes(read_hex(w.skip(2)))
    } else {
        match integer_read(w) {
            Some(n) => SqlValue::Integer(n),
            None => SqlValue::Number(w),
        }
    }
}

/// The value at the start of the text, and what follows it.
pub open spec fn read_value(t: Seq<char>) -> Option<(SqlValue, Seq<char>)> {
    if t.len() > 0 && t[0] == '\'' {
        match read_literal(t, 1) {
            Some((s, end)) => Some((SqlValue::Text(s), t.skip(end))),
            None => None,
        }
    } else if bare_word(t).len() == 0 {
        None
    } else {
        Some((word_value(bare_word(t)), t.skip(bare_word(t).len() as int)))
    }
}

/// The values up to the closing parenthesis, and what follows it.
pub open spec fn read_values(t: Seq<char>) -> Option<(Seq<SqlValue>, Seq<char>)>
    decreases t.len(),
{
    match read_value(t) {
        None => None,
        Some((v, rest)) => match (past(rest, seq![')']), past(rest, seq![',', ' '])) {
            (Some(after), _) => Some((seq![v], after)),
            (None, Some(more)) => if more.len() < t.len() {
                match read_values(more) {
                    Some((vs, after)) => Some((seq![v] + vs, after)),
                    None => None,
                }
            } else {
                None
            },
            (None, None) => None,
        },
    }
}

/// The row at the start of the text, and what follows it.
pub open spec fn read_row(t: Seq<char>) -> Option<(Seq<SqlValue>, Seq<char>)> {
    match past(t, seq!['(']) {
        None => None,
        Some(inner) => match past(inner, seq![')']) {
            Some(after) => Some((seq![], after)),
            None => read_values(inner),
        },
    }
}

/// The rows at the start of the text, separated by a comma and a line feed, and
/// what follows them.
pub open spec fn read_rows(t: Seq<char>) -> Option<(Seq<Seq<SqlValue>>, Seq<char>)>
    decreases t.len(),
{
    match read_row(t) {
        None => None,
        Some((row, rest)) => match past(rest, seq![',', '\n']) {
            None => Some((seq![row], rest)),
            Some(more) => if more.len() < t.len() {
                match read_rows(more) {
                    Some((rows, after)) => Some((seq![row] + rows, after)),
                    None => None,
                }
            } else {
                None
            },
        },
    }
}

/// The quoted name at the start of the text, and what follows it.
pub open spec fn read_name(t: Seq<char>) -> Option<(Seq<char>, Seq<char>)> {
    if t.len() > 0 && t[0] == '`' {
        match read_ident(t, 1) {
            Some((name, end)) => Some((name, t.skip(end))),
            None => None,
        }
    } else {
        None
    }
}

/// The quoted names up to the closing parenthesis, and what follows it.
pub open spec fn read_names(t: Seq<char>) -> Option<(Seq<Seq<char>>, Seq<char>)>
    decreases t.len(),
{
    match read_name(t) {
        None => None,
        Some((name, rest)) => match (past(rest, seq![')']), past(rest, seq![',', ' '])) {
            (Some(after), _) => Some((seq![name], after)),
            (None, Some(more)) => if more.len() < t.len() {
                match read_names(more) {
                    Some((names, after)) => Some((seq![name] + names, after)),
                    None => None,
                }
            } else {
                None
            },
            (None, None) => None,
        },
    }
}

/// The table and the columns of the `INSERT` at the start of the text, and what
/// follows them.
pub open spec fn read_target(t: Seq<char>) -> Option<(Seq<char>, Seq<Seq<char>>, Seq<char>)> {
    match past(t, "INSERT INTO "@) {
        None => None,
        Some(rest) => match read_name(rest) {
            None => None,
            Some((table, rest)) => match past(rest, " ("@) {
                None => None,
                Some(rest) => match read_names(rest) {
                    None => None,
                    Some((columns, rest)) => Some((table, columns, rest)),
                },
            },
        },
    }
}

/// The `INSERT` at the start of the text, with its terminator, and what follows
/// it.
pub open spec fn read_insert(t: Seq<char>) -> Option<(Insert, Seq<char>)> {
    match read_target(t) {
        None => None,
        Some((table, columns, rest)) => {
            let lists = match past(rest, " VALUES\n"@) {
                Some(lists) => Some(lists),
                None => past(rest, " VALUES "@),
            };
            match lists {
                None => None,
                Some(lists) => match read_rows(lists) {
                    None => None,
                    Some((rows, rest)) => match past(rest, ";\n"@) {
                        None => None,
                        Some(after) => Some((Insert { table, columns, rows }, after)),
                    },
                },
            }
        },
    }
}

/// The `INSERT` statements of a script of nothing else.
pub open spec fn read_inserts(t: Seq<char>) -> Option<Seq<Insert>>
    decreases t.len(),
{
    if t.len() == 0 {
        Some(seq![])
    } else {
        match read_insert(t) {
            None => None,
            Some((insert, rest)) => if rest.len() < t.len() {
                match read_inserts(rest) {
                    Some(more) => Some(seq![insert] + more),
                    None => None,
                }
            } else {
                None
            },
        }
    }
}

/// The rows of all the statements, in order.
pub open spec fn all_rows(inserts: Seq<Insert>) -> Seq<Seq<SqlValue>>
    decreases inserts.len(),
{
    if inserts.len() == 0 {
        seq![]
    } else {
        inserts[0].rows + all_rows(inserts.drop_first())
    }
}

/// What a cell value is to a server. A truth value is 1 or 0, a number that is
/// not finite has no value, and bytes of length 0 are an empty text.
pub open spec fn value_of(v: CellValue) -> SqlValue {
    match v {
        CellValue::Null => SqlValue::Null,
        CellValue::Int(n) => SqlValue::Integer(n as int),
        CellValue::UInt(n) => SqlValue::Integer(n as int),
        CellValue::Float { bits, text } => if bits as int % 0x8000_0000_0000_0000
            < 0x7ff0_0000_0000_0000 {
            word_value(text)
        } else {
            SqlValue::Null
        },
        CellValue::Bool(b) => if b {
            SqlValue::Integer(1)
        } else {
            SqlValue::Integer(0)
        },
        CellValue::Text(s) => SqlValue::Text(s),
        CellValue::Json(s) => SqlValue::Text(s),
        CellValue::Blob(b) => if b.len() == 0 {
            SqlValue::Text(seq![])
        } else {
            SqlValue::Bytes(b)
        },
    }
}

/// The values of a row.
pub open spec fn values_of(row: Seq<CellValue>) -> Seq<SqlValue> {
    row.map_values(|v: CellValue| value_of(v))
}

/// The values of several rows.
pub open spec fn table_of(rows: Seq<Seq<CellValue>>) -> Seq<Seq<SqlValue>> {
    rows.map_values(|row: Seq<CellValue>| values_of(row))
}

/// The text of a number is written as a number is: with digits, signs, points
/// and exponents.
pub open spec fn written_as_number(text: Seq<char>) -> bool {
    &&& text.len() > 0
    &&& forall|i: int|
        0 <= i < text.len() ==> '0' <= (#[trigger] text[i]) <= '9' || text[i] == '+' || text[i]
            == '-' || text[i] == '.' || text[i] == 'e' || text[i] == 'E'
}

/// Every floating-point number of the rows is written as a number is.
pub open spec fn numbers_are_written(rows: Seq<Seq<CellValue>>) -> bool {
    forall|i: int, k: int|
        0 <= i < rows.len() && 0 <= k < rows[i].len() ==> (#[trigger] rows[i][k] matches
            CellValue::Float { bits, text } ==> written_as_number(text))
}

proof fn lemma_past(word: Seq<char>, rest: Seq<char>)
    ensures
        past(word + rest, word) == Some(rest),
{
    assert((word + rest).take(word.len() as int) =~= word);
    assert((word + rest).skip(word.len() as int) =~= rest);
}

proof fn lemma_bare_word(w: Seq<char>, after: Seq<char>)
    requires
        forall|i: int| 0 <= i < w.len() ==> (#[trigger] w[i]) != ',' && w[i] != ')',
        after.len() > 0 && (after[0] == ',' || after[0] == ')'),
    ensures
        bare_word(w + after) == w,
        (w + after).skip(w.len() as int) == after,
    decreases w.len(),
{
    let t = w + after;
    assert(t.skip(w.len() as int) =~= after);
    if w.len() == 0 {
        assert(t =~= after);
        assert(bare_word(t) =~= w);
    } else {
        assert(t.drop_first() =~= w.drop_first() + after);
        assert(t[0] == w[0]);
        lemma_bare_word(w.drop_first(), after);
        assert(seq![w[0]] + w.drop_first() =~= w);
    }
}

/// A bare literal is read back as what its word stands for.
proof fn lemma_read_bare(w: Seq<char>, after: Seq<char>)
    requires
        w.len() > 0,
        w[0] != '\'',
        forall|i: int| 0 <= i < w.len() ==> (#[trigger] w[i]) != ',' && w[i] != ')',
        after.len() > 0 && (after[0] == ',' || after[0] == ')'),
    ensures
        read_value(w + after) == Some((word_value(w), after)),
{
    lemma_bare_word(w, after);
    assert((w + after)[0] == w[0]);
}

proof fn lemma_read_digits(n: nat)
    ensures
        word_value(decimal(n)) == SqlValue::Integer(n as int),
        word_value(signed_decimal(-n)) == SqlValue::Integer(-n),
{
    reveal_strlit("NULL");
    law_decimal_reads_back(n);
    law_signed_decimal_reads_back(n as int);
    law_signed_decimal_reads_back(-n);
    let w = decimal(n);
    assert('0' <= w[0] <= '9');
    assert("NULL"@[0] == 'N');
    if w.len() >= 2 {
        assert('0' <= w[1] <= '9');
    }
    let s = signed_decimal(-n);
    if n > 0 {
        assert(s[0] == '-');
    } else {
        assert(s == w);
    }
}

/// The literal of a cell is read back as the cell's value, whatever follows it
/// in the list.
pub proof fn law_literal_reads_back(v: CellValue, after: Seq<char>)
    requires
        after.len() > 0 && (after[0] == ',' || after[0] == ')'),
        v matches CellValue::Float { bits, text } ==> written_as_number(text),
    ensures
        read_value(literal_text(v) + after) == Some((value_of(v), after)),
        literal_text(v).len() > 0,
        literal_text(v)[0] != ')',
{
    reveal_strlit("NULL");
    reveal_strlit("0");
    reveal_strlit("1");
    reveal_strlit("''");
    let w = literal_text(v);
    match v {
        CellValue::Null => {
            lemma_read_bare(w, after);
        },
        CellValue::Int(n) => {
            let m: nat = if n < 0 {
                (-(n as int)) as nat
            } else {
                n as nat
            };
            law_decimal_reads_back(m);
            lemma_read_digits(m);
            assert forall|i: int| 0 <= i < w.len() implies (#[trigger] w[i]) == '-' || '0' <= w[i]
                <= '9' by {
                if n < 0 && i > 0 {
                    assert(w[i] == decimal(m)[i - 1]);
                }
            }
            assert(w[0] == '-' || '0' <= w[0] <= '9');
            lemma_read_bare(w, after);
        },
        CellValue::UInt(n) => {
            law_decimal_reads_back(n as nat);
            lemma_read_digits(n as nat);
            assert('0' <= w[0] <= '9');
            lemma_read_bare(w, after);
        },
        CellValue::Float { bits, text } => {
            law_finite_and_nan(bits);
            lemma_read_bare(w, after);
        },
        CellValue::Bool(b) => {
            lemma_read_bare(w, after);
            assert(integer_read("1"@) == Some(1int));
            assert(integer_read("0"@) == Some(0int));
        },
        CellValue::Text(s) => {
            law_quote_round_trip(s, after);
            assert((w + after).skip(w.len() as int) =~= after);
        },
        CellValue::Json(s) => {
            law_quote_round_trip(s, after);
            assert((w + after).skip(w.len() as int) =~= after);
        },
        CellValue::Blob(b) => {
            if b.len() == 0 {
                law_quote_round_trip(seq![], after);
                assert(quoted_text(seq![]) =~= "''"@);
                assert((w + after).skip(w.len() as int) =~= after);
            } else {
                law_hex_round_trip(b);
                lemma_hex_chars(b);
                assert(w.take(2)[0] == '0' && w.take(2)[1] == 'x');
                assert(w[0] == '0' && w[1] == 'x');
                lemma_read_bare(w, after);
            }
        },
    }
}

/// The literals of a row, which is not empty, are read back as its values.
proof fn lemma_read_values(row: Seq<CellValue>, after: Seq<char>)
    requires
        row.len() > 0,
        forall|k: int|
            0 <= k < row.len() ==> (#[trigger] row[k] matches CellValue::Float { bits, text }
                ==> written_as_number(text)),
    ensures
        read_values(row_text(row) + (seq![')'] + after)) == Some((values_of(row), after)),
        row_text(row).len() > 0,
        row_text(row)[0] != ')',
    decreases row.len(),
{
    reveal_strlit(", ");
    let parts = row.map_values(|v: CellValue| literal_text(v));
    let close = seq![')'] + after;
    let first = literal_text(row[0]);
    assert(row[0] matches CellValue::Float { bits, text } ==> written_as_number(text));
    if row.len() == 1 {
        assert(row_text(row) == first);
        law_literal_reads_back(row[0], close);
        lemma_past(seq![')'], after);
        assert(values_of(row) =~= seq![value_of(row[0])]);
    } else {
        let rest = row.drop_first();
        assert(parts.drop_first() =~= rest.map_values(|v: CellValue| literal_text(v)));
        lemma_joined_front(parts, ", "@);
        assert(", "@ =~= seq![',', ' ']);
        assert forall|k: int| 0 <= k < rest.len() implies (#[trigger] rest[k] matches
            CellValue::Float { bits, text } ==> written_as_number(text)) by {
            assert(rest[k] == row[k + 1]);
        }
        lemma_read_values(rest, after);
        let more = row_text(rest) + close;
        let tail = seq![',', ' '] + more;
        assert(row_text(row) + close =~= first + tail);
        law_literal_reads_back(row[0], tail);
        lemma_past(seq![',', ' '], more);
        assert(past(tail, seq![')']) is None) by {
            assert(tail.take(1)[0] == ',');
        }
        assert(seq![value_of(row[0])] + values_of(rest) =~= values_of(row));
        assert(row_text(row)[0] == first[0]);
    }
}

/// A row in parentheses.
spec fn row_list(row: Seq<CellValue>) -> Seq<char> {
    seq!['('] + row_text(row) + seq![')']
}

proof fn lemma_read_row(row: Seq<CellValue>, after: Seq<char>)
    requires
        forall|k: int|
            0 <= k < row.len() ==> (#[trigger] row[k] matches CellValue::Float { bits, text }
                ==> written_as_number(text)),
    ensures
        read_row(row_list(row) + after) == Some((values_of(row), after)),
{
    let inner = row_text(row) + (seq![')'] + after);
    assert(row_list(row) + after =~= seq!['('] + inner);
    lemma_past(seq!['('], inner);
    if row.len() == 0 {
        assert(inner =~= seq![')'] + after);
        lemma_past(seq![')'], after);
        assert(values_of(row) =~= seq![]);
    } else {
        lemma_read_values(row, after);
        assert(inner[0] == row_text(row)[0]);
        assert(past(inner, seq![')']) is None) by {
            assert(inner.take(1)[0] == inner[0]);
        }
    }
}

/// The rows from `i` to `j` in parentheses, separated by a comma and a line
/// feed.
spec fn lists(rows: Seq<Seq<CellValue>>, i: int, j: int) -> Seq<char>
    decreases j - i,
{
    if i >= j {
        seq![]
    } else if i + 1 == j {
        row_list(rows[i])
    } else {
        row_list(rows[i]) + seq![',', '\n'] + lists(rows, i + 1, j)
    }
}

proof fn lemma_lists_grow(rows: Seq<Seq<CellValue>>, i: int, j: int)
    requires
        i < j,
    ensures
        lists(rows, i, j + 1) == lists(rows, i, j) + seq![',', '\n'] + row_list(rows[j]),
    decreases j - i,
{
    if i + 1 < j {
        lemma_lists_grow(rows, i + 1, j);
        assert(lists(rows, i, j + 1) =~= lists(rows, i, j) + seq![',', '\n'] + row_list(rows[j]));
    } else {
        assert(lists(rows, j, j + 1) == row_list(rows[j]));
    }
}

proof fn lemma_open_insert(prefix: Seq<char>, rows: Seq<Seq<CellValue>>, i: int, j: int)
    requires
        i < j,
    ensures
        open_insert(prefix, rows, i, j) == prefix + " VALUES\n"@ + lists(rows, i, j),
    decreases j - i,
{
    reveal_strlit("(");
    reveal_strlit(")");
    reveal_strlit(",\n(");
    if i + 1 < j {
        lemma_open_insert(prefix, rows, i, j - 1);
        lemma_lists_grow(rows, i, j - 1);
        assert(",\n("@ + row_text(rows[j - 1]) + ")"@ =~= seq![',', '\n'] + row_list(rows[j - 1]));
        assert(open_insert(prefix, rows, i, j) =~= prefix + " VALUES\n"@ + lists(rows, i, j));
    } else {
        assert(open_insert(prefix, rows, i, j) =~= prefix + " VALUES\n"@ + lists(rows, i, j));
    }
}

proof fn lemma_read_rows(rows: Seq<Seq<CellValue>>, i: int, j: int, after: Seq<char>)
    requires
        0 <= i < j <= rows.len(),
        numbers_are_written(rows),
        after.len() > 0 && after[0] == ';',
    ensures
        read_rows(lists(rows, i, j) + after) == Some((table_of(rows).subrange(i, j), after)),
    decreases j - i,
{
    let row = rows[i];
    assert forall|k: int| 0 <= k < row.len() implies (#[trigger] row[k] matches CellValue::Float {
        bits,
        text,
    } ==> written_as_number(text)) by {
        assert(rows[i][k] == row[k]);
    }
    if i + 1 == j {
        lemma_read_row(row, after);
        assert(past(after, seq![',', '\n']) is None) by {
            if after.len() >= 2 {
                assert(after.take(2)[0] == ';');
            }
        }
        assert(table_of(rows).subrange(i, j) =~= seq![values_of(row)]);
    } else {
        let more = lists(rows, i + 1, j) + after;
        let tail = seq![',', '\n'] + more;
        assert(lists(rows, i, j) + after =~= row_list(row) + tail);
        lemma_read_row(row, tail);
        lemma_past(seq![',', '\n'], more);
        lemma_read_rows(rows, i + 1, j, after);
        assert(seq![values_of(row)] + table_of(rows).subrange(i + 1, j) =~= table_of(rows).subrange(
            i,
            j,
        ));
    }
}

proof fn lemma_read_name(name: Seq<char>, after: Seq<char>)
    requires
        after.len() > 0 ==> after[0] != '`',
    ensures
        read_name(quoted_ident(name) + after) == Some((name, after)),
{
    law_ident_round_trip(name, after);
    let t = quoted_ident(name) + after;
    assert(t.skip(quoted_ident(name).len() as int) =~= after);
}

proof fn lemma_read_names(names: Seq<Seq<char>>, after: Seq<char>)
    requires
        names.len() > 0,
    ensures
        read_names(ident_list(names) + (seq![')'] + after)) == Some((names, after)),
    decreases names.len(),
{
    reveal_strlit(", ");
    let parts = names.map_values(|n: Seq<char>| quoted_ident(n));
    let close = seq![')'] + after;
    let first = quoted_ident(names[0]);
    if names.len() == 1 {
        assert(ident_list(names) == first);
        lemma_read_name(names[0], close);
        lemma_past(seq![')'], after);
        assert(names =~= seq![names[0]]);
    } else {
        let rest = names.drop_first();
        assert(parts.drop_first() =~= rest.map_values(|n: Seq<char>| quoted_ident(n)));
        lemma_joined_front(parts, ", "@);
        assert(", "@ =~= seq![',', ' ']);
        lemma_read_names(rest, after);
        let more = ident_list(rest) + close;
        let tail = seq![',', ' '] + more;
        assert(ident_list(names) + close =~= first + tail);
        lemma_read_name(names[0], tail);
        lemma_past(seq![',', ' '], more);
        assert(past(tail, seq![')']) is None) by {
            assert(tail.take(1)[0] == ',');
        }
        assert(seq![names[0]] + rest =~= names);
    }
}

proof fn lemma_read_target(table: Seq<char>, columns: Seq<Seq<char>>, after: Seq<char>)
    requires
        columns.len() > 0,
    ensures
        read_target(insert_prefix(table, columns) + after) == Some((table, columns, after)),
{
    reveal_strlit(")");
    reveal_strlit(" (");
    assert(")"@ =~= seq![')']);
    let list = ident_list(columns) + (seq![')'] + after);
    let mid = " ("@ + list;
    let rest = quoted_ident(table) + mid;
    assert(insert_prefix(table, columns) + after =~= "INSERT INTO "@ + rest);
    lemma_past("INSERT INTO "@, rest);
    lemma_read_name(table, mid);
    lemma_past(" ("@, list);
    lemma_read_names(columns, after);
}

proof fn lemma_read_statement(
    table: Seq<char>,
    columns: Seq<Seq<char>>,
    rows: Seq<Seq<CellValue>>,
    i: int,
    j: int,
    gap: Seq<char>,
    after: Seq<char>,
)
    requires
        columns.len() > 0,
        0 <= i < j <= rows.len(),
        numbers_are_written(rows),
        gap == " VALUES\n"@ || gap == " VALUES "@,
    ensures
        read_insert(
            insert_prefix(table, columns) + gap + lists(rows, i, j) + ";\n"@ + after,
        ) == Some((Insert { table, columns, rows: table_of(rows).subrange(i, j) }, after)),
{
    reveal_strlit(";\n");
    reveal_strlit(" VALUES\n");
    reveal_strlit(" VALUES ");
    let end = ";\n"@ + after;
    let body = lists(rows, i, j) + end;
    let rest = gap + body;
    assert(insert_prefix(table, columns) + gap + lists(rows, i, j) + ";\n"@ + after
        =~= insert_prefix(table, columns) + rest);
    lemma_read_target(table, columns, rest);
    lemma_past(gap, body);
    if gap != " VALUES\n"@ {
        assert(past(rest, " VALUES\n"@) is None) by {
            if past(rest, " VALUES\n"@) is Some {
                assert(rest.take(8)[7] == " VALUES\n"@[7]);
                assert(rest[7] == gap[7]);
            }
        }
    }
    lemma_read_rows(rows, i, j, end);
    lemma_past(";\n"@, after);
}

/// A reader of the grouped statements from row `i` on gets the rows from `i` on.
proof fn lemma_read_grouped(
    table: Seq<char>,
    columns: Seq<Seq<char>>,
    rows: Seq<Seq<CellValue>>,
    i: int,
)
    requires
        columns.len() > 0,
        0 <= i <= rows.len(),
        numbers_are_written(rows),
    ensures
        read_inserts(grouped_inserts(insert_prefix(table, columns), rows, i)) matches Some(found)
            && all_rows(found) == table_of(rows).skip(i) && forall|k: int|
            0 <= k < found.len() ==> (#[trigger] found[k]).table == table && found[k].columns
                == columns && found[k].rows.len() > 0,
    decreases rows.len() - i,
{
    let prefix = insert_prefix(table, columns);
    let t = grouped_inserts(prefix, rows, i);
    if i == rows.len() {
        assert(table_of(rows).skip(i) =~= all_rows(seq![]));
    } else {
        lemma_group_end(prefix, rows, i, i + 1);
        let j = group_end(prefix, rows, i, i + 1);
        let rest = grouped_inserts(prefix, rows, j);
        lemma_open_insert(prefix, rows, i, j);
        lemma_read_statement(table, columns, rows, i, j, " VALUES\n"@, rest);
        assert(t == prefix + " VALUES\n"@ + lists(rows, i, j) + ";\n"@ + rest);
        reveal_strlit(";\n");
        assert(rest.len() < t.len());
        lemma_read_grouped(table, columns, rows, j);
        let more = read_inserts(rest)->0;
        let insert = Insert { table, columns, rows: table_of(rows).subrange(i, j) };
        let found = seq![insert] + more;
        assert(read_inserts(t) == Some(found));
        assert(found.drop_first() =~= more);
        assert(all_rows(found) =~= table_of(rows).skip(i));
        assert forall|k: int| 0 <= k < found.len() implies (#[trigger] found[k]).table == table
            && found[k].columns == columns && found[k].rows.len() > 0 by {
            if k > 0 {
                assert(found[k] == more[k - 1]);
            }
        }
    }
}

/// One statement for each row from `i` on.
spec fn singles_from(prefix: Seq<char>, rows: Seq<Seq<CellValue>>, i: int) -> Seq<char>
    decreases rows.len() - i,
{
    if i < 0 || i >= rows.len() {
        seq![]
    } else {
        prefix + " VALUES "@ + lists(rows, i, i + 1) + ";\n"@ + singles_from(prefix, rows, i + 1)
    }
}

proof fn lemma_singles(prefix: Seq<char>, rows: Seq<Seq<CellValue>>, n: int)
    requires
        0 <= n <= rows.len(),
    ensures
        single_inserts(prefix, rows, n) + singles_from(prefix, rows, n) == singles_from(
            prefix,
            rows,
            0,
        ),
    decreases n,
{
    if n == 0 {
        assert(single_inserts(prefix, rows, 0) + singles_from(prefix, rows, 0) =~= singles_from(
            prefix,
            rows,
            0,
        ));
    } else {
        reveal_strlit(" VALUES (");
        reveal_strlit(" VALUES ");
        reveal_strlit(");\n");
        reveal_strlit(";\n");
        lemma_singles(prefix, rows, n - 1);
        let row = rows[n - 1];
        assert(lists(rows, n - 1, n) == row_list(row));
        let stmt = prefix + " VALUES ("@ + row_text(row) + ");\n"@;
        assert(stmt =~= prefix + " VALUES "@ + row_list(row) + ";\n"@);
        let before = single_inserts(prefix, rows, n - 1);
        let later = singles_from(prefix, rows, n);
        assert(before + stmt + later =~= before + (stmt + later));
        assert(singles_from(prefix, rows, n - 1) =~= stmt + later);
    }
}

proof fn lemma_read_singles(
    table: Seq<char>,
    columns: Seq<Seq<char>>,
    rows: Seq<Seq<CellValue>>,
    i: int,
)
    requires
        columns.len() > 0,
        0 <= i <= rows.len(),
        numbers_are_written(rows),
    ensures
        read_inserts(singles_from(insert_prefix(table, columns), rows, i)) matches Some(found)
            && all_rows(found) == table_of(rows).skip(i) && forall|k: int|
            0 <= k < found.len() ==> (#[trigger] found[k]).table == table && found[k].columns
                == columns && found[k].rows.len() == 1,
    decreases rows.len() - i,
{
    let prefix = insert_prefix(table, columns);
    let t = singles_from(prefix, rows, i);
    if i == rows.len() {
        assert(table_of(rows).skip(i) =~= all_rows(seq![]));
    } else {
        let rest = singles_from(prefix, rows, i + 1);
        lemma_read_statement(table, columns, rows, i, i + 1, " VALUES "@, rest);
        reveal_strlit(";\n");
        assert(rest.len() < t.len());
        lemma_read_singles(table, columns, rows, i + 1);
        let more = read_inserts(rest)->0;
        let insert = Insert { table, columns, rows: table_of(rows).subrange(i, i + 1) };
        let found = seq![insert] + more;
        assert(read_inserts(t) == Some(found));
        assert(found.drop_first() =~= more);
        assert(all_rows(found) =~= table_of(rows).skip(i));
        assert forall|k: int| 0 <= k < found.len() implies (#[trigger] found[k]).table == table
            && found[k].columns == columns && found[k].rows.len() == 1 by {
            if k > 0 {
                assert(found[k] == more[k - 1]);
            }
        }
    }
}

/// A server that reads the `INSERT` statements of a table gets every row back,
/// each once and in order, with the value of every cell. Each statement names
/// the table and its columns and holds at least one row; without extended
/// inserts, exactly one.
pub proof fn law_inserts_read_back(
    table: Seq<char>,
    columns: Seq<Seq<char>>,
    rows: Seq<Seq<CellValue>>,
    extended: bool,
)
    requires
        columns.len() > 0,
        numbers_are_written(rows),
    ensures
        read_inserts(inserts_text(table, columns, rows, extended)) matches Some(found) && {
            &&& all_rows(found) == table_of(rows)
            &&& forall|k: int|
                0 <= k < found.len() ==> (#[trigger] found[k]).table == table && found[k].columns
                    == columns && found[k].rows.len() > 0 && (extended || found[k].rows.len() == 1)
        },
{
    let prefix = insert_prefix(table, columns);
    assert(table_of(rows).skip(0) =~= table_of(rows));
    if extended {
        lemma_read_grouped(table, columns, rows, 0);
    } else {
        lemma_read_singles(table, columns, rows, 0);
        let n = rows.len() as int;
        lemma_singles(prefix, rows, n);
        assert(single_inserts(prefix, rows, n) + singles_from(prefix, rows, n)
            =~= single_inserts(prefix, rows, n));
    }
}

} // verus!
