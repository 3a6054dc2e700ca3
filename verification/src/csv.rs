//! CSV records: writing them, and what a reader makes of them.

use vstd::prelude::*;

use crate::query::{cell_text, cell_values, Cell, CellValue};
use crate::quote::{append_hex, hex_digits};
use crate::text::{
    flat_map, join, joined, lemma_flat_map_front, lemma_joined_front, replace_char, replaced,
    swap_char, texts, to_chars,
};

verus! {

/// The text of a cell value in a CSV file: empty for `NULL`, hexadecimal for
/// binary data.
pub open spec fn field_text(v: CellValue) -> Seq<char> {
    match v {
        CellValue::Null => seq![],
        CellValue::Blob(b) => hex_digits(b),
        _ => cell_text(v),
    }
}

/// The text of a cell in a CSV file.
pub fn csv_field(c: &Cell) -> (res: String)
    ensures
        res@ == field_text(c@),
{
    match c {
        Cell::Null => String::new(),
        Cell::Blob(b) => {
            let mut out = String::new();
            append_hex(&mut out, b);
            assert(out@ =~= hex_digits(b@));
            out
        },
        _ => c.display(),
    }
}

/// A field that must stand in quotes.
pub open spec fn needs_quotes(s: Seq<char>) -> bool {
    s.contains(',') || s.contains('"') || s.contains('\n') || s.contains('\r')
}

/// A field as it stands in a record.
pub open spec fn escaped_field(s: Seq<char>) -> Seq<char> {
    if needs_quotes(s) {
        seq!['"'] + replaced(s, '"', seq!['"', '"']) + seq!['"']
    } else {
        s
    }
}

/// Write a field, in quotes where it holds a comma, a quote or a line break.
pub fn csv_escape(s: &str) -> (res: String)
    ensures
        res@ == escaped_field(s@),
{
    let chars = to_chars(s);
    let mut quotes = false;
    let mut i: usize = 0;
    while i < chars.len()
        invariant
            i <= chars@.len(),
            quotes == needs_quotes(chars@.take(i as int)),
        decreases chars@.len() - i,
    {
        let c = chars[i];
        proof {
            let now = chars@.take(i as int);
            let next = chars@.take(i + 1);
            assert(next == now.push(c));
            assert forall|x: char| next.contains(x) == (now.contains(x) || x == c) by {
                if now.contains(x) {
                    let k = choose|k: int| 0 <= k < now.len() && now[k] == x;
                    assert(next[k] == x);
                }
                assert(next[i as int] == c);
            }
        }
        if c == ',' || c == '"' || c == '\n' || c == '\r' {
            quotes = true;
        }
        i = i + 1;
    }
    assert(chars@.take(i as int) == s@);
    if quotes {
        proof {
            reveal_strlit("\"\"");
            assert("\"\""@ =~= seq!['"', '"']);
            reveal_strlit("\"");
            assert("\""@ =~= seq!['"']);
        }
        let mut out = "\"".to_string();
        out.append(replace_char(s, '"', "\"\"").as_str());
        out.append("\"");
        out
    } else {
        s.to_string()
    }
}

/// A record: the fields separated by commas, and a line feed.
pub open spec fn record_text(fields: Seq<Seq<char>>) -> Seq<char> {
    joined(fields.map_values(|f: Seq<char>| escaped_field(f)), seq![',']) + seq!['\n']
}

/// Write a record, with its line feed.
pub fn csv_record(fields: &Vec<String>) -> (res: String)
    ensures
        res@ == record_text(texts(fields@)),
{
    let mut parts: Vec<String> = Vec::new();
    let mut i: usize = 0;
    while i < fields.len()
        invariant
            i <= fields@.len(),
            parts@.len() == i,
            forall|k: int| 0 <= k < i ==> (#[trigger] parts@[k])@ == escaped_field(fields@[k]@),
        decreases fields@.len() - i,
    {
        parts.push(csv_escape(fields[i].as_str()));
        i = i + 1;
    }
    proof {
        reveal_strlit(",");
        assert(","@ =~= seq![',']);
        reveal_strlit("\n");
        assert("\n"@ =~= seq!['\n']);
        assert(texts(parts@) =~= texts(fields@).map_values(|f: Seq<char>| escaped_field(f)));
    }
    let mut out = join(&parts, ",");
    out.append("\n");
    out
}

/// The record of a row of cells.
pub open spec fn row_record(row: Seq<CellValue>) -> Seq<char> {
    record_text(row.map_values(|v: CellValue| field_text(v)))
}

/// Write the record of a row of cells.
pub fn csv_row(row: &Vec<Cell>) -> (res: String)
    ensures
        res@ == row_record(cell_values(row@)),
{
    let mut fields: Vec<String> = Vec::new();
    let mut i: usize = 0;
    while i < row.len()
        invariant
            i <= row@.len(),
            fields@.len() == i,
            forall|k: int| 0 <= k < i ==> (#[trigger] fields@[k])@ == field_text(row@[k]@),
        decreases row@.len() - i,
    {
        fields.push(csv_field(&row[i]));
        i = i + 1;
    }
    assert(texts(fields@) =~= cell_values(row@).map_values(|v: CellValue| field_text(v)));
    csv_record(&fields)
}

/// What a reader takes from the inside of a quoted field that goes on at `i`:
/// its text, and the position after its closing quote.
pub open spec fn read_quoted(t: Seq<char>, i: int) -> Option<(Seq<char>, int)>
    decreases t.len() - i,
{
    if i < 0 || i >= t.len() {
        None
    } else if t[i] == '"' {
        if i + 1 < t.len() && t[i + 1] == '"' {
            match read_quoted(t, i + 2) {
                Some((rest, end)) => Some((seq!['"'] + rest, end)),
                None => None,
            }
        } else {
            Some((seq![], i + 1))
        }
    } else {
        match read_quoted(t, i + 1) {
            Some((rest, end)) => Some((seq![t[i]] + rest, end)),
            None => None,
        }
    }
}

/// What a reader takes from a bare field that goes on at `i`: its text, and the
/// position of the comma or line feed that ends it.
pub open spec fn read_bare(t: Seq<char>, i: int) -> Option<(Seq<char>, int)>
    decreases t.len() - i,
{
    if i < 0 || i >= t.len() {
        None
    } else if t[i] == ',' || t[i] == '\n' {
        Some((seq![], i))
    } else {
        match read_bare(t, i + 1) {
            Some((rest, end)) => Some((seq![t[i]] + rest, end)),
            None => None,
        }
    }
}

/// The field at `i` and the position after it.
pub open spec fn read_field(t: Seq<char>, i: int) -> Option<(Seq<char>, int)> {
    if 0 <= i < t.len() && t[i] == '"' {
        read_quoted(t, i + 1)
    } else {
        read_bare(t, i)
    }
}

/// The fields of the record at `i`, and the position after its line feed.
pub open spec fn read_record(t: Seq<char>, i: int) -> Option<(Seq<Seq<char>>, int)>
    decreases t.len() - i,
{
    match read_field(t, i) {
        Some((field, end)) => {
            if i <= end < t.len() && t[end] == ',' {
                match read_record(t, end + 1) {
                    Some((rest, after)) => Some((seq![field] + rest, after)),
                    None => None,
                }
            } else if i <= end < t.len() && t[end] == '\n' {
                Some((seq![field], end + 1))
            } else {
                None
            }
        },
        None => None,
    }
}

/// `part` stands in `t` at `i`.
spec fn stands_at(t: Seq<char>, i: int, part: Seq<char>) -> bool {
    &&& 0 <= i
    &&& i + part.len() <= t.len()
    &&& forall|k: int| 0 <= k < part.len() ==> t[i + k] == #[trigger] part[k]
}

proof fn lemma_read_quoted(t: Seq<char>, i: int, s: Seq<char>)
    requires
        stands_at(t, i, replaced(s, '"', seq!['"', '"'])),
        ({
            let end = i + replaced(s, '"', seq!['"', '"']).len();
            end < t.len() && t[end] == '"' && (end + 1 < t.len() ==> t[end + 1] != '"')
        }),
    ensures
        read_quoted(t, i) == Some((s, i + replaced(s, '"', seq!['"', '"']).len() + 1)),
    decreases s.len(),
{
    let f = swap_char('"', seq!['"', '"']);
    let body = flat_map(s, f);
    if s.len() == 0 {
        assert(s =~= seq![]);
    } else {
        lemma_flat_map_front(s, f);
        let rest = flat_map(s.drop_first(), f);
        let head = f(s[0]);
        assert(body == head + rest);
        assert forall|k: int| 0 <= k < rest.len() implies t[i + head.len() + k]
            == #[trigger] rest[k] by {
            assert(body[head.len() + k] == rest[k]);
        }
        lemma_read_quoted(t, i + head.len(), s.drop_first());
        assert(body[0] == head[0]);
        if head.len() == 2 {
            assert(body[1] == head[1]);
        }
        assert(seq![s[0]] + s.drop_first() =~= s);
    }
}

proof fn lemma_read_bare(t: Seq<char>, i: int, s: Seq<char>)
    requires
        stands_at(t, i, s),
        !s.contains(','),
        !s.contains('\n'),
        i + s.len() < t.len(),
        t[i + s.len()] == ',' || t[i + s.len()] == '\n',
    ensures
        read_bare(t, i) == Some((s, i + s.len())),
    decreases s.len(),
{
    if s.len() == 0 {
        assert(s =~= seq![]);
    } else {
        let rest = s.drop_first();
        assert(s.contains(s[0]));
        assert(t[i] == s[0]);
        assert forall|c: char| rest.contains(c) implies s.contains(c) by {
            let k = choose|k: int| 0 <= k < rest.len() && rest[k] == c;
            assert(s[k + 1] == c);
        }
        assert forall|k: int| 0 <= k < rest.len() implies t[i + 1 + k] == #[trigger] rest[k] by {
            assert(rest[k] == s[k + 1]);
        }
        lemma_read_bare(t, i + 1, rest);
        assert(seq![s[0]] + rest =~= s);
    }
}

proof fn lemma_read_field(t: Seq<char>, i: int, s: Seq<char>)
    requires
        stands_at(t, i, escaped_field(s)),
        i + escaped_field(s).len() < t.len(),
        ({
            let c = t[i + escaped_field(s).len()];
            c == ',' || c == '\n'
        }),
    ensures
        read_field(t, i) == Some((s, i + escaped_field(s).len())),
{
    let text = escaped_field(s);
    if needs_quotes(s) {
        let body = replaced(s, '"', seq!['"', '"']);
        assert(text[0] == '"');
        assert forall|k: int| 0 <= k < body.len() implies t[i + 1 + k] == #[trigger] body[k] by {
            assert(text[k + 1] == body[k]);
        }
        assert(text[text.len() - 1] == '"');
        lemma_read_quoted(t, i + 1, s);
    } else {
        if s.len() > 0 {
            assert(s.contains(s[0]));
            assert(t[i] == s[0]);
        }
        lemma_read_bare(t, i, s);
    }
}

proof fn lemma_read_record(t: Seq<char>, i: int, fields: Seq<Seq<char>>)
    requires
        fields.len() > 0,
        stands_at(t, i, record_text(fields)),
    ensures
        read_record(t, i) == Some((fields, i + record_text(fields).len())),
    decreases fields.len(),
{
    let parts = fields.map_values(|f: Seq<char>| escaped_field(f));
    let text = record_text(fields);
    let head = parts[0];
    if fields.len() == 1 {
        assert(text == head + seq!['\n']);
        assert forall|k: int| 0 <= k < head.len() implies t[i + k] == #[trigger] head[k] by {
            assert(text[k] == head[k]);
        }
        assert(text[head.len() as int] == '\n');
        lemma_read_field(t, i, fields[0]);
        assert(seq![fields[0]] =~= fields);
    } else {
        let rest = fields.drop_first();
        lemma_joined_front(parts, seq![',']);
        assert(parts.drop_first() =~= rest.map_values(|f: Seq<char>| escaped_field(f)));
        let tail = record_text(rest);
        assert(text =~= head + seq![','] + tail);
        assert forall|k: int| 0 <= k < head.len() implies t[i + k] == #[trigger] head[k] by {
            assert(text[k] == head[k]);
        }
        assert(text[head.len() as int] == ',');
        assert forall|k: int| 0 <= k < tail.len() implies t[i + head.len() + 1 + k]
            == #[trigger] tail[k] by {
            assert(text[head.len() + 1 + k] == tail[k]);
        }
        lemma_read_field(t, i, fields[0]);
        lemma_read_record(t, i + head.len() + 1, rest);
        assert(seq![fields[0]] + rest =~= fields);
    }
}

/// A record is read back as the fields it was written from, whatever follows
/// it, as long as there is at least one field.
pub proof fn law_record_round_trip(fields: Seq<Seq<char>>, after: Seq<char>)
    requires
        fields.len() > 0,
    ensures
        read_record(record_text(fields) + after, 0) == Some(
            (fields, record_text(fields).len() as int),
        ),
{
    lemma_read_record(record_text(fields) + after, 0, fields);
}

/// A field without commas, quotes and line breaks is written as it is, and every
/// other one between quotes.
pub proof fn law_plain_fields_are_kept(s: Seq<char>)
    ensures
        (forall|i: int|
            0 <= i < s.len() ==> (#[trigger] s[i]) != ',' && s[i] != '"' && s[i] != '\n' && s[i]
                != '\r') ==> escaped_field(s) == s,
        escaped_field(s) == s || (escaped_field(s).len() >= 2 && escaped_field(s)[0] == '"'
            && escaped_field(s).last() == '"'),
{
}

} // verus!
