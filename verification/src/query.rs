//! Query results: cell values decoded from the wire, and the columns they
//! belong to.

use std::time::Duration;

use vstd::prelude::*;

use crate::text::{
    before_char, contains, decimal, first_word, first_word_of, has_text, i64_text, index_of_char,
    integer_read, is_white_space, law_ascii_case, law_before_char, law_first_word,
    law_signed_decimal_reads_back, occurs_at, opt_text, signed_decimal, sub_text, text_eq, to_chars,
    trim, trimmed, u64_text, uppercase, uppered, usize_text,
};

verus! {

/// A binary64 number: its bit pattern and its decimal text.
#[derive(Debug, Clone)]
pub struct Real {
    pub bits: u64,
    pub text: String,
}

/// Biased exponent of the number with bit pattern `bits`.
pub open spec fn exponent_of(bits: u64) -> int {
    ((bits / 0x10_0000_0000_0000) % 0x800) as int
}

/// Fraction bits of the number with bit pattern `bits`.
pub open spec fn fraction_of(bits: u64) -> int {
    (bits % 0x10_0000_0000_0000) as int
}

/// The number is neither infinite nor a NaN.
pub open spec fn finite_bits(bits: u64) -> bool {
    exponent_of(bits) != 0x7ff
}

/// The number is a NaN.
pub open spec fn nan_bits(bits: u64) -> bool {
    exponent_of(bits) == 0x7ff && fraction_of(bits) != 0
}

/// Position of a number on the number line: bit patterns of numbers that are
/// not NaN compare as these integers do, and both zeros are at 0.
pub open spec fn line_position(bits: u64) -> int {
    if bits < 0x8000_0000_0000_0000 {
        bits as int
    } else {
        0x8000_0000_0000_0000 - bits
    }
}

/// `m` doubled `n` times.
pub open spec fn doubled(m: int, n: nat) -> int
    decreases n,
{
    if n == 0 {
        m
    } else {
        doubled(2 * m, (n - 1) as nat)
    }
}

/// The number with bit pattern `bits`, in units of the smallest positive number:
/// a sign bit, eleven exponent bits and 52 fraction bits. Where the exponent
/// bits are not all 0 the fraction has a leading 1 and is doubled once for each
/// exponent above 1. An infinity comes out larger than every finite number.
pub open spec fn number_of(bits: u64) -> int {
    let magnitude = bits as int % 0x8000_0000_0000_0000;
    let exponent = magnitude / 0x10_0000_0000_0000;
    let fraction = magnitude % 0x10_0000_0000_0000;
    let size = if exponent == 0 {
        fraction
    } else {
        doubled(0x10_0000_0000_0000 + fraction, (exponent - 1) as nat)
    };
    if bits >= 0x8000_0000_0000_0000 {
        -size
    } else {
        size
    }
}

/// The bits stand for a number or an infinity: what is left without the sign bit
/// is no larger than the pattern of infinity.
pub open spec fn is_number(bits: u64) -> bool {
    bits as int % 0x8000_0000_0000_0000 <= 0x7ff0_0000_0000_0000
}

proof fn lemma_doubled(a: int, b: int, n: nat)
    requires
        a < b,
    ensures
        doubled(a, n) < doubled(b, n),
        doubled(2 * a, n) == doubled(a, n + 1),
    decreases n,
{
    if n > 0 {
        lemma_doubled(2 * a, 2 * b, (n - 1) as nat);
    }
}

/// Doubling more often makes a positive number no smaller.
proof fn lemma_doubled_more(a: int, m: nat, n: nat)
    requires
        0 < a,
        m <= n,
    ensures
        0 < doubled(a, m) <= doubled(a, n),
    decreases m, n,
{
    if m > 0 {
        lemma_doubled_more(2 * a, (m - 1) as nat, (n - 1) as nat);
    } else if n > 0 {
        lemma_doubled_more(2 * a, 0, (n - 1) as nat);
    }
}

/// What the magnitude `m` stands for, as in `number_of`.
spec fn size_of_magnitude(m: int) -> int {
    let exponent = m / 0x10_0000_0000_0000;
    let fraction = m % 0x10_0000_0000_0000;
    if exponent == 0 {
        fraction
    } else {
        doubled(0x10_0000_0000_0000 + fraction, (exponent - 1) as nat)
    }
}

proof fn lemma_size_grows(a: int, b: int)
    requires
        0 <= a < b,
    ensures
        0 <= size_of_magnitude(a) < size_of_magnitude(b),
{
    let unit = 0x10_0000_0000_0000int;
    let (ea, fa) = (a / unit, a % unit);
    let (eb, fb) = (b / unit, b % unit);
    assert(a == ea * unit + fa && b == eb * unit + fb);
    if ea == eb {
        assert(fa < fb);
        if ea > 0 {
            lemma_doubled(unit + fa, unit + fb, (ea - 1) as nat);
            lemma_doubled_more(unit + fa, 0, (ea - 1) as nat);
        }
    } else {
        assert(ea < eb);
        lemma_doubled_more(unit, 0, (eb - 1) as nat);
        if fb > 0 {
            lemma_doubled(unit, unit + fb, (eb - 1) as nat);
        }
        if ea > 0 {
            lemma_doubled_more(unit + fa, 0, (ea - 1) as nat);
            lemma_doubled(unit + fa, 2 * unit, (ea - 1) as nat);
            lemma_doubled(unit, 2 * unit, (ea - 1) as nat);
            assert(doubled(2 * unit, (ea - 1) as nat) == doubled(unit, ea as nat));
            lemma_doubled_more(unit, ea as nat, (eb - 1) as nat);
        }
    }
}

/// Numbers stand on the number line in the order of what their sign, exponent
/// and fraction stand for; equal numbers, the two zeros among them, stand at the
/// same place.
pub proof fn law_number_line(a: u64, b: u64)
    ensures
        line_position(a) < line_position(b) <==> number_of(a) < number_of(b),
        line_position(a) == line_position(b) <==> number_of(a) == number_of(b),
{
    let ma = a as int % 0x8000_0000_0000_0000;
    let mb = b as int % 0x8000_0000_0000_0000;
    assert(size_of_magnitude(0) == 0);
    if ma > 0 {
        lemma_size_grows(0, ma);
    }
    if mb > 0 {
        lemma_size_grows(0, mb);
    }
    if ma < mb {
        lemma_size_grows(ma, mb);
    } else if mb < ma {
        lemma_size_grows(mb, ma);
    }
}

/// The finite numbers are those below infinity, the NaNs those above it; a
/// pattern is the one, the other, or infinity itself.
pub proof fn law_finite_and_nan(bits: u64)
    ensures
        finite_bits(bits) <==> bits as int % 0x8000_0000_0000_0000 < 0x7ff0_0000_0000_0000,
        nan_bits(bits) <==> !is_number(bits),
{
    let m = bits % 0x8000_0000_0000_0000;
    assert((bits / 0x10_0000_0000_0000) % 0x800 == m / 0x10_0000_0000_0000) by (bit_vector)
        requires
            m == bits % 0x8000_0000_0000_0000,
    ;
    assert(bits % 0x10_0000_0000_0000 == m % 0x10_0000_0000_0000) by (bit_vector)
        requires
            m == bits % 0x8000_0000_0000_0000,
    ;
}

impl Real {
    /// Whether the number is neither infinite nor a NaN.
    pub fn is_finite(&self) -> (res: bool)
        ensures
            res == finite_bits(self.bits),
    {
        (self.bits / 0x10_0000_0000_0000) % 0x800 != 0x7ff
    }

    /// Whether the number is a NaN.
    pub fn is_nan(&self) -> (res: bool)
        ensures
            res == nan_bits(self.bits),
    {
        !self.is_finite() && self.bits % 0x10_0000_0000_0000 != 0
    }
}

/// A scalar cell value, decoded from the wire.
#[derive(Debug, Clone)]
pub enum Cell {
    Null,
    Int(i64),
    UInt(u64),
    Float(Real),
    Bool(bool),
    Text(String),
    /// Binary blob with all its bytes.
    Blob(Vec<u8>),
    /// JSON document as text, indented where it could be parsed.
    Json(String),
}

/// What a [`Cell`] holds.
#[verifier::ext_equal]
pub enum CellValue {
    Null,
    Int(i64),
    UInt(u64),
    Float { bits: u64, text: Seq<char> },
    Bool(bool),
    Text(Seq<char>),
    Blob(Seq<u8>),
    Json(Seq<char>),
}

impl View for Cell {
    type V = CellValue;

    open spec fn view(&self) -> CellValue {
        match self {
            Cell::Null => CellValue::Null,
            Cell::Int(v) => CellValue::Int(*v),
            Cell::UInt(v) => CellValue::UInt(*v),
            Cell::Float(r) => CellValue::Float { bits: r.bits, text: r.text@ },
            Cell::Bool(v) => CellValue::Bool(*v),
            Cell::Text(s) => CellValue::Text(s@),
            Cell::Blob(b) => CellValue::Blob(b@),
            Cell::Json(s) => CellValue::Json(s@),
        }
    }
}

/// The values of a row.
pub open spec fn cell_values(row: Seq<Cell>) -> Seq<CellValue> {
    row.map_values(|c: Cell| c@)
}

/// The values of several rows.
pub open spec fn row_values_of(rows: Seq<Vec<Cell>>) -> Seq<Seq<CellValue>> {
    rows.map_values(|row: Vec<Cell>| cell_values(row@))
}

/// User-visible text of a cell value.
pub open spec fn cell_text(v: CellValue) -> Seq<char> {
    match v {
        CellValue::Null => seq![],
        CellValue::Int(n) => signed_decimal(n as int),
        CellValue::UInt(n) => decimal(n as nat),
        CellValue::Float { bits, text } => text,
        CellValue::Bool(b) => if b {
            "1"@
        } else {
            "0"@
        },
        CellValue::Text(s) => s,
        CellValue::Blob(b) => "<BLOB "@ + decimal(b.len()) + " bytes>"@,
        CellValue::Json(s) => s,
    }
}

impl Cell {
    /// User-visible text for the grid; used by display, copy and sort.
    pub fn display(&self) -> (res: String)
        ensures
            res@ == cell_text(self@),
    {
        match self {
            Cell::Null => String::new(),
            Cell::Int(v) => i64_text(*v),
            Cell::UInt(v) => u64_text(*v),
            Cell::Float(r) => r.text.clone(),
            Cell::Bool(v) => if *v {
                "1".to_string()
            } else {
                "0".to_string()
            },
            Cell::Text(s) => s.clone(),
            Cell::Blob(b) => {
                let mut out = "<BLOB ".to_string();
                out.append(usize_text(b.len()).as_str());
                out.append(" bytes>");
                out
            },
            Cell::Json(s) => s.clone(),
        }
    }

    /// Whether the cell is `NULL`.
    pub fn is_null(&self) -> (res: bool)
        ensures
            res == (self@ is Null),
    {
        match self {
            Cell::Null => true,
            _ => false,
        }
    }
}

/// A column of a result set.
#[derive(Debug, Clone)]
pub struct ColumnMeta {
    /// Name as it appears in the result set (the alias of `SELECT a AS b`).
    pub name: String,
    pub sql_type: String,
    /// `(database, table)` where the column comes from a source table.
    pub origin: Option<(String, String)>,
    /// Column name in the source table, where [`Self::origin`] is set.
    pub original_name: Option<String>,
}

/// The columns and rows that a query returned, and how long it took.
#[derive(Debug)]
pub struct QueryResult {
    pub columns: Vec<ColumnMeta>,
    pub rows: Vec<Vec<Cell>>,
    pub elapsed: Duration,
}

/// A column as the driver describes it. `source` is the table, as
/// `db.table` or `table`, and the column's name there.
#[derive(Debug, Clone)]
pub struct ColumnSource {
    pub name: String,
    pub sql_type: String,
    pub source: Option<(String, String)>,
}

/// `table` split at its first dot into database and table; the database is
/// empty where there is no dot.
pub open spec fn origin_of(table: Seq<char>) -> (Seq<char>, Seq<char>) {
    let db = before_char(table, '.');
    if db.len() < table.len() {
        (db, table.skip(db.len() + 1int))
    } else {
        (seq![], table)
    }
}

/// What the driver says of a column, in the terms of a [`ColumnMeta`].
pub open spec fn is_meta_of(meta: ColumnMeta, src: ColumnSource) -> bool {
    &&& meta.name@ == src.name@
    &&& meta.sql_type@ == src.sql_type@
    &&& match src.source {
        Some((table, column)) => {
            &&& meta.origin matches Some((db, tbl)) && (db@, tbl@) == origin_of(table@)
            &&& meta.original_name matches Some(name) && name@ == column@
        },
        None => meta.origin is None && meta.original_name is None,
    }
}

/// Describe a column of a result set.
pub fn column_meta(src: &ColumnSource) -> (res: ColumnMeta)
    ensures
        is_meta_of(res, *src),
{
    let (origin, original_name) = match &src.source {
        Some((table, column)) => {
            let chars = to_chars(table.as_str());
            let dot: usize = index_of_char(&chars, '.');
            let pair = if dot < chars.len() {
                let db = sub_text(&chars, 0, dot);
                let tbl = sub_text(&chars, dot + 1, chars.len());
                assert(db@ == chars@.take(dot as int));
                assert(tbl@ == chars@.skip(dot + 1));
                (db, tbl)
            } else {
                assert(chars@.take(dot as int) == chars@);
                (String::new(), table.clone())
            };
            (Some(pair), Some(column.clone()))
        },
        None => (None, None),
    };
    ColumnMeta { name: src.name.clone(), sql_type: src.sql_type.clone(), origin, original_name }
}

/// What the driver can decode a field as; each is `None` where the field is
/// `NULL` or cannot be decoded so.
#[derive(Debug, Clone)]
pub struct RawCell {
    pub signed: Option<i64>,
    pub unsigned: Option<u64>,
    pub boolean: Option<bool>,
    pub number: Option<Real>,
    pub text: Option<String>,
    pub bytes: Option<Vec<u8>>,
}

/// How the fields of a column are decoded.
#[derive(Debug, Clone, Copy, PartialEq, Eq, Structural)]
pub enum ColumnShape {
    Signed,
    Unsigned,
    Boolean,
    Real,
    Bytes,
    Json,
    Bits,
    Text,
}

/// A type name without its parenthesised part, trimmed, in upper case.
pub open spec fn bare_type(sql_type: Seq<char>) -> Seq<char> {
    uppered(trimmed(before_char(sql_type, '(')))
}

/// How the fields of a column of the given type are decoded.
pub open spec fn shape_of(sql_type: Seq<char>) -> ColumnShape {
    let bare = bare_type(sql_type);
    let word = first_word_of(bare);
    if word == "TINYINT"@ || word == "SMALLINT"@ || word == "MEDIUMINT"@ || word == "INT"@ || word
        == "INTEGER"@ || word == "BIGINT"@ || word == "YEAR"@ {
        if has_text(bare, "UNSIGNED"@) {
            ColumnShape::Unsigned
        } else {
            ColumnShape::Signed
        }
    } else if word == "BOOLEAN"@ || word == "BOOL"@ {
        ColumnShape::Boolean
    } else if word == "FLOAT"@ || word == "DOUBLE"@ || word == "REAL"@ || word == "DECIMAL"@ || word
        == "NUMERIC"@ {
        ColumnShape::Real
    } else if word == "BLOB"@ || word == "TINYBLOB"@ || word == "MEDIUMBLOB"@ || word == "LONGBLOB"@
        || word == "BINARY"@ || word == "VARBINARY"@ {
        ColumnShape::Bytes
    } else if word == "JSON"@ {
        ColumnShape::Json
    } else if word == "BIT"@ {
        ColumnShape::Bits
    } else {
        ColumnShape::Text
    }
}

/// How the fields of a column of the given type are decoded.
pub fn column_shape(sql_type: &str) -> (res: ColumnShape)
    ensures
        res == shape_of(sql_type@),
{
    let chars = to_chars(sql_type);
    let paren: usize = index_of_char(&chars, '(');
    let before = sub_text(&chars, 0, paren);
    assert(before@ == chars@.take(paren as int));
    let bare = uppercase(trim(before.as_str()).as_str());
    let is_unsigned = contains(bare.as_str(), "UNSIGNED");
    let head = first_word(bare.as_str());
    let word = head.as_str();
    if text_eq(word, "TINYINT") || text_eq(word, "SMALLINT") || text_eq(word, "MEDIUMINT")
        || text_eq(word, "INT") || text_eq(word, "INTEGER") || text_eq(word, "BIGINT") || text_eq(
        word,
        "YEAR",
    ) {
        if is_unsigned {
            ColumnShape::Unsigned
        } else {
            ColumnShape::Signed
        }
    } else if text_eq(word, "BOOLEAN") || text_eq(word, "BOOL") {
        ColumnShape::Boolean
    } else if text_eq(word, "FLOAT") || text_eq(word, "DOUBLE") || text_eq(word, "REAL") || text_eq(
        word,
        "DECIMAL",
    ) || text_eq(word, "NUMERIC") {
        ColumnShape::Real
    } else if text_eq(word, "BLOB") || text_eq(word, "TINYBLOB") || text_eq(word, "MEDIUMBLOB")
        || text_eq(word, "LONGBLOB") || text_eq(word, "BINARY") || text_eq(word, "VARBINARY") {
        ColumnShape::Bytes
    } else if text_eq(word, "JSON") {
        ColumnShape::Json
    } else if text_eq(word, "BIT") {
        ColumnShape::Bits
    } else {
        ColumnShape::Text
    }
}

/// A JSON document that was read.
#[verifier::external_type_specification]
#[verifier::external_body]
pub struct ExJsonValue(serde_json::Value);

/// The document that `serde_json::from_str` reads from a text; `None` where the
/// text is no JSON document.
pub uninterp spec fn read_json(raw: Seq<char>) -> Option<serde_json::Value>;

/// What `serde_json::to_string_pretty` prints of a document.
pub uninterp spec fn printed_json(value: serde_json::Value) -> Option<Seq<char>>;

/// Calls `serde_json::from_str` for a `serde_json::Value`. Claimed: the outcome
/// depends on `raw` alone. Which texts are documents is not stated.
#[verifier::external_body]
fn parse_json(raw: &str) -> (res: Option<serde_json::Value>)
    ensures
        res == read_json(raw@),
{
    serde_json::from_str::<serde_json::Value>(raw).ok()
}

/// Calls `serde_json::to_string_pretty`. Claimed: the outcome depends on the
/// document alone. How it is indented is not stated.
#[verifier::external_body]
fn print_json(value: &serde_json::Value) -> (res: Option<String>)
    ensures
        opt_text(res) == printed_json(*value),
{
    serde_json::to_string_pretty(value).ok()
}

/// The indented form of a text, where it is a JSON document that can be printed.
pub open spec fn indented_json(raw: Seq<char>) -> Option<Seq<char>> {
    match read_json(raw) {
        Some(value) => printed_json(value),
        None => None,
    }
}

/// `indented` where there is one, else `raw`.
pub open spec fn indented_or_raw(raw: Seq<char>, indented: Option<Seq<char>>) -> Seq<char> {
    match indented {
        Some(text) => text,
        None => raw,
    }
}

/// The indented document, or `raw` as it is where there is none.
pub fn json_or_raw(raw: &str, indented: Option<String>) -> (res: String)
    ensures
        res@ == indented_or_raw(raw@, opt_text(indented)),
{
    match indented {
        Some(text) => text,
        None => raw.to_string(),
    }
}

/// `raw` indented where it is a JSON document, else as it is.
pub fn pretty_json(raw: &str) -> (res: String)
    ensures
        res@ == indented_or_raw(raw@, indented_json(raw@)),
{
    let indented = match parse_json(raw) {
        Some(value) => print_json(&value),
        None => None,
    };
    json_or_raw(raw, indented)
}

/// The value of a field, given how its column is decoded.
pub open spec fn decoded(shape: ColumnShape, raw: RawCell) -> CellValue {
    match shape {
        ColumnShape::Signed => match raw.signed {
            Some(v) => CellValue::Int(v),
            None => CellValue::Null,
        },
        ColumnShape::Unsigned => match raw.unsigned {
            Some(v) => CellValue::UInt(v),
            None => CellValue::Null,
        },
        ColumnShape::Boolean => match raw.boolean {
            Some(v) => CellValue::Bool(v),
            None => CellValue::Null,
        },
        ColumnShape::Real => match (raw.number, raw.text) {
            (Some(r), _) => CellValue::Float { bits: r.bits, text: r.text@ },
            (None, Some(s)) => CellValue::Text(s@),
            (None, None) => CellValue::Null,
        },
        ColumnShape::Bytes => match raw.bytes {
            Some(b) => CellValue::Blob(b@),
            None => CellValue::Null,
        },
        ColumnShape::Json => match raw.text {
            Some(s) => CellValue::Json(indented_or_raw(s@, indented_json(s@))),
            None => CellValue::Null,
        },
        ColumnShape::Bits => match raw.bytes {
            Some(b) => if b@.len() == 1 {
                CellValue::Int(b@[0] as i64)
            } else {
                CellValue::Blob(b@)
            },
            None => CellValue::Null,
        },
        ColumnShape::Text => match (raw.text, raw.bytes) {
            (Some(s), _) => CellValue::Text(s@),
            (None, Some(b)) => CellValue::Blob(b@),
            (None, None) => CellValue::Null,
        },
    }
}

/// Decode one field of a column of the given type.
pub fn decode_cell(raw: RawCell, sql_type: &str) -> (res: Cell)
    ensures
        res@ == decoded(shape_of(sql_type@), raw),
{
    match column_shape(sql_type) {
        ColumnShape::Signed => match raw.signed {
            Some(v) => Cell::Int(v),
            None => Cell::Null,
        },
        ColumnShape::Unsigned => match raw.unsigned {
            Some(v) => Cell::UInt(v),
            None => Cell::Null,
        },
        ColumnShape::Boolean => match raw.boolean {
            Some(v) => Cell::Bool(v),
            None => Cell::Null,
        },
        ColumnShape::Real => match raw.number {
            Some(r) => Cell::Float(r),
            None => match raw.text {
                Some(s) => Cell::Text(s),
                None => Cell::Null,
            },
        },
        ColumnShape::Bytes => match raw.bytes {
            Some(b) => Cell::Blob(b),
            None => Cell::Null,
        },
        ColumnShape::Json => match raw.text {
            Some(s) => Cell::Json(pretty_json(s.as_str())),
            None => Cell::Null,
        },
        ColumnShape::Bits => match raw.bytes {
            Some(b) => if b.len() == 1 {
                Cell::Int(b[0] as i64)
            } else {
                Cell::Blob(b)
            },
            None => Cell::Null,
        },
        ColumnShape::Text => match raw.text {
            Some(s) => Cell::Text(s),
            None => match raw.bytes {
                Some(b) => Cell::Blob(b),
                None => Cell::Null,
            },
        },
    }
}

/// A field that its column's type can decode keeps its value, and a cell is
/// `NULL` only where the driver has no value for it: integers, truth values,
/// numbers, texts and bytes come out as they were read.
pub proof fn law_decoding_keeps_values(shape: ColumnShape, raw: RawCell)
    ensures
        shape == ColumnShape::Signed ==> match decoded(shape, raw) {
            CellValue::Int(v) => raw.signed == Some(v),
            CellValue::Null => raw.signed is None,
            _ => false,
        },
        shape == ColumnShape::Unsigned ==> match decoded(shape, raw) {
            CellValue::UInt(v) => raw.unsigned == Some(v),
            CellValue::Null => raw.unsigned is None,
            _ => false,
        },
        shape == ColumnShape::Boolean ==> match decoded(shape, raw) {
            CellValue::Bool(v) => raw.boolean == Some(v),
            CellValue::Null => raw.boolean is None,
            _ => false,
        },
        shape == ColumnShape::Real ==> match decoded(shape, raw) {
            CellValue::Float { bits, text } => raw.number matches Some(r) && r.bits == bits
                && r.text@ == text,
            CellValue::Text(s) => raw.number is None && opt_text(raw.text) == Some(s),
            CellValue::Null => raw.number is None && raw.text is None,
            _ => false,
        },
        shape == ColumnShape::Bytes ==> match decoded(shape, raw) {
            CellValue::Blob(b) => raw.bytes matches Some(v) && v@ == b,
            CellValue::Null => raw.bytes is None,
            _ => false,
        },
        shape == ColumnShape::Json ==> match decoded(shape, raw) {
            CellValue::Json(s) => raw.text matches Some(v) && (read_json(v@) is None ==> s == v@)
                && (read_json(v@) matches Some(doc) ==> match printed_json(doc) {
                Some(printed) => s == printed,
                None => s == v@,
            }),
            CellValue::Null => raw.text is None,
            _ => false,
        },
        shape == ColumnShape::Bits ==> match decoded(shape, raw) {
            CellValue::Int(v) => raw.bytes matches Some(b) && b@.len() == 1 && v == b@[0],
            CellValue::Blob(b) => raw.bytes matches Some(v) && v@ == b && b.len() != 1,
            CellValue::Null => raw.bytes is None,
            _ => false,
        },
        shape == ColumnShape::Text ==> match decoded(shape, raw) {
            CellValue::Text(s) => opt_text(raw.text) == Some(s),
            CellValue::Blob(b) => raw.text is None && (raw.bytes matches Some(v) && v@ == b),
            CellValue::Null => raw.text is None && raw.bytes is None,
            _ => false,
        },
{
}

/// Every field of a row is decoded by the type of its own column, from its own
/// place in the row.
pub proof fn law_rows_are_decoded_by_column(
    columns: Seq<ColumnSource>,
    row: Seq<RawCell>,
    k: int,
)
    requires
        0 <= k < columns.len(),
    ensures
        decoded_row(columns, row).len() == columns.len(),
        k < row.len() ==> decoded_row(columns, row)[k] == decoded(
            shape_of(columns[k].sql_type@),
            row[k],
        ),
        k >= row.len() ==> decoded_row(columns, row)[k] is Null,
{
}

/// The value of field `k` of a row; a field that the row lacks is `NULL`.
pub open spec fn field_value(row: Seq<RawCell>, sql_type: Seq<char>, k: int) -> CellValue {
    if 0 <= k < row.len() {
        decoded(shape_of(sql_type), row[k])
    } else {
        CellValue::Null
    }
}

/// The values of a row whose columns are `columns`.
pub open spec fn decoded_row(columns: Seq<ColumnSource>, row: Seq<RawCell>) -> Seq<CellValue> {
    Seq::new(columns.len(), |k: int| field_value(row, columns[k].sql_type@, k))
}

fn decode_row(columns: &Vec<ColumnSource>, row: Vec<RawCell>) -> (res: Vec<Cell>)
    ensures
        cell_values(res@) == decoded_row(columns@, row@),
{
    let mut cells: Vec<Cell> = Vec::new();
    let mut k: usize = 0;
    while k < columns.len()
        invariant
            k <= columns@.len(),
            cells@.len() == k,
            forall|j: int|
                0 <= j < k ==> (#[trigger] cells@[j])@ == field_value(
                    row@,
                    columns@[j].sql_type@,
                    j,
                ),
        decreases columns@.len() - k,
    {
        let cell = if k < row.len() {
            let raw = copy_raw(&row[k]);
            let ghost same = row@[k as int];
            assert(decoded(shape_of(columns@[k as int].sql_type@), raw) == decoded(
                shape_of(columns@[k as int].sql_type@),
                same,
            ));
            decode_cell(raw, columns[k].sql_type.as_str())
        } else {
            Cell::Null
        };
        cells.push(cell);
        k = k + 1;
    }
    assert(cell_values(cells@) =~= decoded_row(columns@, row@));
    cells
}

fn copy_raw(raw: &RawCell) -> (res: RawCell)
    ensures
        forall|shape: ColumnShape| #[trigger] decoded(shape, res) == decoded(shape, *raw),
{
    let number = match &raw.number {
        Some(r) => Some(Real { bits: r.bits, text: r.text.clone() }),
        None => None,
    };
    let text = match &raw.text {
        Some(s) => Some(s.clone()),
        None => None,
    };
    let bytes = match &raw.bytes {
        Some(b) => Some(b.clone()),
        None => None,
    };
    RawCell {
        signed: raw.signed,
        unsigned: raw.unsigned,
        boolean: raw.boolean,
        number,
        text,
        bytes,
    }
}

/// Decode what a query returned. The columns are known from the first row, so
/// an empty result has none.
pub fn query_result(sources: Vec<ColumnSource>, rows: Vec<Vec<RawCell>>, elapsed: Duration) -> (res:
    QueryResult)
    ensures
        res.elapsed == elapsed,
        rows@.len() == 0 ==> res.columns@.len() == 0,
        rows@.len() > 0 ==> res.columns@.len() == sources@.len() && forall|k: int|
            0 <= k < sources@.len() ==> is_meta_of(#[trigger] res.columns@[k], sources@[k]),
        res.rows@.len() == rows@.len(),
        forall|i: int|
            0 <= i < rows@.len() ==> cell_values((#[trigger] res.rows@[i])@) == decoded_row(
                sources@,
                rows@[i]@,
            ),
{
    let mut columns: Vec<ColumnMeta> = Vec::new();
    let mut out_rows: Vec<Vec<Cell>> = Vec::new();
    if rows.len() == 0 {
        return QueryResult { columns, rows: out_rows, elapsed };
    }
    let mut k: usize = 0;
    while k < sources.len()
        invariant
            k <= sources@.len(),
            columns@.len() == k,
            forall|j: int| 0 <= j < k ==> is_meta_of(#[trigger] columns@[j], sources@[j]),
        decreases sources@.len() - k,
    {
        columns.push(column_meta(&sources[k]));
        k = k + 1;
    }
    let ghost all = rows@;
    for row in it: rows
        invariant
            it.seq() == all,
            out_rows@.len() == it.index(),
            forall|i: int|
                0 <= i < it.index() ==> cell_values((#[trigger] out_rows@[i])@) == decoded_row(
                    sources@,
                    all[i]@,
                ),
    {
        out_rows.push(decode_row(&sources, row));
    }
    QueryResult { columns, rows: out_rows, elapsed }
}

/// Integer types.
pub open spec fn names_integers(name: Seq<char>) -> bool {
    ||| name == "TINYINT"@
    ||| name == "SMALLINT"@
    ||| name == "MEDIUMINT"@
    ||| name == "INT"@
    ||| name == "INTEGER"@
    ||| name == "BIGINT"@
    ||| name == "YEAR"@
}

/// Types of numbers that need not be whole.
pub open spec fn names_reals(name: Seq<char>) -> bool {
    ||| name == "FLOAT"@
    ||| name == "DOUBLE"@
    ||| name == "REAL"@
    ||| name == "DECIMAL"@
    ||| name == "NUMERIC"@
}

/// Types of byte strings.
pub open spec fn names_bytes(name: Seq<char>) -> bool {
    ||| name == "BINARY"@
    ||| name == "VARBINARY"@
    ||| name == "TINYBLOB"@
    ||| name == "BLOB"@
    ||| name == "MEDIUMBLOB"@
    ||| name == "LONGBLOB"@
}

proof fn lemma_bare_type(name: Seq<char>, after: Seq<char>, tail: Seq<char>)
    requires
        name.len() > 0,
        forall|i: int| 0 <= i < name.len() ==> !is_white_space(#[trigger] name[i]) && name[i] != '(',
        after.len() == 0 || uppered(after) == " UNSIGNED"@,
        tail.len() > 0 ==> tail[0] == '(',
    ensures
        bare_type(name + after + tail) == uppered(name) + uppered(after),
        first_word_of(uppered(name) + uppered(after)) == uppered(name),
        after.len() > 0 ==> has_text(uppered(name) + uppered(after), "UNSIGNED"@),
{
    reveal_strlit(" UNSIGNED");
    reveal_strlit("UNSIGNED");
    let a = name + after;
    let t = a + tail;
    assert(after.len() > 0 ==> after.len() == uppered(after).len());
    assert forall|i: int| 0 <= i < a.len() implies #[trigger] a[i] != '(' by {
        if i < name.len() {
            assert(a[i] == name[i]);
        } else {
            assert(a[i] == after[i - name.len()]);
            assert(uppered(after)[i - name.len()] == " UNSIGNED"@[i - name.len()]);
            law_ascii_case(a[i]);
        }
    }
    if tail.len() > 0 {
        law_before_char(a, '(', tail.skip(1));
        assert(a + seq!['('] + tail.skip(1) =~= t);
    } else {
        law_before_char(a, '(', seq![]);
        assert(t =~= a);
    }
    assert(before_char(t, '(') == a);
    assert(a[0] == name[0]);
    assert(!is_white_space(a[a.len() - 1])) by {
        if after.len() == 0 {
            assert(a[a.len() - 1] == name[name.len() - 1]);
        } else {
            assert(a[a.len() - 1] == after[8]);
            assert(uppered(after)[8] == " UNSIGNED"@[8]);
            law_ascii_case(after[8]);
        }
    }
    assert(trimmed(a) == a);
    assert(uppered(a) =~= uppered(name) + uppered(after));
    let word = uppered(name);
    assert forall|i: int| 0 <= i < word.len() implies !is_white_space(#[trigger] word[i]) by {
        assert(!is_white_space(name[i]));
        law_ascii_case(name[i]);
    }
    if after.len() > 0 {
        assert(uppered(after)[0] == ' ');
    }
    law_first_word(word, uppered(after));
    if after.len() > 0 {
        let whole = word + uppered(after);
        assert(whole.subrange(word.len() + 1int, word.len() + 9int) =~= "UNSIGNED"@);
        assert(occurs_at(whole, "UNSIGNED"@, word.len() + 1int));
    }
}

proof fn lemma_integers_without_sign(word: Seq<char>)
    requires
        names_integers(word),
    ensures
        !has_text(word, "UNSIGNED"@),
{
    reveal_strlit("UNSIGNED");
    reveal_strlit("TINYINT");
    reveal_strlit("SMALLINT");
    reveal_strlit("MEDIUMINT");
    reveal_strlit("INT");
    reveal_strlit("INTEGER");
    reveal_strlit("BIGINT");
    reveal_strlit("YEAR");
    if has_text(word, "UNSIGNED"@) {
        let i = choose|i: int| occurs_at(word, "UNSIGNED"@, i);
        assert(word.subrange(i, i + 8)[0] == "UNSIGNED"@[0]);
        assert(word[i] == 'U');
    }
}

/// The type of a column says how its fields are decoded, in any ASCII case and
/// whatever stands in parentheses: integers with or without a sign, truth
/// values, other numbers, bytes, JSON documents and bit strings by their names,
/// and all other types as text.
pub proof fn law_types_say_how_to_decode(name: Seq<char>, unsigned: Seq<char>, tail: Seq<char>)
    requires
        name.len() > 0,
        forall|i: int| 0 <= i < name.len() ==> !is_white_space(#[trigger] name[i]) && name[i] != '(',
        uppered(unsigned) == " UNSIGNED"@,
        tail.len() > 0 ==> tail[0] == '(',
    ensures
        ({
            let word = uppered(name);
            let shape = shape_of(name + tail);
            &&& names_integers(word) ==> shape == ColumnShape::Signed && shape_of(
                name + unsigned + tail,
            ) == ColumnShape::Unsigned
            &&& shape == ColumnShape::Signed ==> names_integers(word) && !has_text(
                word,
                "UNSIGNED"@,
            )
            &&& shape == ColumnShape::Real <==> names_reals(word)
            &&& shape == ColumnShape::Bytes <==> names_bytes(word)
            &&& shape == ColumnShape::Boolean <==> word == "BOOL"@ || word == "BOOLEAN"@
            &&& shape == ColumnShape::Json <==> word == "JSON"@
            &&& shape == ColumnShape::Bits <==> word == "BIT"@
            &&& !names_integers(word) && !names_reals(word) && !names_bytes(word) && word
                != "BOOL"@ && word != "BOOLEAN"@ && word != "JSON"@ && word != "BIT"@ ==> shape
                == ColumnShape::Text
        }),
{
    let word = uppered(name);
    reveal_strlit(" UNSIGNED");
    assert(unsigned.len() == uppered(unsigned).len());
    lemma_bare_type(name, seq![], tail);
    assert(name + Seq::<char>::empty() + tail =~= name + tail);
    assert(uppered(Seq::<char>::empty()) =~= Seq::<char>::empty());
    assert(word + uppered(Seq::<char>::empty()) =~= word);
    lemma_bare_type(name, unsigned, tail);
    if names_integers(word) {
        lemma_integers_without_sign(word);
    }
    lemma_names_apart(word);
}

proof fn lemma_names_apart(word: Seq<char>)
    ensures
        names_integers(word) ==> !names_reals(word) && !names_bytes(word) && word != "BOOL"@ && word
            != "BOOLEAN"@ && word != "JSON"@ && word != "BIT"@,
        names_reals(word) ==> !names_bytes(word) && word != "BOOL"@ && word != "BOOLEAN"@ && word
            != "JSON"@ && word != "BIT"@,
        names_bytes(word) ==> word != "BOOL"@ && word != "BOOLEAN"@ && word != "JSON"@ && word
            != "BIT"@,
        word == "JSON"@ || word == "BIT"@ ==> word != "BOOL"@ && word != "BOOLEAN"@,
        word == "JSON"@ ==> word != "BIT"@,
{
    reveal_strlit("TINYINT");
    reveal_strlit("SMALLINT");
    reveal_strlit("MEDIUMINT");
    reveal_strlit("INT");
    reveal_strlit("INTEGER");
    reveal_strlit("BIGINT");
    reveal_strlit("YEAR");
    reveal_strlit("FLOAT");
    reveal_strlit("DOUBLE");
    reveal_strlit("REAL");
    reveal_strlit("DECIMAL");
    reveal_strlit("NUMERIC");
    reveal_strlit("BINARY");
    reveal_strlit("VARBINARY");
    reveal_strlit("TINYBLOB");
    reveal_strlit("BLOB");
    reveal_strlit("MEDIUMBLOB");
    reveal_strlit("LONGBLOB");
    reveal_strlit("BOOL");
    reveal_strlit("BOOLEAN");
    reveal_strlit("JSON");
    reveal_strlit("BIT");
    assert("TINYINT"@.len() == 7 && "TINYINT"@[0] == 'T' && "TINYINT"@[1] == 'I'
        && "TINYINT"@[2] == 'N');
    assert("SMALLINT"@.len() == 8 && "SMALLINT"@[0] == 'S' && "SMALLINT"@[1] == 'M'
        && "SMALLINT"@[2] == 'A');
    assert("MEDIUMINT"@.len() == 9 && "MEDIUMINT"@[0] == 'M' && "MEDIUMINT"@[1] == 'E'
        && "MEDIUMINT"@[2] == 'D');
    assert("INT"@.len() == 3 && "INT"@[0] == 'I' && "INT"@[1] == 'N' && "INT"@[2] == 'T');
    assert("INTEGER"@.len() == 7 && "INTEGER"@[0] == 'I' && "INTEGER"@[1] == 'N'
        && "INTEGER"@[2] == 'T');
    assert("BIGINT"@.len() == 6 && "BIGINT"@[0] == 'B' && "BIGINT"@[1] == 'I'
        && "BIGINT"@[2] == 'G');
    assert("YEAR"@.len() == 4 && "YEAR"@[0] == 'Y' && "YEAR"@[1] == 'E' && "YEAR"@[2] == 'A');
    assert("FLOAT"@.len() == 5 && "FLOAT"@[0] == 'F' && "FLOAT"@[1] == 'L' && "FLOAT"@[2] == 'O');
    assert("DOUBLE"@.len() == 6 && "DOUBLE"@[0] == 'D' && "DOUBLE"@[1] == 'O'
        && "DOUBLE"@[2] == 'U');
    assert("REAL"@.len() == 4 && "REAL"@[0] == 'R' && "REAL"@[1] == 'E' && "REAL"@[2] == 'A');
    assert("DECIMAL"@.len() == 7 && "DECIMAL"@[0] == 'D' && "DECIMAL"@[1] == 'E'
        && "DECIMAL"@[2] == 'C');
    assert("NUMERIC"@.len() == 7 && "NUMERIC"@[0] == 'N' && "NUMERIC"@[1] == 'U'
        && "NUMERIC"@[2] == 'M');
    assert("BINARY"@.len() == 6 && "BINARY"@[0] == 'B' && "BINARY"@[1] == 'I'
        && "BINARY"@[2] == 'N');
    assert("VARBINARY"@.len() == 9 && "VARBINARY"@[0] == 'V' && "VARBINARY"@[1] == 'A'
        && "VARBINARY"@[2] == 'R');
    assert("TINYBLOB"@.len() == 8 && "TINYBLOB"@[0] == 'T' && "TINYBLOB"@[1] == 'I'
        && "TINYBLOB"@[2] == 'N');
    assert("BLOB"@.len() == 4 && "BLOB"@[0] == 'B' && "BLOB"@[1] == 'L' && "BLOB"@[2] == 'O');
    assert("MEDIUMBLOB"@.len() == 10 && "MEDIUMBLOB"@[0] == 'M' && "MEDIUMBLOB"@[1] == 'E'
        && "MEDIUMBLOB"@[2] == 'D');
    assert("LONGBLOB"@.len() == 8 && "LONGBLOB"@[0] == 'L' && "LONGBLOB"@[1] == 'O'
        && "LONGBLOB"@[2] == 'N');
    assert("BOOL"@.len() == 4 && "BOOL"@[0] == 'B' && "BOOL"@[1] == 'O' && "BOOL"@[2] == 'O');
    assert("BOOLEAN"@.len() == 7 && "BOOLEAN"@[0] == 'B' && "BOOLEAN"@[1] == 'O'
        && "BOOLEAN"@[2] == 'O');
    assert("JSON"@.len() == 4 && "JSON"@[0] == 'J' && "JSON"@[1] == 'S' && "JSON"@[2] == 'O');
    assert("BIT"@.len() == 3 && "BIT"@[0] == 'B' && "BIT"@[1] == 'I' && "BIT"@[2] == 'T');
}

/// The source of a column is read from what the driver calls its table: a
/// database and a table with a dot between them, or a table alone.
pub proof fn law_origin_is_split_at_the_dot(db: Seq<char>, table: Seq<char>)
    requires
        forall|i: int| 0 <= i < db.len() ==> #[trigger] db[i] != '.',
    ensures
        origin_of(db + seq!['.'] + table) == (db, table),
        origin_of(db) == (Seq::<char>::empty(), db),
{
    law_before_char(db, '.', table);
    let t = db + seq!['.'] + table;
    assert(t.skip(db.len() + 1int) =~= table);
}

/// The grid shows the value of a cell: integers and truth values read back as
/// numbers, texts are shown as they are, a missing value is empty, and bytes are
/// shown by their number.
pub proof fn law_display_shows_the_value(v: CellValue)
    ensures
        match v {
            CellValue::Null => cell_text(v).len() == 0,
            CellValue::Int(n) => integer_read(cell_text(v)) == Some(n as int),
            CellValue::UInt(n) => integer_read(cell_text(v)) == Some(n as int),
            CellValue::Float { bits: _, text } => cell_text(v) == text,
            CellValue::Bool(b) => integer_read(cell_text(v)) == Some(
                if b {
                    1int
                } else {
                    0int
                },
            ),
            CellValue::Text(s) => cell_text(v) == s,
            CellValue::Json(s) => cell_text(v) == s,
            CellValue::Blob(b) => exists|digits: Seq<char>|
                cell_text(v) == #[trigger] ("<BLOB "@ + digits + " bytes>"@) && integer_read(digits)
                    == Some(b.len() as int),
        },
{
    match v {
        CellValue::Int(n) => {
            law_signed_decimal_reads_back(n as int);
        },
        CellValue::UInt(n) => {
            law_signed_decimal_reads_back(n as int);
        },
        CellValue::Bool(_) => {
            reveal_strlit("0");
            reveal_strlit("1");
        },
        CellValue::Blob(b) => {
            law_signed_decimal_reads_back(b.len() as int);
            assert(signed_decimal(b.len() as int) == decimal(b.len()));
            assert(cell_text(v) == "<BLOB "@ + decimal(b.len()) + " bytes>"@);
        },
        _ => {},
    }
}

/// A column is described as the driver describes it: by its own name and type,
/// and where it comes from a table, by the name that it has there and by the
/// table, with its database where the driver gives one.
pub proof fn law_columns_are_described(meta: ColumnMeta, src: ColumnSource)
    requires
        is_meta_of(meta, src),
    ensures
        meta.name@ == src.name@,
        meta.sql_type@ == src.sql_type@,
        meta.origin is Some <==> src.source is Some,
        meta.original_name is Some <==> src.source is Some,
        src.source matches Some((table, column)) ==> {
            &&& meta.original_name->0@ == column@
            &&& meta.origin matches Some((db, tbl))
            &&& (db@.len() == 0 && tbl@ == table@) || db@ + seq!['.'] + tbl@ == table@
        },
{
    if let Some((table, column)) = src.source {
        let (db, tbl) = origin_of(table@);
        lemma_before_char(table@, '.');
        if before_char(table@, '.').len() < table@.len() {
            assert(db + seq!['.'] + tbl =~= table@);
        }
    }
}

proof fn lemma_before_char(s: Seq<char>, c: char)
    ensures
        before_char(s, c).len() <= s.len(),
        before_char(s, c) == s.take(before_char(s, c).len() as int),
        before_char(s, c).len() < s.len() ==> s[before_char(s, c).len() as int] == c,
    decreases s.len(),
{
    if s.len() == 0 || s[0] == c {
        assert(s.take(0) =~= Seq::<char>::empty());
    } else {
        lemma_before_char(s.drop_first(), c);
        let n = before_char(s.drop_first(), c).len() as int;
        assert(s.take(n + 1) =~= seq![s[0]] + s.drop_first().take(n));
    }
}

} // verus!
