//! Row filters of the data grid: conditions on columns, and the `WHERE` body
//! they stand for.

use vstd::prelude::*;

use crate::order::Order;
use crate::quote::{
    ident, law_plain_round_trip, lemma_read_literal, plain_literal, plain_quoted, quoted_ident,
    read_literal, readable,
    unescaped,
};
use crate::schema::ColumnInfo;
use crate::text::{
    begins_with, flat_map, has_text, is_empty, join, joined, law_ascii_case,
    lemma_flat_map_front, lemma_trimmed_uppered, lowercase, lowered, occurs_at, starts_with,
    text_eq, texts, to_chars, trim, trimmed, uppered,
};

verus! {

/// Comparison operator of a condition.
#[derive(Debug, Clone, Copy, PartialEq, Eq, Structural)]
pub enum FilterOp {
    Eq,
    Ne,
    Lt,
    Le,
    Gt,
    Ge,
    Contains,
    StartsWith,
    IsNull,
    IsNotNull,
}

/// What the operator is called in the filter bar.
pub open spec fn op_label(op: FilterOp) -> Seq<char> {
    match op {
        FilterOp::Eq => "="@,
        FilterOp::Ne => "≠"@,
        FilterOp::Lt => "<"@,
        FilterOp::Le => "≤"@,
        FilterOp::Gt => ">"@,
        FilterOp::Ge => "≥"@,
        FilterOp::Contains => "contains"@,
        FilterOp::StartsWith => "starts with"@,
        FilterOp::IsNull => "is null"@,
        FilterOp::IsNotNull => "is not null"@,
    }
}

impl FilterOp {
    /// All operators, in the order in which they are offered.
    pub fn all() -> (res: Vec<FilterOp>)
        ensures
            res@ == seq![
                FilterOp::Eq,
                FilterOp::Ne,
                FilterOp::Lt,
                FilterOp::Le,
                FilterOp::Gt,
                FilterOp::Ge,
                FilterOp::Contains,
                FilterOp::StartsWith,
                FilterOp::IsNull,
                FilterOp::IsNotNull,
            ],
    {
        vec![
            FilterOp::Eq,
            FilterOp::Ne,
            FilterOp::Lt,
            FilterOp::Le,
            FilterOp::Gt,
            FilterOp::Ge,
            FilterOp::Contains,
            FilterOp::StartsWith,
            FilterOp::IsNull,
            FilterOp::IsNotNull,
        ]
    }

    /// What the operator is called in the filter bar.
    pub fn label(self) -> (res: &'static str)
        ensures
            res@ == op_label(self),
    {
        match self {
            FilterOp::Eq => "=",
            FilterOp::Ne => "≠",
            FilterOp::Lt => "<",
            FilterOp::Le => "≤",
            FilterOp::Gt => ">",
            FilterOp::Ge => "≥",
            FilterOp::Contains => "contains",
            FilterOp::StartsWith => "starts with",
            FilterOp::IsNull => "is null",
            FilterOp::IsNotNull => "is not null",
        }
    }

    /// Whether the operator compares with a value; the `IS [NOT] NULL`
    /// operators do not.
    pub fn needs_value(self) -> (res: bool)
        ensures
            res == (self != FilterOp::IsNull && self != FilterOp::IsNotNull),
    {
        match self {
            FilterOp::IsNull => false,
            FilterOp::IsNotNull => false,
            _ => true,
        }
    }
}

/// One condition; conditions are combined with `AND`.
#[derive(Debug, Clone)]
pub struct FilterCond {
    pub column: String,
    pub op: FilterOp,
    pub value: String,
}

/// `s` begins with the name of a numeric type.
pub open spec fn numeric_prefix(s: Seq<char>) -> bool {
    ||| begins_with(s, "tinyint"@)
    ||| begins_with(s, "smallint"@)
    ||| begins_with(s, "mediumint"@)
    ||| begins_with(s, "bigint"@)
    ||| begins_with(s, "int"@)
    ||| begins_with(s, "integer"@)
    ||| begins_with(s, "decimal"@)
    ||| begins_with(s, "numeric"@)
    ||| begins_with(s, "float"@)
    ||| begins_with(s, "double"@)
    ||| begins_with(s, "real"@)
    ||| begins_with(s, "bit"@)
    ||| begins_with(s, "year"@)
}

/// A column type whose values are numbers.
pub open spec fn numeric_type(data_type: Seq<char>) -> bool {
    numeric_prefix(lowered(trimmed(data_type)))
}

/// Whether the values of a column type are numbers.
pub fn is_numeric_type(data_type: &str) -> (res: bool)
    ensures
        res == numeric_type(data_type@),
{
    let lower = lowercase(trim(data_type).as_str());
    let s = lower.as_str();
    starts_with(s, "tinyint") || starts_with(s, "smallint") || starts_with(s, "mediumint")
        || starts_with(s, "bigint") || starts_with(s, "int") || starts_with(s, "integer")
        || starts_with(s, "decimal") || starts_with(s, "numeric") || starts_with(s, "float")
        || starts_with(s, "double") || starts_with(s, "real") || starts_with(s, "bit")
        || starts_with(s, "year")
}

/// A decimal digit.
pub open spec fn is_digit(c: char) -> bool {
    '0' <= c && c <= '9'
}

/// A sign.
pub open spec fn is_sign(c: char) -> bool {
    c == '+' || c == '-'
}

/// End of the run of digits at `i`.
pub open spec fn digits_end(s: Seq<char>, i: int) -> int
    decreases s.len() - i,
{
    if 0 <= i < s.len() && is_digit(s[i]) {
        digits_end(s, i + 1)
    } else {
        i
    }
}

/// From `i` on there is nothing, or an exponent: an `e` in either case, an
/// optional sign and at least one digit.
pub open spec fn exponent_syntax(s: Seq<char>, i: int) -> bool {
    i == s.len() || (0 <= i < s.len() && (s[i] == 'e' || s[i] == 'E') && {
        let from = if i + 1 < s.len() && is_sign(s[i + 1]) {
            i + 2
        } else {
            i + 1
        };
        from < digits_end(s, from) && digits_end(s, from) == s.len()
    })
}

/// From `i` on there is a number without a sign: digits with an optional point
/// among or beside them, at least one digit, and an optional exponent.
pub open spec fn number_syntax(s: Seq<char>, i: int) -> bool {
    let whole = digits_end(s, i);
    if whole < s.len() && s[whole] == '.' {
        let part = digits_end(s, whole + 1);
        (i < whole || whole + 1 < part) && exponent_syntax(s, part)
    } else {
        i < whole && exponent_syntax(s, whole)
    }
}

/// `s` is a number in decimal notation, with an optional sign.
pub open spec fn decimal_syntax(s: Seq<char>) -> bool {
    if s.len() > 0 && is_sign(s[0]) {
        number_syntax(s, 1)
    } else {
        number_syntax(s, 0)
    }
}

fn skip_digits(s: &Vec<char>, i: usize) -> (res: usize)
    requires
        i <= s@.len(),
    ensures
        res == digits_end(s@, i as int),
        i <= res <= s@.len(),
{
    let mut k: usize = i;
    while k < s.len() && '0' <= s[k] && s[k] <= '9'
        invariant
            i <= k <= s@.len(),
            digits_end(s@, k as int) == digits_end(s@, i as int),
        ensures
            i <= k <= s@.len(),
            digits_end(s@, k as int) == k,
        decreases s@.len() - k,
    {
        k = k + 1;
    }
    k
}

fn is_exponent(s: &Vec<char>, i: usize) -> (res: bool)
    requires
        i <= s@.len(),
    ensures
        res == exponent_syntax(s@, i as int),
{
    let size: usize = s.len();
    if i == size {
        return true;
    }
    if s[i] != 'e' && s[i] != 'E' {
        return false;
    }
    let from: usize = if i + 1 < size && (s[i + 1] == '+' || s[i + 1] == '-') {
        i + 2
    } else {
        i + 1
    };
    let end: usize = skip_digits(s, from);
    from < end && end == size
}

fn is_number(s: &Vec<char>, i: usize) -> (res: bool)
    requires
        i <= s@.len(),
    ensures
        res == number_syntax(s@, i as int),
{
    let whole: usize = skip_digits(s, i);
    if whole < s.len() && s[whole] == '.' {
        let part: usize = skip_digits(s, whole + 1);
        (i < whole || whole + 1 < part) && is_exponent(s, part)
    } else {
        i < whole && is_exponent(s, whole)
    }
}

/// Whether `value` is a number in decimal notation.
pub fn is_decimal_text(value: &str) -> (res: bool)
    ensures
        res == decimal_syntax(value@),
{
    let chars = to_chars(value);
    if chars.len() > 0 && (chars[0] == '+' || chars[0] == '-') {
        is_number(&chars, 1)
    } else {
        is_number(&chars, 0)
    }
}

/// The right-hand side of a comparison: bare for a number that is compared with
/// a numeric column, a literal otherwise.
pub open spec fn scalar_text(value: Seq<char>, numeric: bool) -> Seq<char> {
    if numeric && decimal_syntax(value) {
        value
    } else {
        plain_quoted(value)
    }
}

/// Write the right-hand side of a comparison: bare for a number that is
/// compared with a numeric column, quoted and escaped otherwise.
pub fn sql_scalar(value: &str, numeric: bool) -> (res: String)
    ensures
        res@ == scalar_text(value@, numeric),
{
    if numeric && is_decimal_text(value) {
        value.to_string()
    } else {
        plain_literal(value)
    }
}

/// How a character is written inside a literal for a `LIKE` pattern. A
/// backslash is escaped twice: for the literal, and for the pattern.
pub open spec fn like_char(c: char) -> Seq<char> {
    if c == '\'' {
        seq!['\'', '\'']
    } else if c == '\\' {
        seq!['\\', '\\', '\\', '\\']
    } else if c == '%' || c == '_' {
        seq!['\\', c]
    } else {
        seq![c]
    }
}

/// Escaping of each character for a `LIKE` pattern.
pub open spec fn like_escapes() -> spec_fn(char) -> Seq<char> {
    |c: char| like_char(c)
}

/// A `%` where it is wanted.
pub open spec fn wildcard(on: bool) -> Seq<char> {
    if on {
        seq!['%']
    } else {
        seq![]
    }
}

/// A pattern literal for `value`, with wildcards on the wanted sides.
pub open spec fn like_text(value: Seq<char>, lead: bool, trail: bool) -> Seq<char> {
    seq!['\''] + wildcard(lead) + flat_map(value, like_escapes()) + wildcard(trail) + seq!['\'']
}

/// Write a pattern literal in which the value is matched literally (`%`, `_` and
/// backslashes in it are escaped), with `%` wildcards on the wanted sides.
pub fn like_literal(value: &str, lead: bool, trail: bool) -> (res: String)
    ensures
        res@ == like_text(value@, lead, trail),
{
    let chars = to_chars(value);
    let mut out = String::new();
    out.push('\'');
    if lead {
        out.push('%');
    }
    let ghost start = seq!['\''] + wildcard(lead);
    assert(out@ =~= start);
    assert(out@ =~= start + flat_map(chars@.take(0), like_escapes()));
    let mut i: usize = 0;
    while i < chars.len()
        invariant
            i <= chars@.len(),
            out@ == start + flat_map(chars@.take(i as int), like_escapes()),
        decreases chars@.len() - i,
    {
        let ghost before = out@;
        let c = chars[i];
        if c == '\'' {
            out.push('\'');
        } else if c == '\\' {
            out.push('\\');
            out.push('\\');
            out.push('\\');
        } else if c == '%' || c == '_' {
            out.push('\\');
        }
        out.push(c);
        assert(out@ =~= before + like_char(c));
        proof {
            assert(chars@.take(i + 1).drop_last() == chars@.take(i as int));
            assert(out@ == start + flat_map(chars@.take(i + 1), like_escapes()));
        }
        i = i + 1;
    }
    assert(chars@.take(i as int) == value@);
    let ghost body = out@;
    if trail {
        out.push('%');
    }
    assert(out@ =~= body + wildcard(trail));
    out.push('\'');
    out
}

/// The first column of this name is numeric.
pub open spec fn numeric_named(columns: Seq<ColumnInfo>, name: Seq<char>) -> bool
    decreases columns.len(),
{
    if columns.len() == 0 {
        false
    } else if columns[0].name@ == name {
        numeric_type(columns[0].data_type@)
    } else {
        numeric_named(columns.drop_first(), name)
    }
}

fn is_numeric_column(columns: &[ColumnInfo], name: &String) -> (res: bool)
    ensures
        res == numeric_named(columns@, name@),
{
    let mut i: usize = 0;
    assert(columns@.skip(0) == columns@);
    while i < columns.len()
        invariant
            i <= columns@.len(),
            numeric_named(columns@, name@) == numeric_named(columns@.skip(i as int), name@),
        decreases columns@.len() - i,
    {
        if text_eq(columns[i].name.as_str(), name.as_str()) {
            return is_numeric_type(columns[i].data_type.as_str());
        }
        assert(columns@.skip(i as int).drop_first() == columns@.skip(i + 1));
        i = i + 1;
    }
    false
}

/// The SQL of a condition. There is none where no column is chosen, or where
/// the operator needs a value and the value is blank.
pub open spec fn cond_text(f: FilterCond, columns: Seq<ColumnInfo>) -> Option<Seq<char>> {
    let value = trimmed(f.value@);
    let col = quoted_ident(f.column@);
    let numeric = numeric_named(columns, f.column@);
    if f.column@.len() == 0 {
        None
    } else if f.op == FilterOp::IsNull {
        Some(col + " IS NULL"@)
    } else if f.op == FilterOp::IsNotNull {
        Some(col + " IS NOT NULL"@)
    } else if value.len() == 0 {
        None
    } else {
        match f.op {
            FilterOp::Eq => Some(col + " = "@ + scalar_text(value, numeric)),
            FilterOp::Ne => Some(col + " <> "@ + scalar_text(value, numeric)),
            FilterOp::Lt => Some(col + " < "@ + scalar_text(value, numeric)),
            FilterOp::Le => Some(col + " <= "@ + scalar_text(value, numeric)),
            FilterOp::Gt => Some(col + " > "@ + scalar_text(value, numeric)),
            FilterOp::Ge => Some(col + " >= "@ + scalar_text(value, numeric)),
            FilterOp::Contains => Some(col + " LIKE "@ + like_text(value, true, true)),
            _ => Some(col + " LIKE "@ + like_text(value, false, true)),
        }
    }
}

fn cond_sql(f: &FilterCond, columns: &[ColumnInfo]) -> (res: Option<String>)
    ensures
        crate::text::opt_text(res) == cond_text(*f, columns@),
{
    if is_empty(f.column.as_str()) {
        return None;
    }
    let value = trim(f.value.as_str());
    let v = value.as_str();
    if f.op.needs_value() && is_empty(v) {
        return None;
    }
    let numeric = is_numeric_column(columns, &f.column);
    let mut out = ident(f.column.as_str());
    match f.op {
        FilterOp::Eq => {
            out.append(" = ");
            out.append(sql_scalar(v, numeric).as_str());
        },
        FilterOp::Ne => {
            out.append(" <> ");
            out.append(sql_scalar(v, numeric).as_str());
        },
        FilterOp::Lt => {
            out.append(" < ");
            out.append(sql_scalar(v, numeric).as_str());
        },
        FilterOp::Le => {
            out.append(" <= ");
            out.append(sql_scalar(v, numeric).as_str());
        },
        FilterOp::Gt => {
            out.append(" > ");
            out.append(sql_scalar(v, numeric).as_str());
        },
        FilterOp::Ge => {
            out.append(" >= ");
            out.append(sql_scalar(v, numeric).as_str());
        },
        FilterOp::Contains => {
            out.append(" LIKE ");
            out.append(like_literal(v, true, true).as_str());
        },
        FilterOp::StartsWith => {
            out.append(" LIKE ");
            out.append(like_literal(v, false, true).as_str());
        },
        FilterOp::IsNull => {
            out.append(" IS NULL");
        },
        FilterOp::IsNotNull => {
            out.append(" IS NOT NULL");
        },
    }
    Some(out)
}

/// The SQL of the conditions that have any, in order.
pub open spec fn cond_texts(filters: Seq<FilterCond>, columns: Seq<ColumnInfo>) -> Seq<Seq<char>>
    decreases filters.len(),
{
    if filters.len() == 0 {
        seq![]
    } else {
        match cond_text(filters.last(), columns) {
            Some(part) => cond_texts(filters.drop_last(), columns).push(part),
            None => cond_texts(filters.drop_last(), columns),
        }
    }
}

/// The `WHERE` body for the conditions, combined with `AND`.
pub open spec fn where_text(filters: Seq<FilterCond>, columns: Seq<ColumnInfo>) -> Option<
    Seq<char>,
> {
    let parts = cond_texts(filters, columns);
    if parts.len() == 0 {
        None
    } else {
        Some(joined(parts, " AND "@))
    }
}

/// Build the `WHERE` body (without the keyword) for the active conditions,
/// combined with `AND`. `None` where no condition is active, so that the caller
/// loads unfiltered. Numeric columns with numeric input are compared with the
/// bare number, everything else with a quoted and escaped literal.
pub fn build_where_clause(filters: &[FilterCond], columns: &[ColumnInfo]) -> (res: Option<String>)
    ensures
        crate::text::opt_text(res) == where_text(filters@, columns@),
{
    let mut parts: Vec<String> = Vec::new();
    let mut i: usize = 0;
    while i < filters.len()
        invariant
            i <= filters@.len(),
            texts(parts@) == cond_texts(filters@.take(i as int), columns@),
        decreases filters@.len() - i,
    {
        assert(filters@.take(i + 1).drop_last() =~= filters@.take(i as int));
        let ghost before = parts@;
        if let Some(part) = cond_sql(&filters[i], columns) {
            let ghost text = part@;
            parts.push(part);
            assert(texts(parts@) =~= texts(before).push(text));
        }
        i = i + 1;
    }
    assert(filters@.take(i as int) =~= filters@);
    assert(texts(parts@).len() == parts@.len());
    if parts.len() == 0 {
        None
    } else {
        Some(join(&parts, " AND "))
    }
}

/// `t` from position `j` on matches the pattern `p` from position `i` on: `%`
/// matches any characters, `_` any one character, and a backslash takes the
/// character after it literally.
pub open spec fn like_match(p: Seq<char>, i: int, t: Seq<char>, j: int) -> bool
    decreases p.len() - i, t.len() - j,
{
    if i < 0 || i >= p.len() {
        j == t.len()
    } else if p[i] == '%' {
        like_match(p, i + 1, t, j) || (j < t.len() && like_match(p, i, t, j + 1))
    } else if p[i] == '_' {
        j < t.len() && like_match(p, i + 1, t, j + 1)
    } else if p[i] == '\\' && i + 1 < p.len() {
        j < t.len() && t[j] == p[i + 1] && like_match(p, i + 2, t, j + 1)
    } else {
        j < t.len() && t[j] == p[i] && like_match(p, i + 1, t, j + 1)
    }
}

/// What the server reads of a character that `like_char` wrote.
pub open spec fn pattern_char(c: char) -> Seq<char> {
    if c == '\\' || c == '%' || c == '_' {
        seq!['\\', c]
    } else {
        seq![c]
    }
}

/// What the server reads of each character.
pub open spec fn pattern_chars() -> spec_fn(char) -> Seq<char> {
    |c: char| pattern_char(c)
}

/// The pattern that the server reads from a pattern literal.
pub open spec fn pattern_of(value: Seq<char>, lead: bool, trail: bool) -> Seq<char> {
    wildcard(lead) + flat_map(value, pattern_chars()) + wildcard(trail)
}

/// The server reads a pattern literal as the pattern it was written for.
pub proof fn law_like_literal_reads_back(value: Seq<char>, lead: bool, trail: bool)
    ensures
        ({
            let literal = like_text(value, lead, trail);
            &&& literal[0] == '\''
            &&& read_literal(literal, 1) == Some(
                (pattern_of(value, lead, trail), literal.len() as int),
            )
        }),
{
    let t = like_text(value, lead, trail);
    let body = flat_map(value, like_escapes());
    let size = t.len() as int;
    let from: int = if lead {
        2
    } else {
        1
    };
    let to = from + body.len();
    assert(t.subrange(from, to) =~= body);
    assert(t[size - 1] == '\'');
    assert(read_literal(t, size - 1) == Some((Seq::<char>::empty(), size)));
    if trail {
        assert(to == size - 2);
        assert(t[to] == '%');
        assert(seq!['%'] + Seq::<char>::empty() =~= wildcard(trail));
    } else {
        assert(to == size - 1);
        assert(Seq::<char>::empty() =~= wildcard(trail));
    }
    assert(read_literal(t, to) == Some((wildcard(trail), size)));
    assert(readable(like_escapes(), pattern_chars())) by {
        assert forall|c: char|
            {
                let w = #[trigger] (like_escapes())(c);
                ||| w.len() == 1 && w[0] != '\'' && w[0] != '\\' && (pattern_chars())(c) == w
                ||| w.len() == 2 && w[0] == '\'' && w[1] == '\'' && (pattern_chars())(c)
                    == seq!['\'']
                ||| w.len() == 2 && w[0] == '\\' && (pattern_chars())(c) == unescaped(w[1])
                ||| w.len() == 4 && w[0] == '\\' && w[2] == '\\' && (pattern_chars())(c)
                    == unescaped(w[1]) + unescaped(w[3])
            } by {
            let w = like_char(c);
            if c == '\'' {
                assert(pattern_char(c) =~= seq!['\'']);
            } else if c == '\\' {
                assert(pattern_char(c) =~= unescaped(c) + unescaped(c));
            } else if c == '%' || c == '_' {
                assert(pattern_char(c) =~= unescaped(c));
            } else {
                assert(pattern_char(c) =~= w);
            }
        }
    }
    lemma_read_literal(t, from, value, like_escapes(), pattern_chars(), wildcard(trail), size);
    let read = flat_map(value, pattern_chars()) + wildcard(trail);
    if lead {
        assert(t[1] == '%');
        assert(seq!['%'] + read =~= pattern_of(value, lead, trail));
    } else {
        assert(read =~= pattern_of(value, lead, trail));
    }
}

proof fn lemma_like_body(p: Seq<char>, i: int, t: Seq<char>, j: int, v: Seq<char>)
    requires
        0 <= i,
        0 <= j,
        i + flat_map(v, pattern_chars()).len() <= p.len(),
        p.subrange(i, i + flat_map(v, pattern_chars()).len()) == flat_map(v, pattern_chars()),
    ensures
        like_match(p, i, t, j) == (occurs_at(t, v, j) && like_match(
            p,
            i + flat_map(v, pattern_chars()).len(),
            t,
            j + v.len(),
        )) || (v.len() == 0 && j > t.len()),
    decreases v.len(),
{
    let f = pattern_chars();
    let body = flat_map(v, f);
    if v.len() == 0 {
        if j <= t.len() {
            assert(t.subrange(j, j + 0) =~= v);
        }
    } else {
        lemma_flat_map_front(v, f);
        let rest = v.drop_first();
        let tail = flat_map(rest, f);
        let head = f(v[0]);
        assert forall|k: int| 0 <= k < body.len() implies p[i + k] == #[trigger] body[k] by {
            assert(p.subrange(i, i + body.len())[k] == body[k]);
        }
        assert forall|k: int| 0 <= k < tail.len() implies p[i + head.len() + k]
            == #[trigger] tail[k] by {
            assert(body[head.len() + k] == tail[k]);
        }
        assert(p.subrange(i + head.len(), i + head.len() + tail.len()) =~= tail);
        assert(body[0] == head[0]);
        if head.len() == 2 {
            assert(body[1] == head[1]);
        }
        if j < t.len() {
            lemma_like_body(p, i + head.len(), t, j + 1, rest);
            if t[j] == v[0] && occurs_at(t, rest, j + 1) {
                let found = t.subrange(j, j + v.len());
                assert forall|k: int| 0 <= k < v.len() implies #[trigger] found[k] == v[k] by {
                    if k > 0 {
                        assert(t.subrange(j + 1, j + 1 + rest.len())[k - 1] == rest[k - 1]);
                    }
                }
                assert(found =~= v);
            }
            if occurs_at(t, v, j) {
                assert(t.subrange(j, j + v.len())[0] == v[0]);
                let found = t.subrange(j + 1, j + 1 + rest.len());
                assert forall|k: int| 0 <= k < rest.len() implies #[trigger] found[k]
                    == rest[k] by {
                    assert(t.subrange(j, j + v.len())[k + 1] == v[k + 1]);
                }
                assert(found =~= rest);
            }
        }
    }
}

proof fn lemma_like_wildcard(p: Seq<char>, i: int, t: Seq<char>, j: int)
    requires
        0 <= i < p.len(),
        p[i] == '%',
        0 <= j <= t.len(),
    ensures
        like_match(p, i, t, j) <==> exists|k: int|
            j <= k <= t.len() && #[trigger] like_match(p, i + 1, t, k),
    decreases t.len() - j,
{
    assert(like_match(p, i, t, j) == (like_match(p, i + 1, t, j) || (j < t.len() && like_match(
        p,
        i,
        t,
        j + 1,
    ))));
    if j < t.len() {
        lemma_like_wildcard(p, i, t, j + 1);
        if like_match(p, i, t, j) && !like_match(p, i + 1, t, j) {
            let k = choose|k: int| j + 1 <= k <= t.len() && #[trigger] like_match(p, i + 1, t, k);
            assert(like_match(p, i + 1, t, k));
        }
        if exists|k: int| j <= k <= t.len() && #[trigger] like_match(p, i + 1, t, k) {
            let k = choose|k: int| j <= k <= t.len() && #[trigger] like_match(p, i + 1, t, k);
            if k > j {
                assert(like_match(p, i, t, j + 1));
            }
        }
    }
}

proof fn lemma_like_tail(p: Seq<char>, t: Seq<char>, j: int)
    requires
        p.len() > 0,
        p[p.len() - 1] == '%',
        0 <= j <= t.len(),
    ensures
        like_match(p, p.len() - 1, t, j),
{
    lemma_like_wildcard(p, p.len() - 1, t, j);
    assert(like_match(p, (p.len() - 1) + 1, t, t.len() as int));
}

/// "contains" matches literally: the pattern for a value matches exactly the
/// texts in which the value occurs.
pub proof fn law_contains_is_literal(value: Seq<char>, t: Seq<char>)
    ensures
        like_match(pattern_of(value, true, true), 0, t, 0) == has_text(t, value),
{
    let p = pattern_of(value, true, true);
    let body = flat_map(value, pattern_chars());
    assert(p.subrange(1, body.len() + 1int) =~= body);
    assert forall|k: int| 0 <= k <= t.len() implies #[trigger] like_match(p, 1, t, k)
        == occurs_at(t, value, k) by {
        lemma_like_body(p, 1, t, k, value);
        if occurs_at(t, value, k) {
            lemma_like_tail(p, t, k + value.len());
        }
    }
    lemma_like_wildcard(p, 0, t, 0);
    if like_match(p, 0, t, 0) {
        let k = choose|k: int| 0 <= k <= t.len() && #[trigger] like_match(p, 1, t, k);
        assert(occurs_at(t, value, k));
    }
    if has_text(t, value) {
        let k = choose|k: int| occurs_at(t, value, k);
        assert(like_match(p, 1, t, k));
    }
}

/// "starts with" matches literally: the pattern for a value matches exactly the
/// texts that begin with the value.
pub proof fn law_starts_with_is_literal(value: Seq<char>, t: Seq<char>)
    ensures
        like_match(pattern_of(value, false, true), 0, t, 0) == begins_with(t, value),
{
    let p = pattern_of(value, false, true);
    let body = flat_map(value, pattern_chars());
    assert(p.subrange(0, body.len() as int) =~= body);
    lemma_like_body(p, 0, t, 0, value);
    if occurs_at(t, value, 0) {
        lemma_like_tail(p, t, value.len() as int);
    }
}

/// What the server makes of a comparison operator, given how the value on its
/// left stands to the one on its right. A text that is no operator holds of
/// nothing.
pub open spec fn sql_compares(operator: Seq<char>, stands: Order) -> bool {
    ||| operator == "="@ && stands == Order::Equal
    ||| operator == "<>"@ && stands != Order::Equal
    ||| operator == "<"@ && stands == Order::Less
    ||| operator == "<="@ && stands != Order::Greater
    ||| operator == ">"@ && stands == Order::Greater
    ||| operator == ">="@ && stands != Order::Less
}

/// What the user means by a comparison, given how the field stands to the value.
pub open spec fn user_means(op: FilterOp, stands: Order) -> bool {
    match stands {
        Order::Less => op == FilterOp::Lt || op == FilterOp::Le || op == FilterOp::Ne,
        Order::Equal => op == FilterOp::Eq || op == FilterOp::Le || op == FilterOp::Ge,
        Order::Greater => op == FilterOp::Gt || op == FilterOp::Ge || op == FilterOp::Ne,
    }
}

/// One of the operators that compare a field with a value.
pub open spec fn is_comparison(op: FilterOp) -> bool {
    op == FilterOp::Eq || op == FilterOp::Ne || op == FilterOp::Lt || op == FilterOp::Le || op
        == FilterOp::Gt || op == FilterOp::Ge
}

/// The SQL operator of a comparison.
pub open spec fn sql_operator(op: FilterOp) -> Seq<char> {
    match op {
        FilterOp::Eq => "="@,
        FilterOp::Ne => "<>"@,
        FilterOp::Lt => "<"@,
        FilterOp::Le => "<="@,
        FilterOp::Gt => ">"@,
        _ => ">="@,
    }
}

/// A comparison is the quoted column, an operator that depends on what the user
/// chose alone, and the value. Whatever the type of the column, the server keeps
/// exactly the rows that the user means: `≠` those that `=` leaves out, and so
/// on.
pub proof fn law_comparison_means_what_was_chosen(
    f: FilterCond,
    columns: Seq<ColumnInfo>,
    stands: Order,
)
    requires
        is_comparison(f.op),
        f.column@.len() > 0,
        trimmed(f.value@).len() > 0,
    ensures
        cond_text(f, columns) == Some(
            quoted_ident(f.column@) + " "@ + sql_operator(f.op) + " "@ + scalar_text(
                trimmed(f.value@),
                numeric_named(columns, f.column@),
            ),
        ),
        sql_compares(sql_operator(f.op), stands) == user_means(f.op, stands),
{
    reveal_strlit(" ");
    reveal_strlit("=");
    reveal_strlit("<>");
    reveal_strlit("<");
    reveal_strlit("<=");
    reveal_strlit(">");
    reveal_strlit(">=");
    reveal_strlit(" = ");
    reveal_strlit(" <> ");
    reveal_strlit(" < ");
    reveal_strlit(" <= ");
    reveal_strlit(" > ");
    reveal_strlit(" >= ");
    let lead = quoted_ident(f.column@);
    let value = scalar_text(trimmed(f.value@), numeric_named(columns, f.column@));
    assert(" "@ + sql_operator(f.op) + " "@ =~= match f.op {
        FilterOp::Eq => " = "@,
        FilterOp::Ne => " <> "@,
        FilterOp::Lt => " < "@,
        FilterOp::Le => " <= "@,
        FilterOp::Gt => " > "@,
        _ => " >= "@,
    });
    let middle = " "@ + sql_operator(f.op) + " "@;
    assert(lead + middle + value =~= lead + " "@ + sql_operator(f.op) + " "@ + value);
    assert("="@[0] == '=');
    assert("<"@[0] == '<');
    assert(">"@[0] == '>');
    assert("<>"@[1] == '>');
    assert("<="@[1] == '=');
    assert("<>"@[0] == '<');
    assert("<="@[0] == '<');
    assert(">="@[0] == '>');
    assert("="@.len() == 1 && "<"@.len() == 1 && ">"@.len() == 1 && "<>"@.len() == 2 && "<="@.len()
        == 2 && ">="@.len() == 2);
}

/// The value of a comparison is either a literal from which the server reads the
/// value back, or the value as it stands; the latter only for a numeric column,
/// and only where the value is made of digits, signs, points and exponents, with
/// at least one digit. A run of digits does stand bare for a numeric column.
pub proof fn law_scalar_is_safe(value: Seq<char>, numeric: bool)
    ensures
        ({
            let text = scalar_text(value, numeric);
            ||| text[0] == '\'' && read_literal(text, 1) == Some((value, text.len() as int))
            ||| {
                &&& numeric
                &&& text == value
                &&& forall|i: int|
                    0 <= i < value.len() ==> '0' <= (#[trigger] value[i]) <= '9' || value[i] == '+'
                        || value[i] == '-' || value[i] == '.' || value[i] == 'e' || value[i] == 'E'
                &&& exists|i: int| 0 <= i < value.len() && '0' <= (#[trigger] value[i]) <= '9'
            }
        }),
        !numeric ==> scalar_text(value, numeric)[0] == '\'',
        numeric && value.len() > 0 && (forall|i: int|
            0 <= i < value.len() ==> '0' <= (#[trigger] value[i]) <= '9') ==> scalar_text(
            value,
            numeric,
        ) == value,
{
    if numeric && decimal_syntax(value) {
        lemma_number_chars(value);
    } else {
        law_plain_round_trip(value, seq![]);
        assert(plain_quoted(value) + Seq::<char>::empty() =~= plain_quoted(value));
    }
    if numeric && value.len() > 0 && (forall|i: int|
        0 <= i < value.len() ==> '0' <= (#[trigger] value[i]) <= '9') {
        assert('0' <= value[0] <= '9');
        lemma_all_digits(value, 0);
    }
}

proof fn lemma_all_digits(s: Seq<char>, i: int)
    requires
        0 <= i <= s.len(),
        forall|k: int| i <= k < s.len() ==> '0' <= (#[trigger] s[k]) <= '9',
    ensures
        digits_end(s, i) == s.len(),
    decreases s.len() - i,
{
    if i < s.len() {
        assert('0' <= s[i] <= '9');
        lemma_all_digits(s, i + 1);
    }
}

proof fn lemma_digits_end(s: Seq<char>, i: int)
    requires
        0 <= i <= s.len(),
    ensures
        i <= digits_end(s, i) <= s.len(),
        forall|k: int| i <= k < digits_end(s, i) ==> '0' <= (#[trigger] s[k]) <= '9',
    decreases s.len() - i,
{
    if i < s.len() && is_digit(s[i]) {
        lemma_digits_end(s, i + 1);
    }
}

/// A character of a number.
spec fn number_char(c: char) -> bool {
    '0' <= c <= '9' || c == '+' || c == '-' || c == '.' || c == 'e' || c == 'E'
}

proof fn lemma_number_chars(s: Seq<char>)
    requires
        decimal_syntax(s),
    ensures
        forall|i: int| 0 <= i < s.len() ==> number_char(#[trigger] s[i]),
        exists|i: int| 0 <= i < s.len() && '0' <= (#[trigger] s[i]) <= '9',
{
    let from: int = if s.len() > 0 && is_sign(s[0]) {
        1
    } else {
        0
    };
    lemma_digits_end(s, from);
    let whole = digits_end(s, from);
    let end = if whole < s.len() && s[whole] == '.' {
        lemma_digits_end(s, whole + 1);
        digits_end(s, whole + 1)
    } else {
        whole
    };
    if end < s.len() {
        let start = if end + 1 < s.len() && is_sign(s[end + 1]) {
            end + 2
        } else {
            end + 1
        };
        lemma_digits_end(s, start);
    }
    if from < whole {
        assert('0' <= s[from] <= '9');
    } else {
        assert('0' <= s[whole + 1] <= '9');
    }
    assert forall|i: int| 0 <= i < s.len() implies number_char(#[trigger] s[i]) by {}
}

/// "contains" and "starts with" compare with a pattern literal. From it the
/// server reads a pattern that matches exactly the texts in which the value
/// occurs, or which begin with it.
pub proof fn law_pattern_means_what_was_chosen(
    f: FilterCond,
    columns: Seq<ColumnInfo>,
    t: Seq<char>,
)
    requires
        f.op == FilterOp::Contains || f.op == FilterOp::StartsWith,
        f.column@.len() > 0,
        trimmed(f.value@).len() > 0,
    ensures
        exists|literal: Seq<char>, pattern: Seq<char>|
            {
                &&& cond_text(f, columns) == Some(
                    #[trigger] (quoted_ident(f.column@) + " LIKE "@ + literal),
                )
                &&& literal[0] == '\''
                &&& read_literal(literal, 1) == Some((pattern, literal.len() as int))
                &&& #[trigger] like_match(pattern, 0, t, 0) == if f.op == FilterOp::Contains {
                    has_text(t, trimmed(f.value@))
                } else {
                    begins_with(t, trimmed(f.value@))
                }
            },
{
    let value = trimmed(f.value@);
    let lead = f.op == FilterOp::Contains;
    law_like_literal_reads_back(value, lead, true);
    law_contains_is_literal(value, t);
    law_starts_with_is_literal(value, t);
    let literal = like_text(value, lead, true);
    let pattern = pattern_of(value, lead, true);
    assert(cond_text(f, columns) == Some(quoted_ident(f.column@) + " LIKE "@ + literal));
    assert(like_match(pattern, 0, t, 0) == if lead {
        has_text(t, value)
    } else {
        begins_with(t, value)
    });
}

/// The null tests ask for a missing and for a present value, whatever the user
/// typed.
pub proof fn law_null_tests(f: FilterCond, columns: Seq<ColumnInfo>)
    requires
        f.column@.len() > 0,
    ensures
        f.op == FilterOp::IsNull ==> cond_text(f, columns) == Some(
            quoted_ident(f.column@) + " IS NULL"@,
        ),
        f.op == FilterOp::IsNotNull ==> cond_text(f, columns) == Some(
            quoted_ident(f.column@) + " IS NOT NULL"@,
        ),
{
}

/// A condition counts exactly where a column is chosen and, unless it is a null
/// test, the value is not blank.
pub proof fn law_active_conditions(f: FilterCond, columns: Seq<ColumnInfo>)
    ensures
        cond_text(f, columns) is Some <==> f.column@.len() > 0 && (f.op == FilterOp::IsNull || f.op
            == FilterOp::IsNotNull || trimmed(f.value@).len() > 0),
{
}

/// All active conditions must hold: one more condition is added with `AND`, and
/// one that is not active changes nothing. No condition, no `WHERE`.
pub proof fn law_conditions_add_up(
    filters: Seq<FilterCond>,
    f: FilterCond,
    columns: Seq<ColumnInfo>,
)
    ensures
        where_text(Seq::<FilterCond>::empty(), columns) is None,
        where_text(filters.push(f), columns) == match (
            where_text(filters, columns),
            cond_text(f, columns),
        ) {
            (Some(before), Some(part)) => Some(before + " AND "@ + part),
            (Some(before), None) => Some(before),
            (None, Some(part)) => Some(part),
            (None, None) => None::<Seq<char>>,
        },
{
    assert(filters.push(f).drop_last() =~= filters);
    let parts = cond_texts(filters, columns);
    if let Some(part) = cond_text(f, columns) {
        assert(parts.push(part).drop_last() =~= parts);
        if parts.len() == 1 {
            assert(parts.drop_last() =~= seq![]);
        }
    }
}

/// A type is numeric by its first letters, in any case and with white space
/// around it: the integer, decimal, floating-point, bit and year types are, and
/// what begins otherwise is not.
pub proof fn law_numeric_types(t: Seq<char>)
    ensures
        numeric_type(t) == numeric_type(uppered(t)),
        numeric_type(t) <==> exists|i: int|
            0 <= i < numeric_names().len() && begins_with(
                lowered(trimmed(t)),
                #[trigger] numeric_names()[i],
            ),
{
    lemma_trimmed_uppered(t);
    let low = lowered(trimmed(t));
    assert(lowered(uppered(trimmed(t))) =~= low) by {
        assert forall|i: int| 0 <= i < trimmed(t).len() implies lowered(uppered(trimmed(t)))[i]
            == #[trigger] low[i] by {
            law_ascii_case(trimmed(t)[i]);
        }
    }
    let names = numeric_names();
    assert(names[0] == "tinyint"@ && names[1] == "smallint"@ && names[2] == "mediumint"@ && names[3]
        == "int"@ && names[4] == "bigint"@ && names[5] == "decimal"@ && names[6] == "numeric"@
        && names[7] == "float"@ && names[8] == "double"@ && names[9] == "real"@ && names[10]
        == "bit"@ && names[11] == "year"@);
    if begins_with(low, "integer"@) {
        reveal_strlit("integer");
        reveal_strlit("int");
        assert(low.subrange(0, 3) =~= low.subrange(0, 7).subrange(0, 3));
        assert("integer"@.subrange(0, 3) =~= "int"@);
        assert(begins_with(low, names[3]));
    }
    assert(numeric_prefix(low) ==> exists|i: int|
        0 <= i < names.len() && begins_with(low, #[trigger] names[i])) by {
        if begins_with(low, "tinyint"@) {
            assert(begins_with(low, names[0]));
        }
        if begins_with(low, "smallint"@) {
            assert(begins_with(low, names[1]));
        }
        if begins_with(low, "mediumint"@) {
            assert(begins_with(low, names[2]));
        }
        if begins_with(low, "int"@) {
            assert(begins_with(low, names[3]));
        }
        if begins_with(low, "bigint"@) {
            assert(begins_with(low, names[4]));
        }
        if begins_with(low, "decimal"@) {
            assert(begins_with(low, names[5]));
        }
        if begins_with(low, "numeric"@) {
            assert(begins_with(low, names[6]));
        }
        if begins_with(low, "float"@) {
            assert(begins_with(low, names[7]));
        }
        if begins_with(low, "double"@) {
            assert(begins_with(low, names[8]));
        }
        if begins_with(low, "real"@) {
            assert(begins_with(low, names[9]));
        }
        if begins_with(low, "bit"@) {
            assert(begins_with(low, names[10]));
        }
        if begins_with(low, "year"@) {
            assert(begins_with(low, names[11]));
        }
    }
}

/// How the names of the numeric types begin.
pub open spec fn numeric_names() -> Seq<Seq<char>> {
    seq![
        "tinyint"@,
        "smallint"@,
        "mediumint"@,
        "int"@,
        "bigint"@,
        "decimal"@,
        "numeric"@,
        "float"@,
        "double"@,
        "real"@,
        "bit"@,
        "year"@,
    ]
}

/// Every operator has a label of its own, and a comparison that SQL writes with
/// one sign is called by that sign.
pub proof fn law_operator_labels(a: FilterOp, b: FilterOp)
    ensures
        op_label(a).len() > 0,
        a != b ==> op_label(a) != op_label(b),
        a == FilterOp::Eq || a == FilterOp::Lt || a == FilterOp::Gt ==> sql_compares(
            op_label(a),
            Order::Equal,
        ) == user_means(a, Order::Equal) && sql_compares(op_label(a), Order::Less) == user_means(
            a,
            Order::Less,
        ) && sql_compares(op_label(a), Order::Greater) == user_means(a, Order::Greater),
        a == FilterOp::Ne ==> op_label(a) == seq!['≠'],
        a == FilterOp::Le ==> op_label(a) == seq!['≤'],
        a == FilterOp::Ge ==> op_label(a) == seq!['≥'],
{
    reveal_strlit("=");
    reveal_strlit("≠");
    reveal_strlit("<");
    reveal_strlit("≤");
    reveal_strlit(">");
    reveal_strlit("≥");
    reveal_strlit("<>");
    reveal_strlit("<=");
    reveal_strlit(">=");
    reveal_strlit("contains");
    reveal_strlit("starts with");
    reveal_strlit("is null");
    reveal_strlit("is not null");
    assert("≠"@ =~= seq!['≠']);
    assert("≤"@ =~= seq!['≤']);
    assert("≥"@ =~= seq!['≥']);
    assert(op_label(a).len() > 0);
    assert(a != b ==> op_label(a).len() != op_label(b).len() || op_label(a)[0] != op_label(b)[0]);
    assert("="@[0] == '=' && "<"@[0] == '<' && ">"@[0] == '>');
}

} // verus!
