//! Result sets: the order of their rows, and the tabs they are shown in.

use vstd::prelude::*;

use crate::elapsed::{shown_duration, Elapsed};
use crate::order::{
    compare_texts, flipped, int_order, law_text_order, lemma_text_order_equal, lemma_text_order_flipped,
    lemma_text_order_transitive, text_order, Order,
};
use crate::query::{
    cell_text, cell_values, is_number, law_finite_and_nan, law_number_line, line_position,
    nan_bits, number_of, row_values_of, Cell, CellValue, ColumnMeta, QueryResult, Real,
};
use crate::text::{
    begins_with, decimal, digits_read, first_chars, law_decimal_reads_back, opt_text, shorten,
    usize_text,
};
use crate::utf8::{byte_len, lemma_prefix_len};

verus! {

/// Direction of a sort.
#[derive(Debug, Clone, Copy, PartialEq, Eq, Structural)]
pub enum SortOrder {
    Asc,
    Desc,
}

/// How one number stands to another; a NaN stands to every number as its equal.
pub open spec fn real_order(a: u64, b: u64) -> Order {
    if nan_bits(a) || nan_bits(b) {
        Order::Equal
    } else {
        int_order(line_position(a), line_position(b))
    }
}

/// How one cell stands to another. `NULL` and a missing cell come first; numbers
/// compare as numbers, truth values with false first, and everything else as
/// the text shown.
pub open spec fn cell_order(a: Option<CellValue>, b: Option<CellValue>) -> Order {
    match (a, b) {
        (None, None) => Order::Equal,
        (Some(CellValue::Null), Some(CellValue::Null)) => Order::Equal,
        (None, _) => Order::Less,
        (Some(CellValue::Null), _) => Order::Less,
        (_, None) => Order::Greater,
        (_, Some(CellValue::Null)) => Order::Greater,
        (Some(x), Some(y)) => match (x, y) {
            (CellValue::Int(m), CellValue::Int(n)) => int_order(m as int, n as int),
            (CellValue::UInt(m), CellValue::UInt(n)) => int_order(m as int, n as int),
            (CellValue::Int(m), CellValue::UInt(n)) => int_order(m as int, n as int),
            (CellValue::UInt(m), CellValue::Int(n)) => int_order(m as int, n as int),
            (
                CellValue::Float { bits: m, text: _ },
                CellValue::Float { bits: n, text: _ },
            ) => real_order(m, n),
            (CellValue::Bool(m), CellValue::Bool(n)) => if m == n {
                Order::Equal
            } else if n {
                Order::Less
            } else {
                Order::Greater
            },
            _ => text_order(cell_text(x), cell_text(y)),
        },
    }
}

fn compare_i128(a: i128, b: i128) -> (res: Order)
    ensures
        res == int_order(a as int, b as int),
{
    if a < b {
        Order::Less
    } else if a == b {
        Order::Equal
    } else {
        Order::Greater
    }
}

fn compare_reals(a: &Real, b: &Real) -> (res: Order)
    ensures
        res == real_order(a.bits, b.bits),
{
    if a.is_nan() || b.is_nan() {
        return Order::Equal;
    }
    let x: i128 = if a.bits < 0x8000_0000_0000_0000 {
        a.bits as i128
    } else {
        0x8000_0000_0000_0000i128 - a.bits as i128
    };
    let y: i128 = if b.bits < 0x8000_0000_0000_0000 {
        b.bits as i128
    } else {
        0x8000_0000_0000_0000i128 - b.bits as i128
    };
    compare_i128(x, y)
}

/// What an optional cell holds.
pub open spec fn opt_cell(c: Option<&Cell>) -> Option<CellValue> {
    match c {
        Some(c) => Some(c@),
        None => None,
    }
}

/// How one cell stands to another.
pub fn compare_cells(a: Option<&Cell>, b: Option<&Cell>) -> (res: Order)
    ensures
        res == cell_order(opt_cell(a), opt_cell(b)),
{
    match (a, b) {
        (None, None) => Order::Equal,
        (Some(Cell::Null), Some(Cell::Null)) => Order::Equal,
        (None, _) => Order::Less,
        (Some(Cell::Null), _) => Order::Less,
        (_, None) => Order::Greater,
        (_, Some(Cell::Null)) => Order::Greater,
        (Some(x), Some(y)) => match (x, y) {
            (Cell::Int(m), Cell::Int(n)) => compare_i128(*m as i128, *n as i128),
            (Cell::UInt(m), Cell::UInt(n)) => compare_i128(*m as i128, *n as i128),
            (Cell::Int(m), Cell::UInt(n)) => compare_i128(*m as i128, *n as i128),
            (Cell::UInt(m), Cell::Int(n)) => compare_i128(*m as i128, *n as i128),
            (Cell::Float(m), Cell::Float(n)) => compare_reals(m, n),
            (Cell::Bool(m), Cell::Bool(n)) => if *m == *n {
                Order::Equal
            } else if *n {
                Order::Less
            } else {
                Order::Greater
            },
            _ => compare_texts(x.display().as_str(), y.display().as_str()),
        },
    }
}

/// The cell of row `r` in column `col`.
pub open spec fn key_of(rows: Seq<Seq<CellValue>>, col: int, r: int) -> Option<CellValue> {
    if 0 <= r < rows.len() && 0 <= col < rows[r].len() {
        Some(rows[r][col])
    } else {
        None
    }
}

/// How one row stands to another by column `col`.
pub open spec fn row_order(rows: Seq<Seq<CellValue>>, col: int, a: int, b: int) -> Order {
    cell_order(key_of(rows, col, a), key_of(rows, col, b))
}

/// Row `a` comes before row `b`: by column `col`, and in the order of the result
/// set where that does not tell them apart.
pub open spec fn comes_before(rows: Seq<Seq<CellValue>>, col: int, a: int, b: int) -> bool {
    row_order(rows, col, a, b) == Order::Less || (row_order(rows, col, a, b) == Order::Equal && a
        < b)
}

/// Comparing the rows by column `col` is consistent: every row equals itself,
/// comparing the other way round flips the order, and the order is transitive.
pub open spec fn consistent(rows: Seq<Seq<CellValue>>, col: int) -> bool {
    &&& forall|a: int| 0 <= a < rows.len() ==> #[trigger] row_order(rows, col, a, a) == Order::Equal
    &&& forall|a: int, b: int|
        0 <= a < rows.len() && 0 <= b < rows.len() ==> #[trigger] row_order(rows, col, b, a)
            == flipped(row_order(rows, col, a, b))
    &&& forall|a: int, b: int, c: int|
        #![trigger row_order(rows, col, a, b), row_order(rows, col, b, c)]
        0 <= a < rows.len() && 0 <= b < rows.len() && 0 <= c < rows.len() && row_order(
            rows,
            col,
            a,
            b,
        ) != Order::Greater && row_order(rows, col, b, c) != Order::Greater ==> {
            &&& row_order(rows, col, a, c) != Order::Greater
            &&& row_order(rows, col, a, b) == Order::Less || row_order(rows, col, b, c)
                == Order::Less ==> row_order(rows, col, a, c) == Order::Less
        }
}

/// The numbers from `lo` to `hi`, each once, in some order.
pub open spec fn rearranged(order: Seq<usize>, lo: int, hi: int) -> bool {
    &&& order.len() == hi - lo
    &&& order.no_duplicates()
    &&& forall|i: int| 0 <= i < order.len() ==> lo <= #[trigger] order[i] < hi
}

/// Each row comes before those after it.
pub open spec fn in_row_order(rows: Seq<Seq<CellValue>>, col: int, order: Seq<usize>) -> bool {
    forall|i: int, j: int|
        0 <= i < j < order.len() ==> comes_before(
            rows,
            col,
            (#[trigger] order[i]) as int,
            (#[trigger] order[j]) as int,
        )
}

proof fn lemma_before_transitive(rows: Seq<Seq<CellValue>>, col: int, a: int, b: int, c: int)
    requires
        consistent(rows, col),
        0 <= a < rows.len(),
        0 <= b < rows.len(),
        0 <= c < rows.len(),
        comes_before(rows, col, a, b),
        comes_before(rows, col, b, c),
    ensures
        comes_before(rows, col, a, c),
{
    let _ = row_order(rows, col, a, b);
    let _ = row_order(rows, col, b, c);
    if row_order(rows, col, a, c) == Order::Equal && a >= c {
        assert(row_order(rows, col, a, b) == Order::Equal);
    }
}

fn compare_rows(rows: &Vec<Vec<Cell>>, col: usize, a: usize, b: usize) -> (res: Order)
    ensures
        res == row_order(row_values_of(rows@), col as int, a as int, b as int),
{
    let ghost values = row_values_of(rows@);
    let ca = if a < rows.len() && col < rows[a].len() {
        assert(values[a as int] == cell_values(rows@[a as int]@));
        Some(&rows[a][col])
    } else {
        None
    };
    let cb = if b < rows.len() && col < rows[b].len() {
        assert(values[b as int] == cell_values(rows@[b as int]@));
        Some(&rows[b][col])
    } else {
        None
    };
    assert(a < values.len() ==> values[a as int].len() == rows@[a as int]@.len());
    assert(b < values.len() ==> values[b as int].len() == rows@[b as int]@.len());
    compare_cells(ca, cb)
}

/// What a merge has taken so far: only rows that were taken from either side.
spec fn taken(out: Seq<usize>, left: Seq<usize>, i: int, right: Seq<usize>, j: int) -> bool {
    &&& out.len() == i + j
    &&& forall|k: int|
        0 <= k < out.len() ==> left.take(i).contains(#[trigger] out[k]) || right.take(j).contains(
            out[k],
        )
}

/// Everything taken comes before everything that is left.
spec fn ahead(
    rows: Seq<Seq<CellValue>>,
    col: int,
    out: Seq<usize>,
    side: Seq<usize>,
    from: int,
) -> bool {
    forall|k: int, m: int|
        0 <= k < out.len() && from <= m < side.len() ==> comes_before(
            rows,
            col,
            (#[trigger] out[k]) as int,
            (#[trigger] side[m]) as int,
        )
}

proof fn lemma_take_next(
    rows: Seq<Seq<CellValue>>,
    col: int,
    out: Seq<usize>,
    from: Seq<usize>,
    i: int,
    other: Seq<usize>,
    j: int,
)
    requires
        consistent(rows, col),
        in_row_order(rows, col, out),
        in_row_order(rows, col, from),
        in_row_order(rows, col, other),
        0 <= i < from.len(),
        0 <= j <= other.len(),
        forall|k: int| 0 <= k < from.len() ==> 0 <= #[trigger] from[k] < rows.len(),
        forall|k: int| 0 <= k < other.len() ==> 0 <= #[trigger] other[k] < rows.len(),
        ahead(rows, col, out, from, i),
        ahead(rows, col, out, other, j),
        j < other.len() ==> comes_before(rows, col, from[i] as int, other[j] as int),
    ensures
        in_row_order(rows, col, out.push(from[i])),
        ahead(rows, col, out.push(from[i]), from, i + 1),
        ahead(rows, col, out.push(from[i]), other, j),
{
    let next = out.push(from[i]);
    assert forall|k: int, m: int| 0 <= k < next.len() && j <= m < other.len() implies comes_before(
        rows,
        col,
        (#[trigger] next[k]) as int,
        (#[trigger] other[m]) as int,
    ) by {
        if k == out.len() && m > j {
            lemma_before_transitive(rows, col, from[i] as int, other[j] as int, other[m] as int);
        }
    }
}

fn merge(
    rows: &Vec<Vec<Cell>>,
    col: usize,
    left: &Vec<usize>,
    right: &Vec<usize>,
    Ghost(lo): Ghost<int>,
    Ghost(mid): Ghost<int>,
    Ghost(hi): Ghost<int>,
) -> (res: Vec<usize>)
    requires
        0 <= lo <= mid <= hi <= rows@.len(),
        rearranged(left@, lo, mid),
        rearranged(right@, mid, hi),
    ensures
        rearranged(res@, lo, hi),
        consistent(row_values_of(rows@), col as int) && in_row_order(
            row_values_of(rows@),
            col as int,
            left@,
        ) && in_row_order(row_values_of(rows@), col as int, right@) ==> in_row_order(
            row_values_of(rows@),
            col as int,
            res@,
        ),
{
    let ghost values = row_values_of(rows@);
    let ghost good = consistent(values, col as int) && in_row_order(values, col as int, left@)
        && in_row_order(values, col as int, right@);
    let mut out: Vec<usize> = Vec::new();
    let mut i: usize = 0;
    let mut j: usize = 0;
    while i < left.len() || j < right.len()
        invariant
            values == row_values_of(rows@),
            0 <= lo <= mid <= hi <= rows@.len(),
            rearranged(left@, lo, mid),
            rearranged(right@, mid, hi),
            good == (consistent(values, col as int) && in_row_order(values, col as int, left@)
                && in_row_order(values, col as int, right@)),
            i <= left@.len(),
            j <= right@.len(),
            taken(out@, left@, i as int, right@, j as int),
            out@.no_duplicates(),
            good ==> in_row_order(values, col as int, out@) && ahead(
                values,
                col as int,
                out@,
                left@,
                i as int,
            ) && ahead(values, col as int, out@, right@, j as int),
        decreases left@.len() - i + right@.len() - j,
    {
        let from_left = if i >= left.len() {
            false
        } else if j >= right.len() {
            true
        } else {
            match compare_rows(rows, col, right[j], left[i]) {
                Order::Less => false,
                _ => true,
            }
        };
        let ghost before = out@;
        if from_left {
            out.push(left[i]);
            proof {
                if good {
                    if j < right@.len() {
                        let l = left@[i as int] as int;
                        let r = right@[j as int] as int;
                        assert(row_order(values, col as int, l, r) == flipped(
                            row_order(values, col as int, r, l),
                        ));
                    }
                    lemma_take_next(
                        values,
                        col as int,
                        before,
                        left@,
                        i as int,
                        right@,
                        j as int,
                    );
                }
                lemma_taken(before, left@, i as int, right@, j as int, lo, mid, hi);
            }
            i = i + 1;
        } else {
            out.push(right[j]);
            proof {
                if good {
                    lemma_take_next(
                        values,
                        col as int,
                        before,
                        right@,
                        j as int,
                        left@,
                        i as int,
                    );
                }
                lemma_taken(before, left@, i as int, right@, j as int, lo, mid, hi);
            }
            j = j + 1;
        }
    }
    proof {
        assert(left@.take(i as int) =~= left@);
        assert(right@.take(j as int) =~= right@);
        assert forall|k: int| 0 <= k < out@.len() implies lo <= #[trigger] out@[k] < hi by {
            if left@.contains(out@[k]) {
                let m = choose|m: int| 0 <= m < left@.len() && left@[m] == out@[k];
                assert(lo <= left@[m] < mid);
            } else {
                assert(right@.contains(out@[k]));
                let m = choose|m: int| 0 <= m < right@.len() && right@[m] == out@[k];
                assert(mid <= right@[m] < hi);
            }
        }
    }
    out
}

proof fn lemma_taken(
    out: Seq<usize>,
    left: Seq<usize>,
    i: int,
    right: Seq<usize>,
    j: int,
    lo: int,
    mid: int,
    hi: int,
)
    requires
        rearranged(left, lo, mid),
        rearranged(right, mid, hi),
        0 <= i <= left.len(),
        0 <= j <= right.len(),
        taken(out, left, i, right, j),
        out.no_duplicates(),
    ensures
        i < left.len() ==> taken(out.push(left[i]), left, i + 1, right, j) && out.push(
            left[i],
        ).no_duplicates(),
        j < right.len() ==> taken(out.push(right[j]), left, i, right, j + 1) && out.push(
            right[j],
        ).no_duplicates(),
{
    let a = left.take(i);
    let b = right.take(j);
    assert forall|k: int| 0 <= k < out.len() implies (#[trigger] out[k] < mid ==> exists|m: int|
        0 <= m < i && left[m] == out[k]) && (out[k] >= mid ==> exists|m: int|
        0 <= m < j && right[m] == out[k]) by {
        if a.contains(out[k]) {
            let m = choose|m: int| 0 <= m < a.len() && a[m] == out[k];
            assert(left[m] == out[k]);
        } else {
            assert(b.contains(out[k]));
            let m = choose|m: int| 0 <= m < b.len() && b[m] == out[k];
            assert(right[m] == out[k]);
        }
    }
    if i < left.len() {
        let next = out.push(left[i]);
        let a1 = left.take(i + 1);
        assert forall|k: int| 0 <= k < next.len() implies a1.contains(#[trigger] next[k])
            || b.contains(next[k]) by {
            if k < out.len() {
                if a.contains(out[k]) {
                    let m = choose|m: int| 0 <= m < a.len() && a[m] == out[k];
                    assert(a1[m] == out[k]);
                }
            } else {
                assert(a1[i] == left[i]);
            }
        }
        assert forall|k: int| 0 <= k < out.len() implies #[trigger] out[k] != left[i] by {
            if out[k] == left[i] {
                let m = choose|m: int| 0 <= m < i && left[m] == out[k];
                assert(left[m] == left[i]);
            }
        }
    }
    if j < right.len() {
        let next = out.push(right[j]);
        let b1 = right.take(j + 1);
        assert forall|k: int| 0 <= k < next.len() implies a.contains(#[trigger] next[k])
            || b1.contains(next[k]) by {
            if k < out.len() {
                if b.contains(out[k]) {
                    let m = choose|m: int| 0 <= m < b.len() && b[m] == out[k];
                    assert(b1[m] == out[k]);
                }
            } else {
                assert(b1[j] == right[j]);
            }
        }
        assert forall|k: int| 0 <= k < out.len() implies #[trigger] out[k] != right[j] by {
            if out[k] == right[j] {
                let m = choose|m: int| 0 <= m < j && right[m] == out[k];
                assert(right[m] == right[j]);
            }
        }
    }
}

/// The rows from `lo` to `hi` in the order of column `col`. Rows that compare
/// equal keep their order.
fn sort_rows(rows: &Vec<Vec<Cell>>, col: usize, lo: usize, hi: usize) -> (res: Vec<usize>)
    requires
        lo <= hi <= rows@.len(),
    ensures
        rearranged(res@, lo as int, hi as int),
        consistent(row_values_of(rows@), col as int) ==> in_row_order(
            row_values_of(rows@),
            col as int,
            res@,
        ),
    decreases hi - lo,
{
    if hi - lo == 0 {
        return Vec::new();
    }
    if hi - lo == 1 {
        return vec![lo];
    }
    let mid: usize = lo + (hi - lo) / 2;
    let left = sort_rows(rows, col, lo, mid);
    let right = sort_rows(rows, col, mid, hi);
    merge(
        rows,
        col,
        &left,
        &right,
        Ghost(lo as int),
        Ghost(mid as int),
        Ghost(hi as int),
    )
}

/// The numbers below `n`, in order.
pub open spec fn count_up(n: nat) -> Seq<usize> {
    Seq::new(n, |i: int| i as usize)
}

fn first_numbers(n: usize) -> (res: Vec<usize>)
    ensures
        res@ == count_up(n as nat),
{
    let mut out: Vec<usize> = Vec::new();
    let mut i: usize = 0;
    while i < n
        invariant
            i <= n,
            out@ == count_up(i as nat),
        decreases n - i,
    {
        out.push(i);
        i = i + 1;
        assert(out@ =~= count_up(i as nat));
    }
    out
}

fn reverse(order: &Vec<usize>) -> (res: Vec<usize>)
    ensures
        res@ == order@.reverse(),
{
    let mut out: Vec<usize> = Vec::new();
    let mut i: usize = order.len();
    while i > 0
        invariant
            i <= order@.len(),
            out@.len() == order@.len() - i,
            forall|k: int| 0 <= k < out@.len() ==> out@[k] == order@[order@.len() - 1 - k],
        decreases i,
    {
        i = i - 1;
        out.push(order[i]);
    }
    assert(out@ =~= order@.reverse());
    out
}

/// A result set in a tab, with the order in which its rows are shown.
#[derive(Debug)]
pub struct ResultTab {
    pub label: String,
    pub result: QueryResult,
    /// `order[i]` is the number of the row that is shown at place `i`.
    pub order: Vec<usize>,
    pub sort_by: Option<(usize, SortOrder)>,
}

impl ResultTab {
    /// The values of the rows.
    pub open spec fn rows(self) -> Seq<Seq<CellValue>> {
        row_values_of(self.result.rows@)
    }

    /// Every row is shown once.
    pub open spec fn wf(self) -> bool {
        rearranged(self.order@, 0, self.rows().len() as int)
    }

    /// The rows are shown in the order that `sort_by` asks for. Where comparing
    /// them is not consistent, only that each is shown.
    pub open spec fn is_sorted(self) -> bool {
        match self.sort_by {
            None => self.order@ == count_up(self.rows().len()),
            Some((col, dir)) => self.wf() && (consistent(self.rows(), col as int) ==> match dir {
                SortOrder::Asc => in_row_order(self.rows(), col as int, self.order@),
                SortOrder::Desc => in_row_order(
                    self.rows(),
                    col as int,
                    self.order@.reverse(),
                ),
            }),
        }
    }

    /// A tab that shows the rows as they came.
    pub fn new(label: String, result: QueryResult) -> (res: ResultTab)
        ensures
            res.label == label,
            res.result == result,
            res.sort_by is None,
            res.wf(),
            res.is_sorted(),
    {
        let order = first_numbers(result.rows.len());
        ResultTab { label, result, order, sort_by: None }
    }

    /// Bring the order of the rows in line with `sort_by`.
    pub fn apply_sort(&mut self)
        ensures
            final(self).label == old(self).label,
            final(self).result == old(self).result,
            final(self).sort_by == old(self).sort_by,
            final(self).wf(),
            final(self).is_sorted(),
    {
        let count: usize = self.result.rows.len();
        match self.sort_by {
            None => {
                self.order = first_numbers(count);
            },
            Some((col, dir)) => {
                let sorted = sort_rows(&self.result.rows, col, 0, count);
                match dir {
                    SortOrder::Asc => {
                        self.order = sorted;
                    },
                    SortOrder::Desc => {
                        self.order = reverse(&sorted);
                        proof {
                            let back = sorted@.reverse();
                            assert(back.reverse() =~= sorted@);
                            assert forall|i: int| 0 <= i < back.len() implies 0
                                <= #[trigger] back[i] < count by {
                                assert(back[i] == sorted@[sorted@.len() - 1 - i]);
                            }
                            assert(back.no_duplicates());
                        }
                    },
                }
            },
        }
    }

    /// A click on the header of column `col`: ascending first, then descending,
    /// then as the rows came.
    pub fn cycle_sort(&mut self, col: usize)
        ensures
            final(self).label == old(self).label,
            final(self).result == old(self).result,
            final(self).sort_by == next_sort(old(self).sort_by, col),
            final(self).wf(),
            final(self).is_sorted(),
    {
        self.sort_by = match self.sort_by {
            Some((c, dir)) => if c == col {
                match dir {
                    SortOrder::Asc => Some((col, SortOrder::Desc)),
                    SortOrder::Desc => None,
                }
            } else {
                Some((col, SortOrder::Asc))
            },
            None => Some((col, SortOrder::Asc)),
        };
        self.apply_sort();
    }
}

/// The sort after a click on the header of column `col`.
pub open spec fn next_sort(sort_by: Option<(usize, SortOrder)>, col: usize) -> Option<
    (usize, SortOrder),
> {
    if sort_by == Some((col, SortOrder::Asc)) {
        Some((col, SortOrder::Desc))
    } else if sort_by == Some((col, SortOrder::Desc)) {
        None
    } else {
        Some((col, SortOrder::Asc))
    }
}

/// Three clicks on the same header bring the rows back as they came.
pub proof fn law_three_clicks(col: usize)
    ensures
        next_sort(next_sort(next_sort(None, col), col), col) is None,
{
}

/// Kinds of cells that compare consistently with each other.
#[derive(PartialEq, Eq, Structural)]
pub enum SortClass {
    Number,
    Real,
    Truth,
    Text,
}

/// The kind of a cell. `NULL`, which compares with everything, and a NaN, which
/// does not compare, have none.
pub open spec fn sort_class(v: CellValue) -> Option<SortClass> {
    match v {
        CellValue::Null => None,
        CellValue::Int(_) => Some(SortClass::Number),
        CellValue::UInt(_) => Some(SortClass::Number),
        CellValue::Float { bits, text: _ } => if nan_bits(bits) {
            None
        } else {
            Some(SortClass::Real)
        },
        CellValue::Bool(_) => Some(SortClass::Truth),
        CellValue::Text(_) => Some(SortClass::Text),
        CellValue::Blob(_) => Some(SortClass::Text),
        CellValue::Json(_) => Some(SortClass::Text),
    }
}

/// Every row has a cell in column `col`, which is `NULL` or of kind `class`.
pub open spec fn uniform(rows: Seq<Seq<CellValue>>, col: int, class: SortClass) -> bool {
    forall|r: int|
        0 <= r < rows.len() ==> {
            let key = #[trigger] key_of(rows, col, r);
            key is Some && (key->0 is Null || sort_class(key->0) == Some(class))
        }
}

proof fn lemma_cells(a: CellValue, b: CellValue, c: CellValue, class: SortClass)
    requires
        a is Null || sort_class(a) == Some(class),
        b is Null || sort_class(b) == Some(class),
        c is Null || sort_class(c) == Some(class),
    ensures
        cell_order(Some(a), Some(a)) == Order::Equal,
        cell_order(Some(b), Some(a)) == flipped(cell_order(Some(a), Some(b))),
        cell_order(Some(a), Some(b)) != Order::Greater && cell_order(Some(b), Some(c))
            != Order::Greater ==> {
            &&& cell_order(Some(a), Some(c)) != Order::Greater
            &&& cell_order(Some(a), Some(b)) == Order::Less || cell_order(Some(b), Some(c))
                == Order::Less ==> cell_order(Some(a), Some(c)) == Order::Less
        },
{
    let (x, y, z) = (cell_text(a), cell_text(b), cell_text(c));
    lemma_text_order_equal(x, x);
    lemma_text_order_flipped(x, y);
    if text_order(x, y) != Order::Greater && text_order(y, z) != Order::Greater {
        lemma_text_order_transitive(x, y, z);
    }
}

/// A column whose cells are of one kind is sorted in full: comparing its cells
/// is consistent.
pub proof fn law_uniform_column_sorts(rows: Seq<Seq<CellValue>>, col: int, class: SortClass)
    requires
        uniform(rows, col, class),
    ensures
        consistent(rows, col),
{
    assert forall|a: int, b: int, c: int|
        0 <= a < rows.len() && 0 <= b < rows.len() && 0 <= c < rows.len() implies row_order(
        rows,
        col,
        a,
        a,
    ) == Order::Equal && #[trigger] row_order(rows, col, b, a) == flipped(
        row_order(rows, col, a, b),
    ) && (row_order(rows, col, a, b) != Order::Greater && #[trigger] row_order(rows, col, b, c)
        != Order::Greater ==> {
        &&& row_order(rows, col, a, c) != Order::Greater
        &&& row_order(rows, col, a, b) == Order::Less || row_order(rows, col, b, c) == Order::Less
            ==> row_order(rows, col, a, c) == Order::Less
    }) by {
        let (x, y, z) = (key_of(rows, col, a), key_of(rows, col, b), key_of(rows, col, c));
        lemma_cells(x->0, y->0, z->0, class);
    }
    assert forall|a: int| 0 <= a < rows.len() implies #[trigger] row_order(rows, col, a, a)
        == Order::Equal by {
        let _ = row_order(rows, col, a, a);
    }
    assert forall|a: int, b: int| 0 <= a < rows.len() && 0 <= b < rows.len() implies
        #[trigger] row_order(rows, col, b, a) == flipped(row_order(rows, col, a, b)) by {
        let _ = row_order(rows, col, b, b);
    }
    assert forall|a: int, b: int, c: int|
        #![trigger row_order(rows, col, a, b), row_order(rows, col, b, c)]
        0 <= a < rows.len() && 0 <= b < rows.len() && 0 <= c < rows.len() && row_order(
            rows,
            col,
            a,
            b,
        ) != Order::Greater && row_order(rows, col, b, c) != Order::Greater implies row_order(
        rows,
        col,
        a,
        c,
    ) != Order::Greater && (row_order(rows, col, a, b) == Order::Less || row_order(rows, col, b, c)
        == Order::Less ==> row_order(rows, col, a, c) == Order::Less) by {
        let _ = row_order(rows, col, b, a);
    }
}

/// Integers are ordered as numbers, whatever their signedness.
pub proof fn law_integers_by_value(a: CellValue, b: CellValue, m: int, n: int)
    requires
        a == CellValue::Int(m as i64) && i64::MIN <= m <= i64::MAX || a == CellValue::UInt(m as u64)
            && 0 <= m <= u64::MAX,
        b == CellValue::Int(n as i64) && i64::MIN <= n <= i64::MAX || b == CellValue::UInt(n as u64)
            && 0 <= n <= u64::MAX,
    ensures
        cell_order(Some(a), Some(b)) == Order::Less <==> m < n,
        cell_order(Some(a), Some(b)) == Order::Equal <==> m == n,
        cell_order(Some(a), Some(b)) == Order::Greater <==> m > n,
{
}

/// Floating-point cells are ordered as the numbers that their sign, exponent and
/// fraction stand for, the infinities at the ends; a NaN stands to every number
/// as its equal.
pub proof fn law_reals_by_value(a: u64, b: u64, x: Seq<char>, y: Seq<char>)
    ensures
        ({
            let order = cell_order(
                Some(CellValue::Float { bits: a, text: x }),
                Some(CellValue::Float { bits: b, text: y }),
            );
            if is_number(a) && is_number(b) {
                &&& order == Order::Less <==> number_of(a) < number_of(b)
                &&& order == Order::Equal <==> number_of(a) == number_of(b)
                &&& order == Order::Greater <==> number_of(a) > number_of(b)
            } else {
                order == Order::Equal
            }
        }),
{
    law_number_line(a, b);
    law_finite_and_nan(a);
    law_finite_and_nan(b);
}

/// Texts are ordered by the first character in which they differ, and a text
/// comes before a longer one that begins with it. Cells of different kinds are
/// ordered by the texts shown.
pub proof fn law_texts_by_first_difference(a: Seq<char>, b: Seq<char>, k: int)
    requires
        0 <= k <= a.len(),
        k <= b.len(),
        a.take(k) == b.take(k),
    ensures
        ({
            let order = cell_order(Some(CellValue::Text(a)), Some(CellValue::Text(b)));
            &&& k < a.len() && k < b.len() && a[k] < b[k] ==> order == Order::Less
            &&& k < a.len() && k < b.len() && a[k] > b[k] ==> order == Order::Greater
            &&& k == a.len() && k < b.len() ==> order == Order::Less
            &&& k < a.len() && k == b.len() ==> order == Order::Greater
            &&& k == a.len() && k == b.len() ==> order == Order::Equal
        }),
{
    law_text_order(a, b, k);
}

/// `NULL` comes before every value, and false before true.
pub proof fn law_null_first(v: CellValue)
    requires
        !(v is Null),
    ensures
        cell_order(Some(CellValue::Null), Some(v)) == Order::Less,
        cell_order(Some(v), Some(CellValue::Null)) == Order::Greater,
        cell_order(Some(CellValue::Null), Some(CellValue::Null)) == Order::Equal,
        cell_order(Some(CellValue::Bool(false)), Some(CellValue::Bool(true))) == Order::Less,
        cell_order(Some(CellValue::Bool(true)), Some(CellValue::Bool(false))) == Order::Greater,
{
}

/// A sorted tab shows every row once. Where the cells of the column are of one
/// kind, a row is never shown before one that it is greater than (smaller, for a
/// descending sort), and rows that compare equal keep their order (in reverse,
/// for a descending sort).
pub proof fn law_sorted_tab(
    tab: ResultTab,
    col: usize,
    dir: SortOrder,
    class: SortClass,
    i: int,
    j: int,
)
    requires
        tab.is_sorted(),
        tab.sort_by == Some((col, dir)),
        uniform(tab.rows(), col as int, class),
        0 <= i < j < tab.order@.len(),
    ensures
        tab.order@.len() == tab.rows().len(),
        tab.order@[i] != tab.order@[j],
        0 <= tab.order@[i] < tab.rows().len(),
        ({
            let a = tab.order@[i] as int;
            let b = tab.order@[j] as int;
            let order = cell_order(
                Some(tab.rows()[a][col as int]),
                Some(tab.rows()[b][col as int]),
            );
            match dir {
                SortOrder::Asc => order == Order::Less || (order == Order::Equal && a < b),
                SortOrder::Desc => order == Order::Greater || (order == Order::Equal && a > b),
            }
        }),
{
    let rows = tab.rows();
    law_uniform_column_sorts(rows, col as int, class);
    let a = tab.order@[i] as int;
    let b = tab.order@[j] as int;
    assert(key_of(rows, col as int, a) is Some);
    assert(key_of(rows, col as int, b) is Some);
    if dir == SortOrder::Desc {
        let back = tab.order@.reverse();
        let n = back.len();
        assert(back[n - 1 - j] == tab.order@[j]);
        assert(back[n - 1 - i] == tab.order@[i]);
        assert(comes_before(rows, col as int, b, a));
        assert(row_order(rows, col as int, a, b) == flipped(row_order(rows, col as int, b, a)));
    }
}

/// A tab that is not sorted shows the rows as they came.
pub proof fn law_unsorted_tab(tab: ResultTab, i: int)
    requires
        tab.is_sorted(),
        tab.sort_by is None,
        tab.rows().len() <= usize::MAX,
        0 <= i < tab.rows().len(),
    ensures
        tab.order@.len() == tab.rows().len(),
        tab.order@[i] == i,
{
}

/// A first click on a header sorts by its column, ascending; a second one,
/// descending.
pub proof fn law_clicks_sort(col: usize, other: usize, dir: SortOrder)
    requires
        other != col,
    ensures
        next_sort(None, col) == Some((col, SortOrder::Asc)),
        next_sort(Some((other, dir)), col) == Some((col, SortOrder::Asc)),
        next_sort(Some((col, SortOrder::Asc)), col) == Some((col, SortOrder::Desc)),
        next_sort(Some((col, SortOrder::Desc)), col) is None,
{
}

/// Largest number of result tabs that are kept.
pub const MAX_TABS: usize = 16;

/// The result tabs, and the one that is shown.
#[derive(Debug)]
pub struct ResultsState {
    pub tabs: Vec<ResultTab>,
    pub active: usize,
}

impl Default for ResultsState {
    fn default() -> (res: ResultsState)
        ensures
            res.tabs@.len() == 0,
            res.active == 0,
    {
        ResultsState { tabs: Vec::new(), active: 0 }
    }
}

/// `tabs` with one more at the end, and without the oldest where there are too
/// many.
pub open spec fn tabs_with(tabs: Seq<ResultTab>, tab: ResultTab) -> Seq<ResultTab> {
    if tabs.len() >= MAX_TABS {
        tabs.push(tab).remove(0)
    } else {
        tabs.push(tab)
    }
}

impl ResultsState {
    /// Whether there are no tabs.
    pub fn is_empty(&self) -> (res: bool)
        ensures
            res == (self.tabs@.len() == 0),
    {
        self.tabs.len() == 0
    }

    /// Add a tab at the end and show it. The oldest tab goes where there are too
    /// many.
    pub fn push(&mut self, tab: ResultTab)
        ensures
            final(self).tabs@ == tabs_with(old(self).tabs@, tab),
            final(self).active == final(self).tabs@.len() - 1,
            old(self).tabs@.len() <= MAX_TABS ==> final(self).tabs@.len() <= MAX_TABS,
    {
        self.tabs.push(tab);
        if self.tabs.len() > MAX_TABS {
            self.tabs.remove(0);
        }
        self.active = self.tabs.len() - 1;
    }

    /// Close the tab at `idx`, if there is one. Where the tab that was shown is
    /// gone, the last one is shown.
    pub fn close(&mut self, idx: usize)
        ensures
            idx >= old(self).tabs@.len() ==> final(self).tabs@ == old(self).tabs@
                && final(self).active == old(self).active,
            idx < old(self).tabs@.len() ==> {
                let left = old(self).tabs@.remove(idx as int);
                &&& final(self).tabs@ == left
                &&& final(self).active == (if old(self).active < left.len() {
                    old(self).active as int
                } else if left.len() == 0 {
                    0
                } else {
                    left.len() - 1
                })
            },
    {
        if idx >= self.tabs.len() {
            return;
        }
        self.tabs.remove(idx);
        if self.active >= self.tabs.len() && self.active > 0 {
            self.active = if self.tabs.len() == 0 {
                0
            } else {
                self.tabs.len() - 1
            };
        }
    }
}

/// Format of a copied result set.
#[derive(Debug, Clone, Copy, PartialEq, Eq, Structural)]
pub enum ExportFormat {
    Csv,
    Tsv,
    Insert,
}

/// What the user wants done with the result tabs.
#[derive(Debug, Clone)]
pub enum ResultsAction {
    SelectTab(usize),
    CloseTab(usize),
    CopyText(String),
    Export { tab_id: u64, format: ExportFormat },
}

/// Title of a tab: its label and the number of its rows.
pub open spec fn tab_label(label: Seq<char>, rows: nat) -> Seq<char> {
    label + "  ("@ + decimal(rows) + " rows)"@
}

/// Title of a tab.
pub fn tab_title(tab: &ResultTab) -> (res: String)
    ensures
        res@ == tab_label(tab.label@, tab.rows().len()),
{
    let mut out = tab.label.clone();
    out.append("  (");
    out.append(usize_text(tab.result.rows.len()).as_str());
    out.append(" rows)");
    out
}

/// What clicks on the tab strip ask for: showing another tab, and closing one.
pub fn strip_actions(active: usize, clicked: Option<usize>, closed: Option<usize>) -> (res: Vec<
    ResultsAction,
>)
    ensures
        res@ == (if clicked matches Some(i) && i != active {
            seq![ResultsAction::SelectTab(clicked->0)]
        } else {
            seq![]
        }) + (match closed {
            Some(i) => seq![ResultsAction::CloseTab(i)],
            None => seq![],
        }),
{
    let mut out: Vec<ResultsAction> = Vec::new();
    let ghost first = if clicked matches Some(i) && i != active {
        seq![ResultsAction::SelectTab(clicked->0)]
    } else {
        seq![]
    };
    if let Some(i) = clicked {
        if i != active {
            out.push(ResultsAction::SelectTab(i));
        }
    }
    assert(out@ =~= first);
    if let Some(i) = closed {
        out.push(ResultsAction::CloseTab(i));
        assert(out@ =~= first + seq![ResultsAction::CloseTab(i)]);
    } else {
        assert(out@ =~= first + Seq::<ResultsAction>::empty());
    }
    out
}

/// Title of a column: its name, and an arrow where the rows are sorted by it.
pub open spec fn header_text(name: Seq<char>, sort_by: Option<(usize, SortOrder)>, col: usize) -> Seq<
    char,
> {
    if sort_by == Some((col, SortOrder::Asc)) {
        name + "  ▲"@
    } else if sort_by == Some((col, SortOrder::Desc)) {
        name + "  ▼"@
    } else {
        name
    }
}

/// Title of a column.
pub fn header_label(name: &str, sort_by: Option<(usize, SortOrder)>, col: usize) -> (res: String)
    ensures
        res@ == header_text(name@, sort_by, col),
{
    let mut out = name.to_string();
    if let Some((c, dir)) = sort_by {
        if c == col {
            match dir {
                SortOrder::Asc => {
                    out.append("  ▲");
                },
                SortOrder::Desc => {
                    out.append("  ▼");
                },
            }
        }
    }
    out
}

/// How a cell is drawn.
#[derive(Debug, Clone, Copy, PartialEq, Eq, Structural)]
pub enum CellTone {
    Null,
    Blob,
    Json,
    Plain,
}

/// What is drawn for a cell: its text, how it is drawn, and the text of its
/// tooltip where it has one.
#[derive(Debug, Clone)]
pub struct CellLabel {
    pub text: String,
    pub tone: CellTone,
    pub hover: Option<String>,
}

/// What is drawn for a cell.
pub open spec fn label_for(v: CellValue) -> (Seq<char>, CellTone, Option<Seq<char>>) {
    match v {
        CellValue::Null => ("NULL"@, CellTone::Null, None),
        CellValue::Blob(_) => (cell_text(v), CellTone::Blob, None),
        CellValue::Json(s) => (first_chars(s, 120), CellTone::Json, Some(s)),
        _ => (
            first_chars(cell_text(v), 160),
            CellTone::Plain,
            if byte_len(cell_text(v)) > 160 {
                Some(cell_text(v))
            } else {
                None
            },
        ),
    }
}

/// What is drawn for a cell. Long text is cut off; its tooltip shows all of it.
pub fn cell_label(cell: &Cell) -> (res: CellLabel)
    ensures
        (res.text@, res.tone, opt_text(res.hover)) == label_for(cell@),
{
    match cell {
        Cell::Null => CellLabel { text: "NULL".to_string(), tone: CellTone::Null, hover: None },
        Cell::Blob(_) => CellLabel { text: cell.display(), tone: CellTone::Blob, hover: None },
        Cell::Json(s) => CellLabel {
            text: shorten(s.as_str(), 120),
            tone: CellTone::Json,
            hover: Some(s.clone()),
        },
        _ => {
            let text = cell.display();
            let short = shorten(text.as_str(), 160);
            let hover = if text.as_str().as_bytes().len() > 160 {
                Some(text)
            } else {
                None
            };
            CellLabel { text: short, tone: CellTone::Plain, hover }
        },
    }
}

/// What is shown in place of a result set without columns.
pub fn no_rows_label(elapsed: Elapsed) -> (res: String)
    requires
        elapsed.wf(),
    ensures
        res@ == "(no rows · "@ + shown_duration(elapsed.secs, elapsed.nanos) + ")"@,
{
    let mut out = "(no rows · ".to_string();
    out.append(elapsed.text().as_str());
    out.append(")");
    out
}

/// The tooltip of a column header.
pub fn header_hover(column: &ColumnMeta) -> (res: String)
    ensures
        res@ == column.sql_type@ + " · click to sort"@,
{
    let mut out = column.sql_type.clone();
    out.append(" · click to sort");
    out
}

/// The number shown before a row, counted from one in the order of arrival.
pub fn row_number(tab: &ResultTab, place: usize) -> (res: String)
    requires
        tab.wf(),
        place < tab.order@.len(),
        tab.rows().len() <= usize::MAX,
    ensures
        res@ == decimal((tab.order@[place as int] + 1) as nat),
{
    let row: usize = tab.order[place];
    assert(row < tab.rows().len());
    usize_text(row + 1)
}

/// A new tab comes last. The others keep their order, and only where there are
/// too many does one go, the oldest.
pub proof fn law_new_tab_comes_last(tabs: Seq<ResultTab>, tab: ResultTab)
    requires
        tabs.len() <= 16,
    ensures
        tabs_with(tabs, tab).last() == tab,
        tabs_with(tabs, tab).len() <= 16,
        tabs.len() < 16 ==> tabs_with(tabs, tab).drop_last() == tabs,
        tabs.len() == 16 ==> tabs_with(tabs, tab).drop_last() == tabs.skip(1),
{
    let all = tabs_with(tabs, tab);
    if tabs.len() < 16 {
        assert(all.drop_last() =~= tabs);
    } else {
        assert(all.drop_last() =~= tabs.skip(1));
    }
}

/// A column header shows the name of its column, and after it an arrow where the
/// rows are sorted by it: upwards where they ascend, downwards where they descend.
pub proof fn law_header_arrows(name: Seq<char>, sort_by: Option<(usize, SortOrder)>, col: usize)
    ensures
        begins_with(header_text(name, sort_by, col), name),
        header_text(name, sort_by, col) == name <==> (sort_by matches Some((c, _)) ==> c != col),
        sort_by == Some((col, SortOrder::Asc)) ==> header_text(name, sort_by, col).last() == '▲',
        sort_by == Some((col, SortOrder::Desc)) ==> header_text(name, sort_by, col).last() == '▼',
{
    reveal_strlit("  ▲");
    reveal_strlit("  ▼");
    let h = header_text(name, sort_by, col);
    assert(h.subrange(0, name.len() as int) =~= name);
    match sort_by {
        Some((c, dir)) => {
            if c == col {
                assert(dir == SortOrder::Asc || dir == SortOrder::Desc);
                assert(h.len() == name.len() + 3);
            }
        },
        None => {},
    }
}

/// A cell shows the beginning of its text, and where that is not all of it, the
/// tooltip shows the whole. A missing value is told from an empty text.
pub proof fn law_cells_can_be_read_in_full(v: CellValue)
    ensures
        v !is Null ==> label_for(v).0 == cell_text(v).take(label_for(v).0.len() as int)
            && label_for(v).0.len() <= cell_text(v).len(),
        v !is Null && v !is Blob && label_for(v).0 != cell_text(v) ==> label_for(v).2 == Some(
            cell_text(v),
        ),
        v !is Null && v !is Blob ==> label_for(v).0.len() <= 160,
        v is Blob ==> label_for(v).0 == cell_text(v),
        v is Json ==> label_for(v).2 == Some(cell_text(v)),
        v !is Null && v !is Blob && cell_text(v).len() <= 120 ==> label_for(v).0 == cell_text(v),
        v is Null ==> label_for(v).0 == "NULL"@ && label_for(v).2 is None,
        v is Null <==> label_for(v).1 == CellTone::Null,
        v is Blob <==> label_for(v).1 == CellTone::Blob,
        v is Json <==> label_for(v).1 == CellTone::Json,
{
    let text = cell_text(v);
    assert(text.take(text.len() as int) =~= text);
    lemma_bytes_for_chars(text);
}

proof fn lemma_bytes_for_chars(s: Seq<char>)
    ensures
        byte_len(s) >= s.len(),
{
    lemma_prefix_len(s, 0, s.len() as int);
    assert(s.take(0) =~= Seq::<char>::empty());
    assert(s.take(s.len() as int) =~= s);
}

/// The title of a tab is its label and, in parentheses, the number of its rows.
pub proof fn law_tab_titles(label: Seq<char>, rows: nat)
    ensures
        exists|digits: Seq<char>|
            tab_label(label, rows) == label + "  ("@ + digits + " rows)"@ && #[trigger] digits_read(
                digits,
            ) == Some(rows),
{
    law_decimal_reads_back(rows);
}

/// Two integers, two other numbers or two truth values.
pub open spec fn of_one_kind(a: CellValue, b: CellValue) -> bool {
    ||| (a is Int || a is UInt) && (b is Int || b is UInt)
    ||| a is Float && b is Float
    ||| a is Bool && b is Bool
}

/// Cells that are not both integers, both other numbers or both truth values are
/// ordered by the texts that are shown. A cell that a row does not have comes
/// before every value.
pub proof fn law_other_cells_by_text(a: CellValue, b: CellValue)
    requires
        a !is Null,
        b !is Null,
    ensures
        !of_one_kind(a, b) ==> cell_order(Some(a), Some(b)) == text_order(cell_text(a), cell_text(b)),
        cell_order(None, Some(a)) == Order::Less,
        cell_order(Some(a), None) == Order::Greater,
        cell_order(None, None) == Order::Equal,
{
}

} // verus!
