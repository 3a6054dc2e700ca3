//! The order of texts: by their characters, from the first on.

use vstd::prelude::*;

use crate::text::to_chars;

verus! {

/// How one value stands to another.
#[derive(Debug, Clone, Copy, PartialEq, Eq, Structural)]
pub enum Order {
    Less,
    Equal,
    Greater,
}

/// The order seen from the other side.
pub open spec fn flipped(o: Order) -> Order {
    match o {
        Order::Less => Order::Greater,
        Order::Equal => Order::Equal,
        Order::Greater => Order::Less,
    }
}

/// How one number stands to another.
pub open spec fn int_order(a: int, b: int) -> Order {
    if a < b {
        Order::Less
    } else if a == b {
        Order::Equal
    } else {
        Order::Greater
    }
}

/// How one text stands to another: by the first character in which they
/// differ, and by length where one begins with the other.
pub open spec fn text_order(a: Seq<char>, b: Seq<char>) -> Order
    decreases a.len(),
{
    if a.len() == 0 || b.len() == 0 {
        int_order(a.len() as int, b.len() as int)
    } else if a[0] == b[0] {
        text_order(a.drop_first(), b.drop_first())
    } else {
        int_order(a[0] as int, b[0] as int)
    }
}

/// How one text stands to another.
pub fn compare_texts(a: &str, b: &str) -> (res: Order)
    ensures
        res == text_order(a@, b@),
{
    let x = to_chars(a);
    let y = to_chars(b);
    let mut i: usize = 0;
    assert(x@.skip(0) =~= x@);
    assert(y@.skip(0) =~= y@);
    while i < x.len() && i < y.len()
        invariant
            i <= x@.len(),
            i <= y@.len(),
            x@ == a@,
            y@ == b@,
            text_order(x@, y@) == text_order(x@.skip(i as int), y@.skip(i as int)),
        decreases x@.len() - i,
    {
        if x[i] != y[i] {
            return if x[i] < y[i] {
                Order::Less
            } else {
                Order::Greater
            };
        }
        assert(x@.skip(i as int).drop_first() =~= x@.skip(i + 1));
        assert(y@.skip(i as int).drop_first() =~= y@.skip(i + 1));
        i = i + 1;
    }
    if i < y.len() {
        Order::Less
    } else if i < x.len() {
        Order::Greater
    } else {
        Order::Equal
    }
}

/// Only equal texts compare equal.
pub proof fn lemma_text_order_equal(a: Seq<char>, b: Seq<char>)
    ensures
        text_order(a, b) == Order::Equal <==> a == b,
    decreases a.len(),
{
    if a.len() == 0 || b.len() == 0 {
        if a.len() == b.len() {
            assert(a =~= b);
        }
    } else if a[0] == b[0] {
        lemma_text_order_equal(a.drop_first(), b.drop_first());
        if a.drop_first() == b.drop_first() {
            assert(a =~= seq![a[0]] + a.drop_first());
            assert(b =~= seq![b[0]] + b.drop_first());
        }
    }
}

/// Comparing the other way round flips the order.
pub proof fn lemma_text_order_flipped(a: Seq<char>, b: Seq<char>)
    ensures
        text_order(b, a) == flipped(text_order(a, b)),
    decreases a.len(),
{
    if a.len() > 0 && b.len() > 0 && a[0] == b[0] {
        lemma_text_order_flipped(a.drop_first(), b.drop_first());
    }
}

/// The order of texts is transitive.
pub proof fn lemma_text_order_transitive(a: Seq<char>, b: Seq<char>, c: Seq<char>)
    requires
        text_order(a, b) != Order::Greater,
        text_order(b, c) != Order::Greater,
    ensures
        text_order(a, c) != Order::Greater,
        text_order(a, b) == Order::Less || text_order(b, c) == Order::Less ==> text_order(a, c)
            == Order::Less,
    decreases a.len(),
{
    if a.len() > 0 && b.len() > 0 && c.len() > 0 {
        if a[0] == b[0] && b[0] == c[0] {
            lemma_text_order_transitive(a.drop_first(), b.drop_first(), c.drop_first());
        }
    }
}

/// Texts that agree in their first `k` characters are ordered by the next one,
/// and one that ends there comes before one that goes on.
pub proof fn law_text_order(a: Seq<char>, b: Seq<char>, k: int)
    requires
        0 <= k <= a.len(),
        k <= b.len(),
        a.take(k) == b.take(k),
    ensures
        k < a.len() && k < b.len() && a[k] < b[k] ==> text_order(a, b) == Order::Less,
        k < a.len() && k < b.len() && a[k] > b[k] ==> text_order(a, b) == Order::Greater,
        k == a.len() && k < b.len() ==> text_order(a, b) == Order::Less,
        k < a.len() && k == b.len() ==> text_order(a, b) == Order::Greater,
        k == a.len() && k == b.len() ==> text_order(a, b) == Order::Equal,
    decreases k,
{
    if k > 0 {
        assert(a.take(k)[0] == b.take(k)[0]);
        let (x, y) = (a.drop_first(), b.drop_first());
        let (xs, ys) = (x.take(k - 1), y.take(k - 1));
        assert(a.take(k)[0] == a[0]);
        assert(b.take(k)[0] == b[0]);
        assert forall|i: int| 0 <= i < k - 1 implies #[trigger] xs[i] == ys[i] by {
            assert(a.take(k)[i + 1] == a[i + 1]);
            assert(b.take(k)[i + 1] == b[i + 1]);
            assert(x[i] == a[i + 1] && y[i] == b[i + 1]);
        }
        assert(xs =~= ys);
        law_text_order(x, y, k - 1);
    }
}

/// `list` with `x` at the place where it is in order, unless it is there
/// already.
pub open spec fn inserted(list: Seq<Seq<char>>, x: Seq<char>) -> Seq<Seq<char>>
    decreases list.len(),
{
    if list.len() == 0 {
        seq![x]
    } else {
        match text_order(x, list[0]) {
            Order::Less => seq![x] + list,
            Order::Equal => list,
            Order::Greater => seq![list[0]] + inserted(list.drop_first(), x),
        }
    }
}

/// The texts in order, each once.
pub open spec fn sorted_once(xs: Seq<Seq<char>>) -> Seq<Seq<char>>
    decreases xs.len(),
{
    if xs.len() == 0 {
        seq![]
    } else {
        inserted(sorted_once(xs.drop_last()), xs.last())
    }
}

/// Each text is less than those after it.
pub open spec fn is_increasing(list: Seq<Seq<char>>) -> bool {
    forall|i: int, j: int|
        0 <= i < j < list.len() ==> text_order(#[trigger] list[i], #[trigger] list[j])
            == Order::Less
}

proof fn lemma_inserted(list: Seq<Seq<char>>, x: Seq<char>)
    requires
        is_increasing(list),
    ensures
        is_increasing(inserted(list, x)),
        forall|y: Seq<char>| #[trigger]
            inserted(list, x).contains(y) <==> list.contains(y) || y == x,
    decreases list.len(),
{
    let out = inserted(list, x);
    if list.len() == 0 {
        assert(out.contains(x)) by {
            assert(out[0] == x);
        }
    } else {
        lemma_text_order_equal(x, list[0]);
        match text_order(x, list[0]) {
            Order::Less => {
                assert forall|i: int, j: int| 0 <= i < j < out.len() implies text_order(
                    #[trigger] out[i],
                    #[trigger] out[j],
                ) == Order::Less by {
                    if i > 0 {
                        assert(out[i] == list[i - 1] && out[j] == list[j - 1]);
                    } else if j > 1 {
                        assert(out[j] == list[j - 1]);
                        lemma_text_order_transitive(x, list[0], list[j - 1]);
                    }
                }
                assert forall|y: Seq<char>| #[trigger] out.contains(y) <==> list.contains(y) || y
                    == x by {
                    if list.contains(y) {
                        let k = choose|k: int| 0 <= k < list.len() && list[k] == y;
                        assert(out[k + 1] == y);
                    }
                    assert(out[0] == x);
                    if out.contains(y) && y != x {
                        let k = choose|k: int| 0 <= k < out.len() && out[k] == y;
                        assert(list[k - 1] == y);
                    }
                }
            },
            Order::Equal => {
                assert(list[0] == x);
            },
            Order::Greater => {
                let rest = list.drop_first();
                let tail = inserted(rest, x);
                assert(is_increasing(rest)) by {
                    assert forall|i: int, j: int| 0 <= i < j < rest.len() implies text_order(
                        #[trigger] rest[i],
                        #[trigger] rest[j],
                    ) == Order::Less by {
                        assert(rest[i] == list[i + 1] && rest[j] == list[j + 1]);
                    }
                }
                lemma_inserted(rest, x);
                lemma_text_order_flipped(x, list[0]);
                assert forall|i: int, j: int| 0 <= i < j < out.len() implies text_order(
                    #[trigger] out[i],
                    #[trigger] out[j],
                ) == Order::Less by {
                    assert(out[j] == tail[j - 1]);
                    if i > 0 {
                        assert(out[i] == tail[i - 1]);
                    } else {
                        assert(tail.contains(tail[j - 1]));
                        if tail[j - 1] != x {
                            let k = choose|k: int| 0 <= k < rest.len() && rest[k] == tail[j - 1];
                            assert(rest[k] == list[k + 1]);
                        }
                    }
                }
                assert forall|y: Seq<char>| #[trigger] out.contains(y) <==> list.contains(y) || y
                    == x by {
                    if out.contains(y) {
                        let k = choose|k: int| 0 <= k < out.len() && out[k] == y;
                        if k == 0 {
                            assert(list[0] == y);
                        } else {
                            assert(tail[k - 1] == y);
                            assert(tail.contains(y));
                            if y != x {
                                let m = choose|m: int| 0 <= m < rest.len() && rest[m] == y;
                                assert(list[m + 1] == y);
                            }
                        }
                    }
                    if list.contains(y) || y == x {
                        if y == list[0] {
                            assert(out[0] == y);
                        } else {
                            if list.contains(y) {
                                let k = choose|k: int| 0 <= k < list.len() && list[k] == y;
                                assert(rest[k - 1] == y);
                            }
                            assert(tail.contains(y));
                            let m = choose|m: int| 0 <= m < tail.len() && tail[m] == y;
                            assert(out[m + 1] == y);
                        }
                    }
                }
            },
        }
    }
}

/// Sorting gives an increasing list of the same texts.
pub proof fn law_sorted_once(xs: Seq<Seq<char>>)
    ensures
        is_increasing(sorted_once(xs)),
        forall|y: Seq<char>| #[trigger] sorted_once(xs).contains(y) <==> xs.contains(y),
    decreases xs.len(),
{
    if xs.len() > 0 {
        let before = xs.drop_last();
        law_sorted_once(before);
        lemma_inserted(sorted_once(before), xs.last());
        assert forall|y: Seq<char>| #[trigger] sorted_once(xs).contains(y) <==> xs.contains(y) by {
            if xs.contains(y) {
                let k = choose|k: int| 0 <= k < xs.len() && xs[k] == y;
                if k < before.len() {
                    assert(before[k] == y);
                    assert(before.contains(y));
                }
            }
            if before.contains(y) {
                let k = choose|k: int| 0 <= k < before.len() && before[k] == y;
                assert(xs[k] == y);
            }
            assert(xs[xs.len() - 1] == xs.last());
        }
    }
}

} // verus!
