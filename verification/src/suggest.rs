//! Completion of the word at the cursor: names of the schema first, then SQL
//! keywords.

use vstd::prelude::*;

use crate::order::{
    compare_texts, inserted, is_increasing, law_sorted_once, lemma_text_order_equal,
    lemma_text_order_flipped, sorted_once, text_order, Order,
};
use crate::text::{
    begins_with, lowercase, lowered, starts_with, text_eq, texts, uppercase, uppered,
};

verus! {

/// Largest number of suggestions.
pub const MAX_SUGGESTIONS: usize = 12;

/// The views of a sequence of string slices.
pub open spec fn words(v: Seq<&str>) -> Seq<Seq<char>> {
    v.map_values(|s: &str| s@)
}

/// The candidates that begin with `prefix`, ASCII letters compared without case,
/// without `skip`.
pub open spec fn matching(candidates: Seq<Seq<char>>, prefix: Seq<char>, skip: Seq<char>) -> Seq<
    Seq<char>,
>
    decreases candidates.len(),
{
    if candidates.len() == 0 {
        seq![]
    } else {
        let before = matching(candidates.drop_last(), prefix, skip);
        let last = candidates.last();
        if begins_with(lowered(last), lowered(prefix)) && last != skip {
            before.push(last)
        } else {
            before
        }
    }
}

/// `out`, and then the texts of `list` from `i` on that are not there yet, up to
/// the largest number of suggestions.
pub open spec fn filled(out: Seq<Seq<char>>, list: Seq<Seq<char>>, i: int) -> Seq<Seq<char>>
    decreases list.len() - i,
{
    if i < 0 || i >= list.len() || out.len() >= MAX_SUGGESTIONS {
        out
    } else if out.contains(list[i]) {
        filled(out, list, i + 1)
    } else {
        filled(out.push(list[i]), list, i + 1)
    }
}

/// The suggestions for a prefix: matching names of the schema in order, then
/// matching keywords in order. What is typed already is not suggested.
pub open spec fn suggestions(
    prefix: Seq<char>,
    names: Seq<Seq<char>>,
    keywords: Seq<Seq<char>>,
) -> Seq<Seq<char>> {
    let schema = sorted_once(matching(names, prefix, prefix));
    let words = sorted_once(matching(keywords, prefix, uppered(prefix)));
    filled(seq![], schema + words, 0)
}

fn insert_once(list: &mut Vec<String>, x: String)
    ensures
        texts(final(list)@) == inserted(texts(old(list)@), x@),
{
    let ghost all = texts(list@);
    let mut i: usize = 0;
    assert(all.skip(0) =~= all);
    assert(all.take(0) + inserted(all.skip(0), x@) =~= inserted(all, x@));
    while i < list.len()
        invariant
            i <= list@.len(),
            all == texts(list@),
            all.take(i as int) + inserted(all.skip(i as int), x@) == inserted(all, x@),
        ensures
            i <= list@.len(),
            all == texts(list@),
            all.take(i as int) + (seq![x@] + all.skip(i as int)) == inserted(all, x@),
        decreases list@.len() - i,
    {
        proof {
            let rest = all.skip(i as int);
            assert(rest[0] == list@[i as int]@);
            assert(rest.drop_first() =~= all.skip(i + 1));
        }
        match compare_texts(x.as_str(), list[i].as_str()) {
            Order::Less => {
                break;
            },
            Order::Equal => {
                assert(all.take(i as int) + all.skip(i as int) =~= all);
                return;
            },
            Order::Greater => {
                proof {
                    let tail = inserted(all.skip(i + 1), x@);
                    assert(all.take(i as int) + (seq![all[i as int]] + tail) =~= all.take(i + 1)
                        + tail);
                }
            },
        }
        i = i + 1;
        proof {
            if i == list@.len() {
                assert(all.skip(i as int) =~= Seq::<Seq<char>>::empty());
                assert(inserted(all.skip(i as int), x@) =~= seq![x@] + all.skip(i as int));
            }
        }
    }
    proof {
        if all.len() == 0 {
            assert(inserted(all, x@) =~= seq![x@]);
            assert(all.take(0) + (seq![x@] + all.skip(0)) =~= seq![x@]);
        }
    }
    let ghost text = x@;
    list.insert(i, x);
    assert(texts(list@) =~= all.take(i as int) + (seq![text] + all.skip(i as int)));
}

fn add_new(out: &mut Vec<String>, list: &Vec<String>)
    ensures
        texts(final(out)@) == filled(texts(old(out)@), texts(list@), 0),
{
    let ghost all = texts(list@);
    let ghost start = texts(out@);
    let mut i: usize = 0;
    while i < list.len() && out.len() < MAX_SUGGESTIONS
        invariant
            i <= list@.len(),
            all == texts(list@),
            filled(texts(out@), all, i as int) == filled(start, all, 0),
        decreases list@.len() - i,
    {
        let mut found = false;
        let mut k: usize = 0;
        while k < out.len()
            invariant
                k <= out@.len(),
                i < list@.len(),
                found == exists|m: int| 0 <= m < k && #[trigger] out@[m]@ == list@[i as int]@,
            decreases out@.len() - k,
        {
            if text_eq(out[k].as_str(), list[i].as_str()) {
                found = true;
            }
            k = k + 1;
        }
        proof {
            let now = texts(out@);
            if found {
                let m = choose|m: int| 0 <= m < k && #[trigger] out@[m]@ == list@[i as int]@;
                assert(now[m] == all[i as int]);
            }
            if now.contains(all[i as int]) {
                let m = choose|m: int| 0 <= m < now.len() && now[m] == all[i as int];
                assert(out@[m]@ == list@[i as int]@);
            }
        }
        if !found {
            let ghost now = texts(out@);
            out.push(list[i].clone());
            assert(texts(out@) =~= now.push(all[i as int]));
        }
        i = i + 1;
    }
}

/// Suggest completions of `prefix`.
pub fn compute_suggestions(prefix: &str, schema_names: &[String], keywords: &[&str]) -> (res: Vec<
    String,
>)
    ensures
        texts(res@) == suggestions(prefix@, texts(schema_names@), words(keywords@)),
{
    let lower = lowercase(prefix);
    let upper = uppercase(prefix);
    let mut schema: Vec<String> = Vec::new();
    let ghost names = texts(schema_names@);
    let mut i: usize = 0;
    while i < schema_names.len()
        invariant
            i <= schema_names@.len(),
            names == texts(schema_names@),
            lower@ == lowered(prefix@),
            texts(schema@) == sorted_once(matching(names.take(i as int), prefix@, prefix@)),
        decreases schema_names@.len() - i,
    {
        proof {
            assert(names.take(i + 1).drop_last() =~= names.take(i as int));
        }
        let ghost before = matching(names.take(i as int), prefix@, prefix@);
        if starts_with(lowercase(schema_names[i].as_str()).as_str(), lower.as_str()) && !text_eq(
            schema_names[i].as_str(),
            prefix,
        ) {
            insert_once(&mut schema, schema_names[i].clone());
            proof {
                let last = names[i as int];
                assert(before.push(last).drop_last() =~= before);
            }
        }
        i = i + 1;
    }
    assert(names.take(i as int) =~= names);
    let mut words_found: Vec<String> = Vec::new();
    let ghost keys = words(keywords@);
    let mut j: usize = 0;
    while j < keywords.len()
        invariant
            j <= keywords@.len(),
            keys == words(keywords@),
            lower@ == lowered(prefix@),
            upper@ == uppered(prefix@),
            texts(words_found@) == sorted_once(
                matching(keys.take(j as int), prefix@, uppered(prefix@)),
            ),
        decreases keywords@.len() - j,
    {
        proof {
            assert(keys.take(j + 1).drop_last() =~= keys.take(j as int));
        }
        let ghost before = matching(keys.take(j as int), prefix@, uppered(prefix@));
        if starts_with(lowercase(keywords[j]).as_str(), lower.as_str()) && !text_eq(
            keywords[j],
            upper.as_str(),
        ) {
            insert_once(&mut words_found, keywords[j].to_string());
            proof {
                let last = keys[j as int];
                assert(before.push(last).drop_last() =~= before);
            }
        }
        j = j + 1;
    }
    assert(keys.take(j as int) =~= keys);
    let ghost a = texts(schema@);
    let ghost b = texts(words_found@);
    schema.append(&mut words_found);
    assert(texts(schema@) =~= a + b);
    let mut out: Vec<String> = Vec::new();
    assert(texts(out@) =~= Seq::<Seq<char>>::empty());
    add_new(&mut out, &schema);
    out
}

proof fn lemma_filled(out: Seq<Seq<char>>, list: Seq<Seq<char>>, i: int)
    requires
        0 <= i,
        out.len() <= MAX_SUGGESTIONS,
        out.no_duplicates(),
    ensures
        filled(out, list, i).len() <= MAX_SUGGESTIONS,
        filled(out, list, i).no_duplicates(),
        forall|y: Seq<char>| #[trigger]
            filled(out, list, i).contains(y) ==> out.contains(y) || list.contains(y),
    decreases list.len() - i,
{
    if i < list.len() && out.len() < MAX_SUGGESTIONS {
        if out.contains(list[i]) {
            lemma_filled(out, list, i + 1);
        } else {
            let next = out.push(list[i]);
            assert(next.no_duplicates()) by {
                assert forall|m: int, n: int| 0 <= m < next.len() && 0 <= n < next.len() && m
                    != n implies next[m] != next[n] by {
                    if m == out.len() {
                        assert(out.contains(next[n]));
                    } else if n == out.len() {
                        assert(out.contains(next[m]));
                    }
                }
            }
            lemma_filled(next, list, i + 1);
            assert forall|y: Seq<char>| #[trigger] filled(out, list, i).contains(y) implies
                out.contains(y) || list.contains(y) by {
                if next.contains(y) && !out.contains(y) {
                    let k = choose|k: int| 0 <= k < next.len() && next[k] == y;
                    if k < out.len() {
                        assert(out[k] == y);
                    }
                    assert(list[i] == y);
                }
            }
        }
    }
}

proof fn lemma_matching(candidates: Seq<Seq<char>>, prefix: Seq<char>, skip: Seq<char>)
    ensures
        forall|y: Seq<char>| #[trigger]
            matching(candidates, prefix, skip).contains(y) ==> candidates.contains(y)
                && begins_with(lowered(y), lowered(prefix)) && y != skip,
    decreases candidates.len(),
{
    if candidates.len() > 0 {
        let before = candidates.drop_last();
        lemma_matching(before, prefix, skip);
        let found = matching(candidates, prefix, skip);
        assert forall|y: Seq<char>| #[trigger] found.contains(y) implies candidates.contains(y)
            && begins_with(lowered(y), lowered(prefix)) && y != skip by {
            let k = choose|k: int| 0 <= k < found.len() && found[k] == y;
            let earlier = matching(before, prefix, skip);
            if k < earlier.len() {
                assert(earlier[k] == y);
                assert(earlier.contains(y));
                let m = choose|m: int| 0 <= m < before.len() && before[m] == y;
                assert(candidates[m] == y);
            } else {
                assert(candidates[candidates.len() - 1] == y);
            }
        }
    }
}

/// There are at most twelve suggestions, no two alike. Each is a name of the
/// schema or a keyword that begins with the prefix, in any ASCII case.
pub proof fn law_suggestions(
    prefix: Seq<char>,
    names: Seq<Seq<char>>,
    keywords: Seq<Seq<char>>,
)
    ensures
        suggestions(prefix, names, keywords).len() <= 12,
        suggestions(prefix, names, keywords).no_duplicates(),
        forall|y: Seq<char>| #[trigger]
            suggestions(prefix, names, keywords).contains(y) ==> begins_with(
                lowered(y),
                lowered(prefix),
            ) && ((names.contains(y) && y != prefix) || (keywords.contains(y) && y != uppered(
                prefix,
            ))),
{
    let a = matching(names, prefix, prefix);
    let b = matching(keywords, prefix, uppered(prefix));
    lemma_matching(names, prefix, prefix);
    lemma_matching(keywords, prefix, uppered(prefix));
    law_sorted_once(a);
    law_sorted_once(b);
    let list = sorted_once(a) + sorted_once(b);
    lemma_filled(seq![], list, 0);
    assert forall|y: Seq<char>| #[trigger]
        suggestions(prefix, names, keywords).contains(y) implies begins_with(
        lowered(y),
        lowered(prefix),
    ) && ((names.contains(y) && y != prefix) || (keywords.contains(y) && y != uppered(prefix))) by {
        assert(list.contains(y));
        let k = choose|k: int| 0 <= k < list.len() && list[k] == y;
        if k < sorted_once(a).len() {
            assert(sorted_once(a)[k] == y);
            assert(sorted_once(a).contains(y));
            assert(a.contains(y));
        } else {
            assert(sorted_once(b)[k - sorted_once(a).len()] == y);
            assert(sorted_once(b).contains(y));
            assert(b.contains(y));
        }
    }
}

proof fn lemma_filled_all(out: Seq<Seq<char>>, list: Seq<Seq<char>>, i: int)
    requires
        0 <= i,
    ensures
        filled(out, list, i).len() >= out.len(),
        filled(out, list, i).take(out.len() as int) == out,
        filled(out, list, i).len() < MAX_SUGGESTIONS ==> forall|k: int|
            i <= k < list.len() ==> filled(out, list, i).contains(#[trigger] list[k]),
    decreases list.len() - i,
{
    let all = filled(out, list, i);
    if i < list.len() && out.len() < MAX_SUGGESTIONS {
        if out.contains(list[i]) {
            lemma_filled_all(out, list, i + 1);
            let k = choose|k: int| 0 <= k < out.len() && out[k] == list[i];
            assert(all.take(out.len() as int)[k] == all[k]);
            assert(all.contains(list[i]));
        } else {
            let next = out.push(list[i]);
            lemma_filled_all(next, list, i + 1);
            assert(all.take(out.len() as int) =~= next.take(out.len() as int));
            assert(next.take(out.len() as int) =~= out);
            assert(all.take(next.len() as int)[out.len() as int] == all[out.len() as int]);
            assert(all.contains(list[i]));
        }
    } else {
        assert(out.take(out.len() as int) =~= out);
    }
}

/// Texts without repetition fill the suggestions from the front, in order.
proof fn lemma_filled_front(list: Seq<Seq<char>>, n: int, i: int)
    requires
        0 <= i <= n <= list.len(),
        n <= MAX_SUGGESTIONS,
        list.take(n).no_duplicates(),
    ensures
        filled(list.take(i), list, i).len() >= n,
        filled(list.take(i), list, i).take(n) == list.take(n),
    decreases n - i,
{
    if i < n {
        if list.take(i).contains(list[i]) {
            let k = choose|k: int| 0 <= k < i && list.take(i)[k] == list[i];
            assert(list.take(n)[k] == list.take(n)[i]);
        }
        assert(list.take(i).push(list[i]) =~= list.take(i + 1));
        lemma_filled_front(list, n, i + 1);
    } else {
        lemma_filled_all(list.take(i), list, i);
    }
}

/// What is filled in after `out` comes from the list in order.
proof fn lemma_filled_order(out: Seq<Seq<char>>, list: Seq<Seq<char>>, i: int)
    requires
        0 <= i,
        forall|j: int, k: int|
            i <= j < k < list.len() ==> text_order(#[trigger] list[j], #[trigger] list[k])
                == Order::Less,
    ensures
        forall|j: int|
            out.len() <= j < filled(out, list, i).len() ==> exists|k: int|
                i <= k < list.len() && #[trigger] list[k] == #[trigger] filled(out, list, i)[j],
        forall|j: int, k: int|
            out.len() <= j < k < filled(out, list, i).len() ==> text_order(
                #[trigger] filled(out, list, i)[j],
                #[trigger] filled(out, list, i)[k],
            ) == Order::Less,
    decreases list.len() - i,
{
    if i < list.len() && out.len() < MAX_SUGGESTIONS {
        let all = filled(out, list, i);
        if out.contains(list[i]) {
            lemma_filled_order(out, list, i + 1);
            assert forall|j: int| out.len() <= j < all.len() implies exists|k: int|
                i <= k < list.len() && #[trigger] list[k] == #[trigger] all[j] by {
                let k = choose|k: int| i + 1 <= k < list.len() && #[trigger] list[k] == all[j];
                assert(list[k] == all[j]);
            }
        } else {
            let next = out.push(list[i]);
            lemma_filled_order(next, list, i + 1);
            lemma_filled_all(next, list, i + 1);
            assert(all.take(next.len() as int)[out.len() as int] == all[out.len() as int]);
            assert(all[out.len() as int] == list[i]);
            assert forall|j: int| out.len() <= j < all.len() implies exists|k: int|
                i <= k < list.len() && #[trigger] list[k] == #[trigger] all[j] by {
                if j == out.len() {
                    assert(list[i] == all[j]);
                } else {
                    let k = choose|k: int| i + 1 <= k < list.len() && #[trigger] list[k] == all[j];
                    assert(list[k] == all[j]);
                }
            }
            assert forall|j: int, k: int| out.len() <= j < k < all.len() implies text_order(
                #[trigger] all[j],
                #[trigger] all[k],
            ) == Order::Less by {
                if j == out.len() {
                    let m = choose|m: int| i + 1 <= m < list.len() && #[trigger] list[m] == all[k];
                    assert(list[i] == all[j]);
                }
            }
        }
    }
}

proof fn lemma_matching_all(
    candidates: Seq<Seq<char>>,
    prefix: Seq<char>,
    skip: Seq<char>,
    y: Seq<char>,
)
    requires
        candidates.contains(y),
        begins_with(lowered(y), lowered(prefix)),
        y != skip,
    ensures
        matching(candidates, prefix, skip).contains(y),
    decreases candidates.len(),
{
    let k = choose|k: int| 0 <= k < candidates.len() && candidates[k] == y;
    let before = candidates.drop_last();
    let found = matching(candidates, prefix, skip);
    if k == candidates.len() - 1 {
        assert(found[found.len() - 1] == y);
    } else {
        assert(before[k] == y);
        lemma_matching_all(before, prefix, skip, y);
        let earlier = matching(before, prefix, skip);
        let m = choose|m: int| 0 <= m < earlier.len() && earlier[m] == y;
        assert(found[m] == y);
    }
}

/// The first `split` texts are names, the others keywords, both in increasing
/// order.
pub open spec fn are_names_then_keywords(
    all: Seq<Seq<char>>,
    split: int,
    names: Seq<Seq<char>>,
    keywords: Seq<Seq<char>>,
) -> bool {
    &&& 0 <= split <= all.len()
    &&& is_increasing(all.take(split))
    &&& is_increasing(all.skip(split))
    &&& forall|k: int| 0 <= k < split ==> names.contains(#[trigger] all[k])
    &&& forall|k: int| split <= k < all.len() ==> keywords.contains(#[trigger] all[k])
}

/// Matching names of the schema come first, in increasing order, as many as
/// there is room for, and matching keywords follow, in increasing order too.
/// Where there is room left, every match is there.
pub proof fn law_suggestions_are_complete(
    prefix: Seq<char>,
    names: Seq<Seq<char>>,
    keywords: Seq<Seq<char>>,
    y: Seq<char>,
)
    requires
        begins_with(lowered(y), lowered(prefix)),
        (names.contains(y) && y != prefix) || (keywords.contains(y) && y != uppered(prefix)),
    ensures
        suggestions(prefix, names, keywords).len() < 12 ==> suggestions(
            prefix,
            names,
            keywords,
        ).contains(y),
        exists|split: int|
            #[trigger] are_names_then_keywords(
                suggestions(prefix, names, keywords),
                split,
                names,
                keywords,
            ) && (names.contains(y) && y != prefix && !suggestions(
                prefix,
                names,
                keywords,
            ).contains(y) ==> split == 12 && forall|k: int|
                0 <= k < 12 ==> text_order(
                    #[trigger] suggestions(prefix, names, keywords)[k],
                    y,
                ) == Order::Less),
{
    let a = matching(names, prefix, prefix);
    let b = matching(keywords, prefix, uppered(prefix));
    lemma_matching(names, prefix, prefix);
    lemma_matching(keywords, prefix, uppered(prefix));
    law_sorted_once(a);
    law_sorted_once(b);
    let first = sorted_once(a);
    let then = sorted_once(b);
    let list = first + then;
    let all = suggestions(prefix, names, keywords);
    lemma_filled_all(seq![], list, 0);
    lemma_filled(seq![], list, 0);
    if names.contains(y) && y != prefix {
        lemma_matching_all(names, prefix, prefix, y);
        assert(first.contains(y));
    } else {
        lemma_matching_all(keywords, prefix, uppered(prefix), y);
        assert(then.contains(y));
    }
    assert(list.contains(y)) by {
        if first.contains(y) {
            let k = choose|k: int| 0 <= k < first.len() && first[k] == y;
            assert(list[k] == y);
        } else {
            let k = choose|k: int| 0 <= k < then.len() && then[k] == y;
            assert(list[first.len() + k] == y);
        }
    }
    let split = if first.len() <= MAX_SUGGESTIONS {
        first.len() as int
    } else {
        MAX_SUGGESTIONS as int
    };
    assert(list.take(split) =~= first.take(split));
    assert(first.no_duplicates()) by {
        assert forall|m: int, n: int| 0 <= m < first.len() && 0 <= n < first.len() && m
            != n implies first[m] != first[n] by {
            lemma_text_order_equal(first[m], first[n]);
            lemma_text_order_flipped(first[m], first[n]);
        }
    }
    assert(list.take(split).no_duplicates()) by {
        assert forall|m: int, n: int| 0 <= m < split && 0 <= n < split && m != n implies list.take(
            split,
        )[m] != list.take(split)[n] by {
            assert(first[m] != first[n]);
        }
    }
    lemma_filled_front(list, split, 0);
    assert(list.take(0) =~= Seq::<Seq<char>>::empty());
    assert(all.take(split) == first.take(split));
    assert forall|k: int| 0 <= k < split implies names.contains(#[trigger] all[k]) by {
        assert(all[k] == all.take(split)[k]);
        assert(all[k] == first[k]);
        assert(first.contains(first[k]));
        assert(a.contains(first[k]));
    }
    lemma_tail(first, then, split);
    assert forall|k: int| split <= k < all.len() implies keywords.contains(#[trigger] all[k]) by {
        assert(then.contains(all[k]));
        assert(b.contains(all[k]));
    }
    if names.contains(y) && y != prefix && !all.contains(y) {
        let m = choose|m: int| 0 <= m < first.len() && first[m] == y;
        if m < split {
            assert(all.take(split)[m] == all[m]);
            assert(all.contains(y));
        }
        assert forall|k: int| 0 <= k < 12 implies text_order(#[trigger] all[k], y)
            == Order::Less by {
            assert(all.take(split)[k] == all[k]);
            assert(first[k] == all[k]);
        }
    }
    assert(is_increasing(all.take(split)));
    assert(are_names_then_keywords(all, split, names, keywords));
}

/// After the names, the suggestions go on with keywords in order.
proof fn lemma_tail(first: Seq<Seq<char>>, then: Seq<Seq<char>>, split: int)
    requires
        is_increasing(then),
        first.no_duplicates(),
        split == if first.len() <= MAX_SUGGESTIONS {
            first.len() as int
        } else {
            MAX_SUGGESTIONS as int
        },
    ensures
        ({
            let all = filled(seq![], first + then, 0);
            &&& split <= all.len()
            &&& is_increasing(all.skip(split))
            &&& forall|k: int| split <= k < all.len() ==> then.contains(#[trigger] all[k])
        }),
{
    let list = first + then;
    let all = filled(seq![], list, 0);
    assert(list.take(split) =~= first.take(split));
    assert(list.take(split).no_duplicates()) by {
        assert forall|m: int, n: int| 0 <= m < split && 0 <= n < split && m != n implies list.take(
            split,
        )[m] != list.take(split)[n] by {
            assert(first[m] != first[n]);
        }
    }
    lemma_filled_steps(list, split, 0);
    assert(list.take(0) =~= Seq::<Seq<char>>::empty());
    let head = list.take(split);
    assert(all == filled(head, list, split));
    if first.len() <= MAX_SUGGESTIONS {
        assert forall|j: int, k: int| split <= j < k < list.len() implies text_order(
            #[trigger] list[j],
            #[trigger] list[k],
        ) == Order::Less by {
            assert(list[j] == then[j - split]);
            assert(list[k] == then[k - split]);
        }
        lemma_filled_order(head, list, split);
        lemma_filled_all(head, list, split);
        let rest = all.skip(split);
        assert forall|j: int, k: int| 0 <= j < k < rest.len() implies text_order(
            #[trigger] rest[j],
            #[trigger] rest[k],
        ) == Order::Less by {
            assert(rest[j] == all[split + j]);
            assert(rest[k] == all[split + k]);
        }
        assert forall|k: int| split <= k < all.len() implies then.contains(#[trigger] all[k]) by {
            let m = choose|m: int| split <= m < list.len() && #[trigger] list[m] == all[k];
            assert(then[m - split] == all[k]);
        }
    } else {
        assert(all == head);
    }
}

proof fn lemma_filled_steps(list: Seq<Seq<char>>, n: int, i: int)
    requires
        0 <= i <= n <= list.len(),
        n <= MAX_SUGGESTIONS,
        list.take(n).no_duplicates(),
    ensures
        filled(list.take(i), list, i) == filled(list.take(n), list, n),
    decreases n - i,
{
    if i < n {
        if list.take(i).contains(list[i]) {
            let k = choose|k: int| 0 <= k < i && list.take(i)[k] == list[i];
            assert(list.take(n)[k] == list.take(n)[i]);
        }
        assert(list.take(i).push(list[i]) =~= list.take(i + 1));
        lemma_filled_steps(list, n, i + 1);
    }
}

} // verus!
