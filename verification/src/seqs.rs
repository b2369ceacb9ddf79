//! Facts about sequences that the passes and the exporter share.

use vstd::prelude::*;
use vstd::seq_lib::lemma_seq_contains_after_push;

verus! {

/// A new item keeps a sequence free of duplicates.
pub proof fn lemma_push_fresh<T>(items: Seq<T>, item: T)
    requires
        items.no_duplicates(),
        !items.contains(item),
    ensures
        items.push(item).no_duplicates(),
{
    let pushed = items.push(item);
    assert forall|i: int, j: int|
        0 <= i < pushed.len() && 0 <= j < pushed.len() && i != j implies pushed[i] != pushed[j] by {
        if i < items.len() && j < items.len() {
        } else if i < items.len() {
            assert(items.contains(items[i]));
        } else {
            assert(items.contains(items[j]));
        }
    }
}

/// What a prefix holds once it has grown by one item.
pub proof fn lemma_take_next_contains<T>(items: Seq<T>, n: int, item: T)
    requires
        0 <= n < items.len(),
    ensures
        items.take(n + 1).contains(item) <==> items.take(n).contains(item) || items[n] == item,
{
    assert(items.take(n + 1) =~= items.take(n).push(items[n]));
    lemma_seq_contains_after_push(items.take(n), items[n], item);
}

/// `found`, followed by the identifiers of `ids` that are new when their
/// turn comes, in the order of `ids`.
pub open spec fn with_new(found: Seq<i64>, ids: Seq<i64>) -> Seq<i64>
    decreases ids.len(),
{
    if ids.len() == 0 {
        found
    } else {
        let earlier = with_new(found, ids.drop_last());
        if earlier.contains(ids.last()) {
            earlier
        } else {
            earlier.push(ids.last())
        }
    }
}

/// The identifiers of `ids`, each once, in the order of their first
/// occurrence.
pub open spec fn distinct(ids: Seq<i64>) -> Seq<i64> {
    with_new(Seq::empty(), ids)
}

/// Adding two runs one after the other adds their concatenation.
pub proof fn lemma_with_new_concat(found: Seq<i64>, first: Seq<i64>, second: Seq<i64>)
    ensures
        with_new(found, first + second) == with_new(with_new(found, first), second),
    decreases second.len(),
{
    if second.len() == 0 {
        assert(first + second =~= first);
    } else {
        lemma_with_new_concat(found, first, second.drop_last());
        assert((first + second).drop_last() =~= first + second.drop_last());
        assert((first + second).last() == second.last());
    }
}

/// `with_new` holds what was found before and what `ids` holds, no more.
pub proof fn lemma_with_new_contains(found: Seq<i64>, ids: Seq<i64>, id: i64)
    ensures
        with_new(found, ids).contains(id) <==> found.contains(id) || ids.contains(id),
    decreases ids.len(),
{
    if ids.len() == 0 {
    } else {
        let earlier = with_new(found, ids.drop_last());
        lemma_with_new_contains(found, ids.drop_last(), id);
        assert(ids =~= ids.drop_last().push(ids.last()));
        lemma_seq_contains_after_push(ids.drop_last(), ids.last(), id);
        lemma_seq_contains_after_push(earlier, ids.last(), id);
    }
}

/// `with_new` adds no duplicate.
pub proof fn lemma_with_new_no_duplicates(found: Seq<i64>, ids: Seq<i64>)
    requires
        found.no_duplicates(),
    ensures
        with_new(found, ids).no_duplicates(),
    decreases ids.len(),
{
    if ids.len() > 0 {
        let earlier = with_new(found, ids.drop_last());
        lemma_with_new_no_duplicates(found, ids.drop_last());
        if !earlier.contains(ids.last()) {
            lemma_push_fresh(earlier, ids.last());
        }
    }
}

/// `distinct` holds each identifier of `ids` once, and nothing else.
pub proof fn lemma_distinct(ids: Seq<i64>)
    ensures
        distinct(ids).no_duplicates(),
        distinct(ids).to_set() == ids.to_set(),
{
    lemma_with_new_no_duplicates(Seq::empty(), ids);
    assert forall|id: i64| distinct(ids).contains(id) <==> ids.contains(id) by {
        lemma_with_new_contains(Seq::empty(), ids, id);
    }
    assert(distinct(ids).to_set() =~= ids.to_set());
}

} // verus!
