//! Identifier-keyed tables, as the contracts speak of them.

use crate::parsers::{Node, SegmentView};
use crate::AdminAreaView;
use vstd::prelude::*;

verus! {

/// What is filed under an identifier of its own.
pub trait Identified {
    spec fn ident(&self) -> i64;
}

impl Identified for Node {
    open spec fn ident(&self) -> i64 {
        self.osmid
    }
}

impl Identified for SegmentView {
    open spec fn ident(&self) -> i64 {
        self.osmid
    }
}

impl Identified for AdminAreaView {
    open spec fn ident(&self) -> i64 {
        self.osmid
    }
}

/// The table that `items` fill when each is filed under its identifier, one
/// after the other: a later item replaces an earlier one of the same
/// identifier.
pub open spec fn filed<T: Identified>(items: Seq<T>) -> Map<i64, T>
    decreases items.len(),
{
    if items.len() == 0 {
        Map::empty()
    } else {
        filed(items.drop_last()).insert(items.last().ident(), items.last())
    }
}

/// Whether `items[at]` is the last item with its identifier.
pub open spec fn is_last_of_its_ident<T: Identified>(items: Seq<T>, at: int) -> bool {
    &&& 0 <= at < items.len()
    &&& forall|later: int|
        at < later < items.len() ==> (#[trigger] items[later]).ident() != items[at].ident()
}

/// A table holds an identifier exactly where some item carries it, and
/// holds under it the last such item.
pub proof fn lemma_filed<T: Identified>(items: Seq<T>, id: i64)
    ensures
        filed(items).contains_key(id) <==> exists|at: int|
            0 <= at < items.len() && (#[trigger] items[at]).ident() == id,
        filed(items).contains_key(id) ==> exists|at: int|
            #[trigger] is_last_of_its_ident(items, at) && items[at].ident() == id && filed(
                items,
            )[id] == items[at],
    decreases items.len(),
{
    if items.len() > 0 {
        let earlier = items.drop_last();
        let last_at = items.len() - 1;
        lemma_filed(earlier, id);
        if items.last().ident() == id {
            assert(items[last_at].ident() == id);
            assert(is_last_of_its_ident(items, last_at));
        } else {
            if filed(earlier).contains_key(id) {
                let at = choose|at: int|
                    #[trigger] is_last_of_its_ident(earlier, at) && earlier[at].ident() == id
                        && filed(earlier)[id] == earlier[at];
                assert(items[at] == earlier[at]);
                assert forall|later: int| at < later < items.len() implies (
                #[trigger] items[later]).ident() != items[at].ident() by {
                    if later < last_at {
                        assert(items[later] == earlier[later]);
                    }
                }
                assert(is_last_of_its_ident(items, at));
            }
            if exists|at: int| 0 <= at < items.len() && (#[trigger] items[at]).ident() == id {
                let at = choose|at: int|
                    0 <= at < items.len() && (#[trigger] items[at]).ident() == id;
                assert(earlier[at] == items[at]);
            }
        }
    }
}

/// The model of an identifier-keyed table: each entry by its view.
pub open spec fn table<T: View>(entries: Map<i64, T>) -> Map<i64, T::V> {
    Map::new(|id: i64| entries.contains_key(id), |id: i64| entries[id]@)
}

} // verus!
