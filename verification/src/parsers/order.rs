//! An import does not depend on the order in which the source delivers its
//! objects, as long as an identifier stands for one object.

use crate::filter::{names, runs_through};
use crate::parsers::areaparser::{
    area_table, imported_nodes, imported_segments, kept_node, kept_nodes, kept_way, kept_ways,
    lemma_point_refs_contains, lemma_wanted_segments, node_table, point_refs, segment_table,
    wanted_segments, yielded_area, yielded_areas,
};
use crate::parsers::tables::{filed, lemma_filed, Identified};
use crate::parsers::{AreaFactory, Node, NodeId, SegmentId, SegmentView};
use crate::source::{lemma_picked, picked, ObjView};
use crate::AdminAreaView;
use vstd::prelude::*;

verus! {

/// Whether two sequences hold the same items, in whatever order and however
/// often.
pub open spec fn same_items<T>(first: Seq<T>, second: Seq<T>) -> bool {
    forall|item: T| #[trigger] first.contains(item) <==> second.contains(item)
}

/// Whether an identifier stands for one item: two items of `items` with the
/// same identifier are the same item.
pub open spec fn one_per_ident<T: Identified>(items: Seq<T>) -> bool {
    forall|x: T, y: T|
        #[trigger] items.contains(x) && #[trigger] items.contains(y) && x.ident() == y.ident()
            ==> x == y
}

/// Whether an identifier stands for one object of `source`: one area among
/// those that it yields, one polyline, one point.
pub open spec fn idents_settle<F: AreaFactory>(source: Seq<ObjView>, factory: &F) -> bool {
    &&& one_per_ident(yielded_areas(source, factory))
    &&& one_per_ident(kept_ways(source, Set::full()))
    &&& one_per_ident(kept_nodes(source, Set::full()))
}

/// Where an identifier stands for one item, the table does not depend on
/// the order of the items.
pub proof fn lemma_filed_order_free<T: Identified>(first: Seq<T>, second: Seq<T>)
    requires
        same_items(first, second),
        one_per_ident(first),
    ensures
        filed(first) == filed(second),
{
    assert forall|id: i64| filed(first).contains_key(id) <==> filed(second).contains_key(id) by {
        lemma_filed(first, id);
        lemma_filed(second, id);
        if filed(first).contains_key(id) {
            let at = choose|at: int| 0 <= at < first.len() && (#[trigger] first[at]).ident() == id;
            assert(first.contains(first[at]));
            assert(second.contains(first[at]));
            let to = choose|to: int| 0 <= to < second.len() && second[to] == first[at];
            assert(second[to].ident() == id);
        }
        if filed(second).contains_key(id) {
            let at = choose|at: int|
                0 <= at < second.len() && (#[trigger] second[at]).ident() == id;
            assert(second.contains(second[at]));
            assert(first.contains(second[at]));
            let to = choose|to: int| 0 <= to < first.len() && first[to] == second[at];
            assert(first[to].ident() == id);
        }
    }
    assert forall|id: i64| filed(first).contains_key(id) implies filed(first)[id] == filed(
        second,
    )[id] by {
        lemma_filed(first, id);
        lemma_filed(second, id);
        let x = filed(first)[id];
        let y = filed(second)[id];
        assert(first.contains(x));
        assert(second.contains(y));
        assert(first.contains(y));
    }
    assert(filed(first) =~= filed(second));
}

/// Sources that hold the same objects yield the same areas.
pub proof fn lemma_yielded_areas_order_free<F: AreaFactory>(
    first: Seq<ObjView>,
    second: Seq<ObjView>,
    factory: &F,
)
    requires
        same_items(first, second),
    ensures
        same_items(yielded_areas(first, factory), yielded_areas(second, factory)),
{
    let pick = |obj: ObjView| yielded_area(obj, factory);
    assert forall|area: AdminAreaView| #[trigger]
        yielded_areas(first, factory).contains(area) <==> yielded_areas(second, factory).contains(
            area,
        ) by {
        lemma_picked_order_free(first, second, pick, area);
    }
}

/// Sources that hold the same objects give the same picks.
pub proof fn lemma_picked_order_free<T>(
    first: Seq<ObjView>,
    second: Seq<ObjView>,
    pick: spec_fn(ObjView) -> Option<T>,
    item: T,
)
    requires
        same_items(first, second),
    ensures
        picked(first, pick).contains(item) <==> picked(
            second,
            pick,
        ).contains(item),
{
    lemma_picked(first, pick, item);
    lemma_picked(second, pick, item);
    if exists|i: int| 0 <= i < first.len() && pick(#[trigger] first[i]) == Some(item) {
        let i = choose|i: int| 0 <= i < first.len() && pick(#[trigger] first[i]) == Some(item);
        assert(first.contains(first[i]));
        assert(second.contains(first[i]));
        let j = choose|j: int| 0 <= j < second.len() && second[j] == first[i];
        assert(pick(second[j]) == Some(item));
    }
    if exists|i: int| 0 <= i < second.len() && pick(#[trigger] second[i]) == Some(item) {
        let i = choose|i: int| 0 <= i < second.len() && pick(#[trigger] second[i]) == Some(item);
        assert(second.contains(second[i]));
        assert(first.contains(second[i]));
        let j = choose|j: int| 0 <= j < first.len() && first[j] == second[i];
        assert(pick(first[j]) == Some(item));
    }
}

/// The same areas want the same segments.
pub proof fn lemma_wanted_segments_order_free(first: Seq<AdminAreaView>, second: Seq<AdminAreaView>)
    requires
        same_items(first, second),
    ensures
        wanted_segments(first) == wanted_segments(second),
{
    assert forall|id: SegmentId|
        wanted_segments(first).contains(id) <==> wanted_segments(second).contains(id) by {
        lemma_wanted_segments(first, id);
        lemma_wanted_segments(second, id);
        if exists|at: int| 0 <= at < first.len() && names(#[trigger] first[at], id) {
            let at = choose|at: int| 0 <= at < first.len() && names(#[trigger] first[at], id);
            assert(first.contains(first[at]));
            assert(second.contains(first[at]));
            let to = choose|to: int| 0 <= to < second.len() && second[to] == first[at];
            assert(names(second[to], id));
        }
        if exists|at: int| 0 <= at < second.len() && names(#[trigger] second[at], id) {
            let at = choose|at: int| 0 <= at < second.len() && names(#[trigger] second[at], id);
            assert(second.contains(second[at]));
            assert(first.contains(second[at]));
            let to = choose|to: int| 0 <= to < first.len() && first[to] == second[at];
            assert(names(first[to], id));
        }
    }
    assert(wanted_segments(first) =~= wanted_segments(second));
}

/// The same segments run through the same points.
pub proof fn lemma_point_refs_order_free(
    first: Seq<SegmentView>,
    second: Seq<SegmentView>,
)
    requires
        same_items(first, second),
    ensures
        point_refs(first).to_set() == point_refs(second).to_set(),
{
    assert forall|id: NodeId| point_refs(first).contains(id) <==> point_refs(second).contains(
        id,
    ) by {
        lemma_point_refs_contains(first, id);
        lemma_point_refs_contains(second, id);
        if exists|at: int| 0 <= at < first.len() && runs_through(#[trigger] first[at], id) {
            let at = choose|at: int|
                0 <= at < first.len() && runs_through(#[trigger] first[at], id);
            assert(first.contains(first[at]));
            assert(second.contains(first[at]));
            let to = choose|to: int| 0 <= to < second.len() && second[to] == first[at];
            assert(runs_through(second[to], id));
        }
        if exists|at: int| 0 <= at < second.len() && runs_through(#[trigger] second[at], id) {
            let at = choose|at: int|
                0 <= at < second.len() && runs_through(#[trigger] second[at], id);
            assert(second.contains(second[at]));
            assert(first.contains(second[at]));
            let to = choose|to: int| 0 <= to < first.len() && first[to] == second[at];
            assert(runs_through(first[to], id));
        }
    }
    assert(point_refs(first).to_set() =~= point_refs(second).to_set());
}

/// What is kept of the wanted polylines is among all the polylines.
proof fn lemma_kept_ways_one_per_ident(source: Seq<ObjView>, ids: Set<SegmentId>)
    requires
        one_per_ident(kept_ways(source, Set::full())),
    ensures
        one_per_ident(kept_ways(source, ids)),
{
    let all = kept_ways(source, Set::full());
    let kept = kept_ways(source, ids);
    assert forall|x: SegmentView| #[trigger] kept.contains(x) implies all.contains(
        x,
    ) by {
        lemma_picked(source, |obj: ObjView| kept_way(obj, ids), x);
        lemma_picked(source, |obj: ObjView| kept_way(obj, Set::full()), x);
        let i = choose|i: int|
            0 <= i < source.len() && kept_way(#[trigger] source[i], ids) == Some(x);
        assert(kept_way(source[i], Set::full()) == Some(x));
    }
}

/// What is kept of the wanted points is among all the points.
proof fn lemma_kept_nodes_one_per_ident(source: Seq<ObjView>, ids: Set<NodeId>)
    requires
        one_per_ident(kept_nodes(source, Set::full())),
    ensures
        one_per_ident(kept_nodes(source, ids)),
{
    let all = kept_nodes(source, Set::full());
    let kept = kept_nodes(source, ids);
    assert forall|x: Node| #[trigger] kept.contains(x) implies all.contains(x) by {
        lemma_picked(source, |obj: ObjView| kept_node(obj, ids), x);
        lemma_picked(source, |obj: ObjView| kept_node(obj, Set::full()), x);
        let i = choose|i: int|
            0 <= i < source.len() && kept_node(#[trigger] source[i], ids) == Some(x);
        assert(kept_node(source[i], Set::full()) == Some(x));
    }
}

/// An import does not depend on the order of the source: two sources that
/// hold the same objects fill the same three tables, where an identifier
/// stands for one object.
pub proof fn lemma_import_order_free<F: AreaFactory>(
    first: Seq<ObjView>,
    second: Seq<ObjView>,
    factory: &F,
)
    requires
        same_items(first, second),
        idents_settle(first, factory),
    ensures
        area_table(yielded_areas(first, factory)) == area_table(yielded_areas(second, factory)),
        segment_table(imported_segments(first, factory)) == segment_table(
            imported_segments(second, factory),
        ),
        node_table(imported_nodes(first, factory)) == node_table(imported_nodes(second, factory)),
{
    let areas1 = yielded_areas(first, factory);
    let areas2 = yielded_areas(second, factory);
    lemma_yielded_areas_order_free(first, second, factory);
    lemma_filed_order_free(areas1, areas2);

    lemma_wanted_segments_order_free(areas1, areas2);
    let wanted = wanted_segments(areas1);
    let segments1 = kept_ways(first, wanted);
    let segments2 = kept_ways(second, wanted);
    assert forall|x: SegmentView| #[trigger]
        segments1.contains(x) <==> segments2.contains(x) by {
        lemma_picked_order_free(first, second, |obj: ObjView| kept_way(obj, wanted), x);
    }
    lemma_kept_ways_one_per_ident(first, wanted);
    lemma_filed_order_free(segments1, segments2);

    lemma_point_refs_order_free(segments1, segments2);
    let points = point_refs(segments1).to_set();
    let nodes1 = kept_nodes(first, points);
    let nodes2 = kept_nodes(second, points);
    assert forall|x: Node| #[trigger] nodes1.contains(x) <==> nodes2.contains(
        x,
    ) by {
        lemma_picked_order_free(first, second, |obj: ObjView| kept_node(obj, points), x);
    }
    lemma_kept_nodes_one_per_ident(first, points);
    lemma_filed_order_free(nodes1, nodes2);
}

} // verus!
