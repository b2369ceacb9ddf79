//! What an import finds: every polyline and every point that the source
//! holds and that an area depends on reaches the tables.

use crate::filter::{names, runs_through};
use crate::parsers::areaparser::{
    imported_nodes, imported_segments, kept_node, kept_nodes, kept_way, kept_ways,
    lemma_point_refs_contains, lemma_wanted_segments, node_table, point_refs, segment_table,
    wanted_segments, yielded_areas,
};
use crate::parsers::tables::{is_last_of_its_ident, lemma_filed, Identified};
use crate::parsers::{AreaFactory, NodeId, SegmentId};
use crate::source::{lemma_picked, ObjView};
use vstd::prelude::*;

verus! {

/// Whether `obj` is the polyline `id`.
pub open spec fn is_way(obj: ObjView, id: SegmentId) -> bool {
    obj matches ObjView::Way(way) && way.id == id
}

/// Whether `obj` is the point `id`.
pub open spec fn is_node(obj: ObjView, id: NodeId) -> bool {
    obj matches ObjView::Node(node) && node.id == id
}

/// Whether the source holds a polyline `id`.
pub open spec fn has_way(source: Seq<ObjView>, id: SegmentId) -> bool {
    exists|i: int| 0 <= i < source.len() && is_way(#[trigger] source[i], id)
}

/// Whether the source holds a point `id`.
pub open spec fn has_node(source: Seq<ObjView>, id: NodeId) -> bool {
    exists|i: int| 0 <= i < source.len() && is_node(#[trigger] source[i], id)
}

/// The segment pass keeps a segment `id` exactly where `id` is wanted and
/// the source holds a polyline `id`.
pub proof fn lemma_kept_ways(source: Seq<ObjView>, ids: Set<SegmentId>, id: SegmentId)
    ensures
        (exists|k: int|
            0 <= k < kept_ways(source, ids).len() && (#[trigger] kept_ways(
                source,
                ids,
            )[k]).ident() == id) <==> ids.contains(id) && has_way(source, id),
{
    let kept = kept_ways(source, ids);
    let pick = |obj: ObjView| kept_way(obj, ids);
    if exists|k: int| 0 <= k < kept.len() && (#[trigger] kept[k]).ident() == id {
        let k = choose|k: int| 0 <= k < kept.len() && (#[trigger] kept[k]).ident() == id;
        assert(kept.contains(kept[k]));
        lemma_picked(source, pick, kept[k]);
        let i = choose|i: int| 0 <= i < source.len() && pick(#[trigger] source[i]) == Some(kept[k]);
        assert(is_way(source[i], id));
    }
    if ids.contains(id) && has_way(source, id) {
        let i = choose|i: int| 0 <= i < source.len() && is_way(#[trigger] source[i], id);
        let segment = kept_way(source[i], ids)->0;
        assert(pick(source[i]) == Some(segment));
        lemma_picked(source, pick, segment);
        let k = choose|k: int| 0 <= k < kept.len() && kept[k] == segment;
        assert(kept[k].ident() == id);
    }
}

/// The point pass keeps a point `id` exactly where `id` is wanted and the
/// source holds a point `id`.
pub proof fn lemma_kept_nodes(source: Seq<ObjView>, ids: Set<NodeId>, id: NodeId)
    ensures
        (exists|k: int|
            0 <= k < kept_nodes(source, ids).len() && (#[trigger] kept_nodes(
                source,
                ids,
            )[k]).ident() == id) <==> ids.contains(id) && has_node(source, id),
{
    let kept = kept_nodes(source, ids);
    let pick = |obj: ObjView| kept_node(obj, ids);
    if exists|k: int| 0 <= k < kept.len() && (#[trigger] kept[k]).ident() == id {
        let k = choose|k: int| 0 <= k < kept.len() && (#[trigger] kept[k]).ident() == id;
        assert(kept.contains(kept[k]));
        lemma_picked(source, pick, kept[k]);
        let i = choose|i: int| 0 <= i < source.len() && pick(#[trigger] source[i]) == Some(kept[k]);
        assert(is_node(source[i], id));
    }
    if ids.contains(id) && has_node(source, id) {
        let i = choose|i: int| 0 <= i < source.len() && is_node(#[trigger] source[i], id);
        let node = kept_node(source[i], ids)->0;
        assert(pick(source[i]) == Some(node));
        lemma_picked(source, pick, node);
        let k = choose|k: int| 0 <= k < kept.len() && kept[k] == node;
        assert(kept[k].ident() == id);
    }
}

/// An import finds what the source holds. Of a segment that a yielded area
/// names: it is in the segment table exactly where the source holds a
/// polyline of that identifier; and each point that it runs through is in
/// the point table exactly where the source holds a point of that
/// identifier. So an area comes out incomplete only where the source itself
/// lacks one of its polylines or points.
pub proof fn lemma_import_finds_what_the_source_holds<F: AreaFactory>(
    source: Seq<ObjView>,
    factory: &F,
    area: int,
    segment: SegmentId,
    point: NodeId,
)
    requires
        0 <= area < yielded_areas(source, factory).len(),
        names(yielded_areas(source, factory)[area], segment),
    ensures
        segment_table(imported_segments(source, factory)).contains_key(segment) <==> has_way(
            source,
            segment,
        ),
        has_way(source, segment) && runs_through(
            segment_table(imported_segments(source, factory))[segment],
            point,
        ) ==> (node_table(imported_nodes(source, factory)).contains_key(point) <==> has_node(
            source,
            point,
        )),
{
    let areas = yielded_areas(source, factory);
    let wanted = wanted_segments(areas);
    let segments = imported_segments(source, factory);
    let points = point_refs(segments).to_set();
    lemma_wanted_segments(areas, segment);
    lemma_kept_ways(source, wanted, segment);
    lemma_filed(segments, segment);
    if has_way(source, segment) && runs_through(segment_table(segments)[segment], point) {
        let at = choose|at: int|
            #[trigger] is_last_of_its_ident(segments, at) && segments[at].ident() == segment
                && segment_table(segments)[segment] == segments[at];
        lemma_point_refs_contains(segments, point);
        lemma_kept_nodes(source, points, point);
        lemma_filed(imported_nodes(source, factory), point);
    }
}

} // verus!
