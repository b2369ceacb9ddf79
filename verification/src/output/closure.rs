//! What a snapshot holds: the listed areas, the segments that they name and
//! the points that those segments run through.

use crate::filter::{area_complete, names, runs_through};
use crate::parsers::areaparser::{lemma_point_refs_contains, point_refs};
use crate::parsers::{AreaId, NodeId, SegmentId, SegmentView};
use crate::seqs::{distinct, lemma_distinct};
use crate::AdminAreaView;
use vstd::prelude::*;
use vstd::seq_lib::lemma_seq_concat_contains_all_elements;

verus! {

/// The areas filed under `area_ids`, in that order.
pub open spec fn written_areas(
    area_ids: Seq<AreaId>,
    areas: Map<AreaId, AdminAreaView>,
) -> Seq<AdminAreaView> {
    area_ids.map_values(|id: AreaId| areas[id])
}

/// The segments that `areas` name, area after area, the inner ring of each
/// before its outer ring.
pub open spec fn segment_refs(areas: Seq<AdminAreaView>) -> Seq<SegmentId>
    decreases areas.len(),
{
    if areas.len() == 0 {
        Seq::empty()
    } else {
        segment_refs(areas.drop_last()) + areas.last().inner + areas.last().outer
    }
}

/// The segments to write for `area_ids`: each segment that one of the areas
/// names, once, in the order in which the areas first name them.
pub open spec fn segment_ids_to_write(
    area_ids: Seq<AreaId>,
    areas: Map<AreaId, AdminAreaView>,
) -> Seq<SegmentId> {
    distinct(segment_refs(written_areas(area_ids, areas)))
}

/// The segments filed under `segment_ids`, in that order.
pub open spec fn written_segments(
    segment_ids: Seq<SegmentId>,
    segments: Map<SegmentId, SegmentView>,
) -> Seq<SegmentView> {
    segment_ids.map_values(|id: SegmentId| segments[id])
}

/// The points to write for `area_ids`: each point that a written segment
/// runs through, once, in the order in which the segments first reach them.
pub open spec fn node_ids_to_write(
    area_ids: Seq<AreaId>,
    areas: Map<AreaId, AdminAreaView>,
    segments: Map<SegmentId, SegmentView>,
) -> Seq<NodeId> {
    distinct(point_refs(written_segments(segment_ids_to_write(area_ids, areas), segments)))
}

/// The segments that the listed areas name.
pub open spec fn reachable_segments(
    area_ids: Seq<AreaId>,
    areas: Map<AreaId, AdminAreaView>,
) -> Set<SegmentId> {
    Set::new(
        |segment: SegmentId|
            exists|i: int| 0 <= i < area_ids.len() && names(areas[#[trigger] area_ids[i]], segment),
    )
}

/// The points that can be reached from the listed areas: those that a
/// segment named by a listed area runs through.
pub open spec fn reachable_points(
    area_ids: Seq<AreaId>,
    areas: Map<AreaId, AdminAreaView>,
    segments: Map<SegmentId, SegmentView>,
) -> Set<NodeId> {
    Set::new(
        |point: NodeId|
            exists|segment: SegmentId|
                reachable_segments(area_ids, areas).contains(segment) && #[trigger] runs_through(
                    segments[segment],
                    point,
                ),
    )
}

/// Every listed area is in the area table, and every segment that one of
/// them names is in the segment table.
pub open spec fn segments_present(
    area_ids: Seq<AreaId>,
    areas: Map<AreaId, AdminAreaView>,
    segments: Map<SegmentId, SegmentView>,
) -> bool {
    &&& forall|i: int| 0 <= i < area_ids.len() ==> areas.contains_key(#[trigger] area_ids[i])
    &&& reachable_segments(area_ids, areas).subset_of(segments.dom())
}

/// Every listed area is in the area table and complete: what the exporter
/// asks of its input.
pub open spec fn exportable(
    area_ids: Seq<AreaId>,
    areas: Map<AreaId, AdminAreaView>,
    segments: Map<SegmentId, SegmentView>,
    points: Set<NodeId>,
) -> bool {
    forall|i: int|
        0 <= i < area_ids.len() ==> areas.contains_key(#[trigger] area_ids[i]) && area_complete(
            areas[area_ids[i]],
            segments,
            points,
        )
}

/// A segment named by `areas` is named by one of them, in one of its rings.
pub proof fn lemma_segment_refs_contains(areas: Seq<AdminAreaView>, id: SegmentId)
    ensures
        segment_refs(areas).contains(id) <==> exists|i: int|
            0 <= i < areas.len() && names(#[trigger] areas[i], id),
    decreases areas.len(),
{
    if areas.len() == 0 {
    } else {
        let earlier = areas.drop_last();
        let last = areas.last();
        lemma_segment_refs_contains(earlier, id);
        lemma_seq_concat_contains_all_elements(
            segment_refs(earlier) + last.inner,
            last.outer,
            id,
        );
        lemma_seq_concat_contains_all_elements(
            segment_refs(earlier),
            last.inner,
            id,
        );
        if segment_refs(areas).contains(id) {
            if segment_refs(earlier).contains(id) {
                let i = choose|i: int| 0 <= i < earlier.len() && names(#[trigger] earlier[i], id);
                assert(areas[i] == earlier[i]);
                assert(names(areas[i], id));
            } else {
                assert(names(areas[areas.len() - 1], id));
            }
        }
        if exists|i: int| 0 <= i < areas.len() && names(#[trigger] areas[i], id) {
            let i = choose|i: int| 0 <= i < areas.len() && names(#[trigger] areas[i], id);
            if i < areas.len() - 1 {
                assert(earlier[i] == areas[i]);
                assert(names(earlier[i], id));
            }
        }
    }
}

/// The segments written are the segments that the listed areas name: each
/// of them, each once, and no other.
pub proof fn lemma_written_segments_are_reachable(
    area_ids: Seq<AreaId>,
    areas: Map<AreaId, AdminAreaView>,
)
    ensures
        segment_ids_to_write(area_ids, areas).no_duplicates(),
        segment_ids_to_write(area_ids, areas).to_set() == reachable_segments(area_ids, areas),
{
    let listed = written_areas(area_ids, areas);
    let written = segment_ids_to_write(area_ids, areas);
    lemma_distinct(segment_refs(listed));
    assert forall|segment: SegmentId|
        written.to_set().contains(segment) <==> reachable_segments(area_ids, areas).contains(
            segment,
        ) by {
        lemma_segment_refs_contains(listed, segment);
        assert(segment_refs(listed).to_set().contains(segment) <==> segment_refs(listed).contains(
            segment,
        ));
        if segment_refs(listed).contains(segment) {
            let i = choose|i: int| 0 <= i < listed.len() && names(#[trigger] listed[i], segment);
            assert(listed[i] == areas[area_ids[i]]);
        }
        if reachable_segments(area_ids, areas).contains(segment) {
            let i = choose|i: int|
                0 <= i < area_ids.len() && names(areas[#[trigger] area_ids[i]], segment);
            assert(listed[i] == areas[area_ids[i]]);
            assert(names(listed[i], segment));
        }
    }
    assert(written.to_set() =~= reachable_segments(area_ids, areas));
}

/// The points written are the points reachable from the listed areas
/// through their segments: none is left out, none is written without need,
/// none is written twice.
pub proof fn lemma_written_points_are_reachable(
    area_ids: Seq<AreaId>,
    areas: Map<AreaId, AdminAreaView>,
    segments: Map<SegmentId, SegmentView>,
)
    ensures
        node_ids_to_write(area_ids, areas, segments).no_duplicates(),
        node_ids_to_write(area_ids, areas, segments).to_set() == reachable_points(
            area_ids,
            areas,
            segments,
        ),
{
    let seg_ids = segment_ids_to_write(area_ids, areas);
    let chosen = written_segments(seg_ids, segments);
    let written = node_ids_to_write(area_ids, areas, segments);
    lemma_distinct(point_refs(chosen));
    lemma_written_segments_are_reachable(area_ids, areas);
    assert forall|point: NodeId|
        written.to_set().contains(point) <==> reachable_points(area_ids, areas, segments).contains(
            point,
        ) by {
        lemma_point_refs_contains(chosen, point);
        assert(point_refs(chosen).to_set().contains(point) <==> point_refs(chosen).contains(
            point,
        ));
        if point_refs(chosen).contains(point) {
            let j = choose|j: int|
                0 <= j < chosen.len() && runs_through(#[trigger] chosen[j], point);
            assert(chosen[j] == segments[seg_ids[j]]);
            assert(seg_ids.to_set().contains(seg_ids[j]));
            assert(runs_through(segments[seg_ids[j]], point));
        }
        if reachable_points(area_ids, areas, segments).contains(point) {
            let segment = choose|segment: SegmentId|
                reachable_segments(area_ids, areas).contains(segment) && #[trigger] runs_through(
                    segments[segment],
                    point,
                );
            assert(seg_ids.to_set().contains(segment));
            let j = choose|j: int| 0 <= j < seg_ids.len() && seg_ids[j] == segment;
            assert(chosen[j] == segments[segment]);
            assert(runs_through(chosen[j], point));
        }
    }
    assert(written.to_set() =~= reachable_points(area_ids, areas, segments));
}

/// The closure of complete areas is present: every segment that one of
/// them names is in the segment table, and every point that can be reached
/// from them is in the point table.
pub proof fn lemma_exportable_closure(
    area_ids: Seq<AreaId>,
    areas: Map<AreaId, AdminAreaView>,
    segments: Map<SegmentId, SegmentView>,
    points: Set<NodeId>,
)
    requires
        exportable(area_ids, areas, segments, points),
    ensures
        segments_present(area_ids, areas, segments),
        reachable_points(area_ids, areas, segments).subset_of(points),
{
    assert forall|segment: SegmentId|
        reachable_segments(area_ids, areas).contains(segment) implies segments.contains_key(
        segment,
    ) && forall|point: NodeId| #[trigger]
        runs_through(segments[segment], point) ==> points.contains(point) by {
        let i = choose|i: int|
            0 <= i < area_ids.len() && names(areas[#[trigger] area_ids[i]], segment);
        assert forall|point: NodeId| #[trigger]
            runs_through(segments[segment], point) implies segments.contains_key(segment)
            && points.contains(point) by {
            crate::filter::lemma_kept_area_closed(
                areas,
                segments,
                points,
                area_ids[i],
                segment,
                point,
            );
        }
        crate::filter::lemma_kept_area_closed(areas, segments, points, area_ids[i], segment, 0);
    }
    assert forall|point: NodeId|
        reachable_points(area_ids, areas, segments).contains(point) implies points.contains(
        point,
    ) by {
        let segment = choose|segment: SegmentId|
            reachable_segments(area_ids, areas).contains(segment) && #[trigger] runs_through(
                segments[segment],
                point,
            );
    }
}

} // verus!
