//! The completeness filter: which areas have all their segments, and all
//! the points of those segments, in the tables.

use crate::parsers::tables::table;
use crate::parsers::{Area, AreaId, Node, NodeId, Segment, SegmentId, SegmentView};
use crate::seqs::{lemma_push_fresh, lemma_take_next_contains};
use crate::{AdminArea, AdminAreaView};
use std::collections::{HashMap, HashSet};
use vstd::prelude::*;
use vstd::std_specs::iter::IteratorSpec;

verus! {

/// Whether `area` names the segment `id`, in either ring.
pub open spec fn names(area: AdminAreaView, id: SegmentId) -> bool {
    area.inner.contains(id) || area.outer.contains(id)
}

/// Whether `segment` runs through the point `id`.
pub open spec fn runs_through(segment: SegmentView, id: NodeId) -> bool {
    segment.nodes.contains(id)
}

/// Whether the segment `id` is wanting: it is not in the segment table, or
/// it runs through a point that is not in `points`.
pub open spec fn wanting(
    id: SegmentId,
    segments: Map<SegmentId, SegmentView>,
    points: Set<NodeId>,
) -> bool {
    !segments.contains_key(id) || exists|point: NodeId|
        #[trigger] runs_through(segments[id], point) && !points.contains(point)
}

/// Every point that the segment runs through is in `points`.
pub open spec fn segment_complete(segment: SegmentView, points: Set<NodeId>) -> bool {
    forall|i: int| 0 <= i < segment.nodes.len() ==> points.contains(#[trigger] segment.nodes[i])
}

/// Every segment that the ring names is in `segments`, and complete.
pub open spec fn ring_complete(
    ring: Seq<SegmentId>,
    segments: Map<SegmentId, SegmentView>,
    points: Set<NodeId>,
) -> bool {
    forall|i: int|
        0 <= i < ring.len() ==> segments.contains_key(#[trigger] ring[i]) && segment_complete(
            segments[ring[i]],
            points,
        )
}

/// Both rings of the area are complete.
pub open spec fn area_complete(
    area: AdminAreaView,
    segments: Map<SegmentId, SegmentView>,
    points: Set<NodeId>,
) -> bool {
    ring_complete(area.inner, segments, points) && ring_complete(area.outer, segments, points)
}

/// The identifiers of the complete areas of an area table.
pub open spec fn complete_areas(
    areas: Map<AreaId, AdminAreaView>,
    segments: Map<SegmentId, SegmentView>,
    points: Set<NodeId>,
) -> Set<AreaId> {
    Set::new(|id: AreaId| areas.contains_key(id) && area_complete(areas[id], segments, points))
}

/// The identifiers of the complete segments of a segment table.
pub open spec fn complete_segment_ids(
    segments: Map<SegmentId, SegmentView>,
    points: Set<NodeId>,
) -> Set<SegmentId> {
    Set::new(|id: SegmentId| segments.contains_key(id) && segment_complete(segments[id], points))
}

/// Whether every point of `segment` is in the point table.
pub fn segment_is_complete(segment: &Segment, nodes: &HashMap<NodeId, Node>) -> (complete: bool)
    ensures
        complete == segment_complete(segment@, nodes@.dom()),
{
    let count = segment.nodes.len();
    for i in 0..count
        invariant
            count == segment.nodes@.len(),
            forall|j: int| 0 <= j < i ==> nodes@.dom().contains(#[trigger] segment.nodes@[j]),
    {
        if !nodes.contains_key(&segment.nodes[i]) {
            assert(!nodes@.dom().contains(segment@.nodes[i as int]));
            return false;
        }
    }
    true
}

/// The identifiers of the segments all of whose points are in the point
/// table.
pub fn complete_segments(
    segments: &HashMap<SegmentId, Segment>,
    nodes: &HashMap<NodeId, Node>,
) -> (complete: HashSet<SegmentId>)
    ensures
        complete@ == complete_segment_ids(table(segments@), nodes@.dom()),
{
    let mut complete: HashSet<SegmentId> = HashSet::new();
    let ghost keys: Seq<SegmentId> = segments.keys().remaining().unref();
    for id in it: segments.keys()
        invariant
            it.seq().unref() == keys,
            keys.to_set() == segments@.dom(),
            forall|k: SegmentId| #[trigger]
                complete@.contains(k) <==> keys.take(it.index()).contains(k)
                    && complete_segment_ids(table(segments@), nodes@.dom()).contains(k),
    {
        let ghost seen = it.index();
        proof {
            assert(keys[seen] == *id);
            assert(keys.to_set().contains(*id));
        }
        match segments.get(id) {
            Some(segment) => {
                if segment_is_complete(segment, nodes) {
                    complete.insert(*id);
                }
            },
            None => {},
        }
        proof {
            assert forall|k: SegmentId| #[trigger]
                complete@.contains(k) <==> keys.take(seen + 1).contains(k) && complete_segment_ids(
                    table(segments@),
                    nodes@.dom(),
                ).contains(k) by {
                lemma_take_next_contains(keys, seen, k);
            }
        }
    }
    proof {
        assert(keys.take(keys.len() as int) =~= keys);
        assert forall|k: SegmentId|
            complete_segment_ids(table(segments@), nodes@.dom()).contains(
                k,
            ) implies #[trigger] keys.contains(k) by {
            assert(keys.to_set().contains(k));
        }
        assert(complete@ =~= complete_segment_ids(table(segments@), nodes@.dom()));
    }
    complete
}

/// Whether every segment that `ring` names is in `complete`.
pub fn ring_within(ring: &Vec<SegmentId>, complete: &HashSet<SegmentId>) -> (within: bool)
    ensures
        within == (forall|i: int| 0 <= i < ring@.len() ==> complete@.contains(#[trigger] ring@[i])),
{
    let count = ring.len();
    for i in 0..count
        invariant
            count == ring@.len(),
            forall|j: int| 0 <= j < i ==> complete@.contains(#[trigger] ring@[j]),
    {
        if !complete.contains(&ring[i]) {
            return false;
        }
    }
    true
}

/// Whether every segment that `ring` names is in the segment table with
/// all its points in the point table.
pub fn ring_is_complete(
    ring: &Vec<SegmentId>,
    segments: &HashMap<SegmentId, Segment>,
    nodes: &HashMap<NodeId, Node>,
) -> (complete: bool)
    ensures
        complete == ring_complete(ring@, table(segments@), nodes@.dom()),
{
    let count = ring.len();
    for i in 0..count
        invariant
            count == ring@.len(),
            ring_complete(ring@.take(i as int), table(segments@), nodes@.dom()),
    {
        let found = match segments.get(&ring[i]) {
            Some(segment) => segment_is_complete(segment, nodes),
            None => false,
        };
        if !found {
            assert(!(table(segments@).contains_key(ring@[i as int]) && segment_complete(
                table(segments@)[ring@[i as int]],
                nodes@.dom(),
            )));
            return false;
        }
        proof {
            assert forall|j: int| 0 <= j < i + 1 implies table(segments@).contains_key(
                #[trigger] ring@.take(i + 1)[j],
            ) && segment_complete(table(segments@)[ring@.take(i + 1)[j]], nodes@.dom()) by {
                if j < i {
                    assert(ring@.take(i as int)[j] == ring@.take(i + 1)[j]);
                }
            }
        }
    }
    proof {
        assert(ring@.take(count as int) =~= ring@);
    }
    true
}

/// Whether `area` is complete in the two tables.
pub fn is_complete(
    area: &AdminArea,
    segments: &HashMap<SegmentId, Segment>,
    nodes: &HashMap<NodeId, Node>,
) -> (complete: bool)
    ensures
        complete == area_complete(area@, table(segments@), nodes@.dom()),
{
    ring_is_complete(area.get_inner(), segments, nodes) && ring_is_complete(
        area.get_outer(),
        segments,
        nodes,
    )
}

/// Keeps the areas whose whole closure is present: every segment of both
/// rings is in the segment table, and every point of each such segment is
/// in the point table. An area that lacks any of them is dropped. The
/// tables are only read. The identifiers come in no particular order, each
/// once.
pub fn filter_complete(
    areas: &HashMap<AreaId, AdminArea>,
    segments: &HashMap<SegmentId, Segment>,
    nodes: &HashMap<NodeId, Node>,
) -> (ids: Vec<AreaId>)
    ensures
        ids@.no_duplicates(),
        forall|id: AreaId| #[trigger]
            ids@.contains(id) <==> areas@.contains_key(id) && area_complete(
                areas@[id]@,
                table(segments@),
                nodes@.dom(),
            ),
        ids@.to_set() == complete_areas(table(areas@), table(segments@), nodes@.dom()),
{
    let filtered_segs = complete_segments(segments, nodes);
    let mut ids: Vec<AreaId> = Vec::new();
    let ghost keys: Seq<AreaId> = areas.keys().remaining().unref();
    let ghost wanted = complete_areas(table(areas@), table(segments@), nodes@.dom());
    for id in it: areas.keys()
        invariant
            it.seq().unref() == keys,
            keys.to_set() == areas@.dom(),
            keys.no_duplicates(),
            filtered_segs@ == complete_segment_ids(table(segments@), nodes@.dom()),
            wanted == complete_areas(table(areas@), table(segments@), nodes@.dom()),
            ids@.no_duplicates(),
            forall|k: AreaId| #[trigger]
                ids@.contains(k) <==> keys.take(it.index()).contains(k) && wanted.contains(k),
    {
        let ghost seen = it.index();
        let ghost earlier = ids@;
        proof {
            assert(keys[seen] == *id);
            assert(keys.to_set().contains(*id));
            assert(!keys.take(seen).contains(*id));
        }
        match areas.get(id) {
            Some(area) => {
                if ring_within(area.get_inner(), &filtered_segs) && ring_within(
                    area.get_outer(),
                    &filtered_segs,
                ) {
                    proof {
                        lemma_push_fresh(earlier, *id);
                    }
                    ids.push(*id);
                }
            },
            None => {},
        }
        proof {
            assert forall|k: AreaId| #[trigger]
                ids@.contains(k) <==> keys.take(seen + 1).contains(k) && wanted.contains(k) by {
                lemma_take_next_contains(keys, seen, k);
                if ids@ != earlier {
                    vstd::seq_lib::lemma_seq_contains_after_push(earlier, *id, k);
                }
            }
        }
    }
    proof {
        assert(keys.take(keys.len() as int) =~= keys);
        assert forall|k: AreaId| wanted.contains(k) implies #[trigger] keys.contains(k) by {
            assert(keys.to_set().contains(k));
        }
        assert(ids@.to_set() =~= wanted);
    }
    ids
}

/// Filtering is idempotent: of the areas that the filter keeps, a second
/// run over the same segment and point tables keeps every one, and it
/// keeps nothing that the first run dropped.
pub proof fn lemma_filter_idempotent(
    areas: Map<AreaId, AdminAreaView>,
    segments: Map<SegmentId, SegmentView>,
    points: Set<NodeId>,
)
    ensures
        complete_areas(
            areas.restrict(complete_areas(areas, segments, points)),
            segments,
            points,
        ) == complete_areas(areas, segments, points),
{
    let kept = complete_areas(areas, segments, points);
    assert(complete_areas(areas.restrict(kept), segments, points) =~= kept);
}

/// The closure of a kept area is present: each segment that it names is in
/// the segment table, and each point of such a segment is in the point
/// table.
pub proof fn lemma_kept_area_closed(
    areas: Map<AreaId, AdminAreaView>,
    segments: Map<SegmentId, SegmentView>,
    points: Set<NodeId>,
    id: AreaId,
    segment: SegmentId,
    point: NodeId,
)
    requires
        complete_areas(areas, segments, points).contains(id),
        names(areas[id], segment),
    ensures
        segments.contains_key(segment),
        runs_through(segments[segment], point) ==> points.contains(point),
{
    let area = areas[id];
    if area.inner.contains(segment) {
        let i = choose|i: int| 0 <= i < area.inner.len() && area.inner[i] == segment;
        assert(segments.contains_key(area.inner[i]));
    } else {
        let i = choose|i: int| 0 <= i < area.outer.len() && area.outer[i] == segment;
        assert(segments.contains_key(area.outer[i]));
    }
    if segments[segment].nodes.contains(point) {
        let j = choose|j: int|
            0 <= j < segments[segment].nodes.len() && segments[segment].nodes[j] == point;
        assert(points.contains(segments[segment].nodes[j]));
    }
}

/// A dropped area lacks something: a segment that it names is not in the
/// segment table, or runs through a point that is not in the point table.
pub proof fn lemma_dropped_area_lacks(
    areas: Map<AreaId, AdminAreaView>,
    segments: Map<SegmentId, SegmentView>,
    points: Set<NodeId>,
    id: AreaId,
)
    requires
        areas.contains_key(id),
        !complete_areas(areas, segments, points).contains(id),
    ensures
        exists|segment: SegmentId| #[trigger]
            names(areas[id], segment) && wanting(segment, segments, points),
{
    let area = areas[id];
    let ring = if !ring_complete(area.inner, segments, points) {
        area.inner
    } else {
        area.outer
    };
    let i = choose|i: int|
        0 <= i < ring.len() && !(segments.contains_key(#[trigger] ring[i]) && segment_complete(
            segments[ring[i]],
            points,
        ));
    let segment = ring[i];
    assert(ring.contains(segment));
    if segments.contains_key(segment) {
        let j = choose|j: int|
            0 <= j < segments[segment].nodes.len() && !points.contains(
                #[trigger] segments[segment].nodes[j],
            );
        let point = segments[segment].nodes[j];
        assert(segments[segment].nodes.contains(point));
        assert(runs_through(segments[segment], point) && !points.contains(point));
    }
    assert(names(area, segment) && wanting(segment, segments, points));
}

} // verus!
