//! The three passes of an import: areas, then the polylines that the areas
//! name, then the points that those polylines run through.

use crate::filter::{names, runs_through};
use crate::parsers::tables::{filed, table};
use crate::parsers::{Area, AreaFactory, AreaId, Node, NodeId, Segment, SegmentId, SegmentView};
use crate::source::{picked, source_view, ObjView, OsmObj};
use crate::{AdminArea, AdminAreaView};
use std::collections::{HashMap, HashSet};
use vstd::prelude::*;
use vstd::seq_lib::{lemma_seq_concat_contains_all_elements, to_multiset_contains};

verus! {

/// The views of a run of segments, one by one.
pub open spec fn segment_views(segments: Seq<Segment>) -> Seq<SegmentView> {
    segments.map_values(|s: Segment| s@)
}

/// The area that one decoded object yields under `factory`: that of a valid
/// relation for which the factory finds a level and a name.
pub open spec fn yielded_area<F: AreaFactory>(obj: ObjView, factory: &F) -> Option<AdminAreaView> {
    match obj {
        ObjView::Relation(rel) => if factory.valid(rel.tags) {
            factory.area_of(rel)
        } else {
            None
        },
        _ => None,
    }
}

/// The areas that a decoded sequence yields under `factory`, in source order.
pub open spec fn yielded_areas<F: AreaFactory>(source: Seq<ObjView>, factory: &F) -> Seq<
    AdminAreaView,
> {
    picked(source, |obj: ObjView| yielded_area(obj, factory))
}

/// The inner polylines that `areas` name, area after area.
pub open spec fn inner_refs(areas: Seq<AdminAreaView>) -> Seq<SegmentId>
    decreases areas.len(),
{
    if areas.len() == 0 {
        Seq::empty()
    } else {
        inner_refs(areas.drop_last()) + areas.last().inner
    }
}

/// The outer polylines that `areas` name, area after area.
pub open spec fn outer_refs(areas: Seq<AdminAreaView>) -> Seq<SegmentId>
    decreases areas.len(),
{
    if areas.len() == 0 {
        Seq::empty()
    } else {
        outer_refs(areas.drop_last()) + areas.last().outer
    }
}

/// The segments that an import keeps: every polyline that one of `areas`
/// names, in an inner or an outer ring.
pub open spec fn wanted_segments(areas: Seq<AdminAreaView>) -> Set<SegmentId> {
    inner_refs(areas).to_set().union(outer_refs(areas).to_set())
}

/// The area table that `areas` fill: each under its identifier, a later
/// area replacing an earlier one of the same identifier.
pub open spec fn area_table(areas: Seq<AdminAreaView>) -> Map<AreaId, AdminAreaView> {
    filed(areas)
}

/// The segment that one decoded object gives where `ids` are wanted: that
/// of a polyline whose identifier is among them.
pub open spec fn kept_way(obj: ObjView, ids: Set<SegmentId>) -> Option<SegmentView> {
    match obj {
        ObjView::Way(way) => if ids.contains(way.id) {
            Some(SegmentView { osmid: way.id, nodes: way.nodes })
        } else {
            None
        },
        _ => None,
    }
}

/// The polylines of a decoded sequence whose identifier is in `ids`, as
/// segments, in source order.
pub open spec fn kept_ways(source: Seq<ObjView>, ids: Set<SegmentId>) -> Seq<SegmentView> {
    picked(source, |obj: ObjView| kept_way(obj, ids))
}

/// The points that `segments` run through, segment after segment.
pub open spec fn point_refs(segments: Seq<SegmentView>) -> Seq<NodeId>
    decreases segments.len(),
{
    if segments.len() == 0 {
        Seq::empty()
    } else {
        point_refs(segments.drop_last()) + segments.last().nodes
    }
}

/// The segment table that `segments` fill, a later one replacing an earlier
/// one of the same identifier.
pub open spec fn segment_table(segments: Seq<SegmentView>) -> Map<SegmentId, SegmentView> {
    filed(segments)
}

/// The segments that an import records when its area pass has read
/// `area_pass` and its segment pass `segment_pass`.
pub open spec fn streamed_segments<F: AreaFactory>(
    area_pass: Seq<ObjView>,
    segment_pass: Seq<ObjView>,
    factory: &F,
) -> Seq<SegmentView> {
    kept_ways(segment_pass, wanted_segments(yielded_areas(area_pass, factory)))
}

/// The segments that an import of `source` records, in source order: each
/// pass reads the whole of `source`.
pub open spec fn imported_segments<F: AreaFactory>(source: Seq<ObjView>, factory: &F) -> Seq<
    SegmentView,
> {
    streamed_segments(source, source, factory)
}

/// The point that one decoded object gives where `ids` are wanted: that of
/// a point whose identifier is among them.
pub open spec fn kept_node(obj: ObjView, ids: Set<NodeId>) -> Option<Node> {
    match obj {
        ObjView::Node(node) => if ids.contains(node.id) {
            Some(Node { osmid: node.id, lat: node.decimicro_lat, lon: node.decimicro_lon })
        } else {
            None
        },
        _ => None,
    }
}

/// The points of a decoded sequence whose identifier is in `ids`, in source
/// order.
pub open spec fn kept_nodes(source: Seq<ObjView>, ids: Set<NodeId>) -> Seq<Node> {
    picked(source, |obj: ObjView| kept_node(obj, ids))
}

/// The point table that `nodes` fill, a later one replacing an earlier one
/// of the same identifier.
pub open spec fn node_table(nodes: Seq<Node>) -> Map<NodeId, Node> {
    filed(nodes)
}

/// The points that an import records when its three passes have read
/// `area_pass`, `segment_pass` and `point_pass`.
pub open spec fn streamed_nodes<F: AreaFactory>(
    area_pass: Seq<ObjView>,
    segment_pass: Seq<ObjView>,
    point_pass: Seq<ObjView>,
    factory: &F,
) -> Seq<Node> {
    kept_nodes(point_pass, point_refs(streamed_segments(area_pass, segment_pass, factory)).to_set())
}

/// The points that an import of `source` records, in source order: those
/// that a recorded segment runs through.
pub open spec fn imported_nodes<F: AreaFactory>(source: Seq<ObjView>, factory: &F) -> Seq<Node> {
    streamed_nodes(source, source, source, factory)
}

/// What one more object adds to the areas of a pass, and to what they
/// name.
pub proof fn lemma_next_yielded<F: AreaFactory>(read: Seq<ObjView>, next: ObjView, factory: &F)
    ensures
        match yielded_area(next, factory) {
            Some(area) => {
                &&& yielded_areas(read.push(next), factory) == yielded_areas(read, factory).push(
                    area,
                )
                &&& area_table(yielded_areas(read.push(next), factory)) == area_table(
                    yielded_areas(read, factory),
                ).insert(area.osmid, area)
                &&& inner_refs(yielded_areas(read.push(next), factory)) == inner_refs(
                    yielded_areas(read, factory),
                ) + area.inner
                &&& outer_refs(yielded_areas(read.push(next), factory)) == outer_refs(
                    yielded_areas(read, factory),
                ) + area.outer
            },
            None => yielded_areas(read.push(next), factory) == yielded_areas(read, factory),
        },
{
    assert(read.push(next).drop_last() =~= read);
    if let Some(area) = yielded_area(next, factory) {
        assert(yielded_areas(read, factory).push(area).drop_last() =~= yielded_areas(
            read,
            factory,
        ));
    }
}

/// What one more object adds to the segments of a pass, and to their
/// points.
pub proof fn lemma_next_kept_way(read: Seq<ObjView>, next: ObjView, ids: Set<SegmentId>)
    ensures
        match kept_way(next, ids) {
            Some(segment) => {
                &&& kept_ways(read.push(next), ids) == kept_ways(read, ids).push(segment)
                &&& point_refs(kept_ways(read.push(next), ids)) == point_refs(kept_ways(read, ids))
                    + segment.nodes
            },
            None => kept_ways(read.push(next), ids) == kept_ways(read, ids),
        },
{
    assert(read.push(next).drop_last() =~= read);
    if let Some(segment) = kept_way(next, ids) {
        assert(kept_ways(read, ids).push(segment).drop_last() =~= kept_ways(read, ids));
    }
}

/// What one more object adds to the points of a pass.
pub proof fn lemma_next_kept_node(read: Seq<ObjView>, next: ObjView, ids: Set<NodeId>)
    ensures
        kept_nodes(read.push(next), ids) == match kept_node(next, ids) {
            Some(node) => kept_nodes(read, ids).push(node),
            None => kept_nodes(read, ids),
        },
{
    assert(read.push(next).drop_last() =~= read);
}

/// A segment is wanted exactly where one of `areas` names it.
pub proof fn lemma_wanted_segments(areas: Seq<AdminAreaView>, id: SegmentId)
    ensures
        wanted_segments(areas).contains(id) <==> exists|at: int|
            0 <= at < areas.len() && names(#[trigger] areas[at], id),
    decreases areas.len(),
{
    if areas.len() > 0 {
        let earlier = areas.drop_last();
        lemma_wanted_segments(earlier, id);
        lemma_seq_concat_contains_all_elements(inner_refs(earlier), areas.last().inner, id);
        lemma_seq_concat_contains_all_elements(outer_refs(earlier), areas.last().outer, id);
        if wanted_segments(areas).contains(id) {
            if wanted_segments(earlier).contains(id) {
                let at = choose|at: int|
                    0 <= at < earlier.len() && names(#[trigger] earlier[at], id);
                assert(areas[at] == earlier[at]);
                assert(names(areas[at], id));
            } else {
                assert(names(areas[areas.len() - 1], id));
            }
        }
        if exists|at: int| 0 <= at < areas.len() && names(#[trigger] areas[at], id) {
            let at = choose|at: int| 0 <= at < areas.len() && names(#[trigger] areas[at], id);
            if at < areas.len() - 1 {
                assert(earlier[at] == areas[at]);
                assert(names(earlier[at], id));
            }
        }
    }
}

/// A point is among the points of `segments` exactly where one of them
/// runs through it.
pub proof fn lemma_point_refs_contains(segments: Seq<SegmentView>, id: NodeId)
    ensures
        point_refs(segments).contains(id) <==> exists|j: int|
            0 <= j < segments.len() && runs_through(#[trigger] segments[j], id),
    decreases segments.len(),
{
    if segments.len() == 0 {
    } else {
        let earlier = segments.drop_last();
        lemma_point_refs_contains(earlier, id);
        lemma_seq_concat_contains_all_elements(
            point_refs(earlier),
            segments.last().nodes,
            id,
        );
        if point_refs(segments).contains(id) {
            if point_refs(earlier).contains(id) {
                let j = choose|j: int|
                    0 <= j < earlier.len() && runs_through(#[trigger] earlier[j], id);
                assert(segments[j] == earlier[j]);
                assert(runs_through(segments[j], id));
            } else {
                assert(runs_through(segments[segments.len() - 1], id));
            }
        }
        if exists|j: int| 0 <= j < segments.len() && runs_through(#[trigger] segments[j], id) {
            let j = choose|j: int|
                0 <= j < segments.len() && runs_through(#[trigger] segments[j], id);
            if j < segments.len() - 1 {
                assert(earlier[j] == segments[j]);
                assert(runs_through(earlier[j], id));
            }
        }
    }
}

/// What the aggregator yields does not depend on the order of arrival: two
/// queues that delivered the same identifiers, each as often, give the same
/// set.
pub proof fn lemma_collected_ids_ignore_order(first: Seq<i64>, second: Seq<i64>)
    requires
        first.to_multiset() == second.to_multiset(),
    ensures
        first.to_set() == second.to_set(),
{
    assert forall|id: i64| first.contains(id) <==> second.contains(id) by {
        to_multiset_contains(first, id);
        to_multiset_contains(second, id);
    }
    assert(first.to_set() =~= second.to_set());
}

/// Adds every identifier of `ids` to `set`.
pub fn extend_ids(set: &mut HashSet<i64>, ids: &Vec<i64>)
    ensures
        final(set)@ == old(set)@.union(ids@.to_set()),
{
    let count = ids.len();
    for i in 0..count
        invariant
            count == ids@.len(),
            set@ == old(set)@.union(ids@.take(i as int).to_set()),
    {
        proof {
            assert(ids@.take(i + 1) =~= ids@.take(i as int).push(ids@[i as int]));
            ids@.take(i as int).lemma_push_to_set_commute(ids@[i as int]);
        }
        set.insert(ids[i]);
    }
    proof {
        assert(ids@.take(count as int) =~= ids@);
    }
}

/// Gathers the identifiers that a queue delivered into a set: each once,
/// whatever the order and however often it came.
pub fn collect_ids(ids: &Vec<i64>) -> (set: HashSet<i64>)
    ensures
        set@ == ids@.to_set(),
{
    let mut set: HashSet<i64> = HashSet::new();
    extend_ids(&mut set, ids);
    set
}

/// One step of the area pass: asks the factory about `obj` and, where it
/// makes an area of it, files the area and reports its polylines to the
/// sinks.
pub fn record_area<F: AreaFactory>(
    obj: &OsmObj,
    area_factory: &F,
    areas: &mut HashMap<AreaId, AdminArea>,
    inner_sink: &mut Vec<SegmentId>,
    outer_sink: &mut Vec<SegmentId>,
)
    ensures
        match yielded_area(obj@, area_factory) {
            Some(area) => {
                &&& table(final(areas)@) == table(old(areas)@).insert(area.osmid, area)
                &&& final(inner_sink)@ == old(inner_sink)@ + area.inner
                &&& final(outer_sink)@ == old(outer_sink)@ + area.outer
            },
            None => {
                &&& final(areas)@ == old(areas)@
                &&& final(inner_sink)@ == old(inner_sink)@
                &&& final(outer_sink)@ == old(outer_sink)@
            },
        },
{
    if let OsmObj::Relation(rel) = obj {
        if area_factory.is_valid(&rel.tags) {
            if let Some(area) = area_factory.to_area(rel, inner_sink, outer_sink) {
                proof {
                    assert(table(areas@.insert(area.osmid, area)) =~= table(areas@).insert(
                        area@.osmid,
                        area@,
                    ));
                }
                let id = area.get_id();
                areas.insert(id, area);
                return ;
            }
        }
    }
    proof {
        assert(inner_sink@ =~= old(inner_sink)@);
        assert(outer_sink@ =~= old(outer_sink)@);
    }
}

/// One step of the segment pass: where `obj` is a polyline whose identifier
/// is in `ids`, records it as a segment and reports its points to the sink.
pub fn record_way(
    obj: &OsmObj,
    ids: &HashSet<SegmentId>,
    segments: &mut Vec<Segment>,
    node_id_sink: &mut Vec<NodeId>,
)
    ensures
        match kept_way(obj@, ids@) {
            Some(segment) => {
                &&& segment_views(final(segments)@) == segment_views(old(segments)@).push(segment)
                &&& final(node_id_sink)@ == old(node_id_sink)@ + segment.nodes
            },
            None => {
                &&& final(segments)@ == old(segments)@
                &&& final(node_id_sink)@ == old(node_id_sink)@
            },
        },
{
    if let OsmObj::Way(way) = obj {
        if ids.contains(&way.id) {
            let segment = Segment { osmid: way.id, nodes: way.nodes.clone() };
            proof {
                assert(segment_views(segments@.push(segment)) =~= segment_views(segments@).push(
                    segment@,
                ));
            }
            node_id_sink.extend_from_slice(way.nodes.as_slice());
            segments.push(segment);
            proof {
                assert(node_id_sink@ =~= old(node_id_sink)@ + way.nodes@);
            }
        }
    }
}

/// One step of the point pass: where `obj` is a point whose identifier is
/// in `ids`, records it.
pub fn record_node(obj: &OsmObj, ids: &HashSet<NodeId>, nodes: &mut Vec<Node>)
    ensures
        final(nodes)@ == match kept_node(obj@, ids@) {
            Some(node) => old(nodes)@.push(node),
            None => old(nodes)@,
        },
{
    if let OsmObj::Node(node) = obj {
        if ids.contains(&node.id) {
            nodes.push(Node { osmid: node.id, lat: node.decimicro_lat, lon: node.decimicro_lon });
        }
    }
}

/// The area pass: asks the factory about every relation and records the
/// areas it makes. The polylines that the areas name go to the two sinks.
pub fn import_relations<F: AreaFactory>(
    source: &Vec<OsmObj>,
    area_factory: &F,
    inner_sink: &mut Vec<SegmentId>,
    outer_sink: &mut Vec<SegmentId>,
) -> (areas: HashMap<AreaId, AdminArea>)
    ensures
        table(areas@) == area_table(yielded_areas(source_view(source@), area_factory)),
        final(inner_sink)@ == old(inner_sink)@ + inner_refs(
            yielded_areas(source_view(source@), area_factory),
        ),
        final(outer_sink)@ == old(outer_sink)@ + outer_refs(
            yielded_areas(source_view(source@), area_factory),
        ),
{
    let ghost objects = source_view(source@);
    let mut areas: HashMap<AreaId, AdminArea> = HashMap::new();
    let count = source.len();
    proof {
        assert(table(areas@) =~= area_table(yielded_areas(objects.take(0), area_factory)));
    }
    for i in 0..count
        invariant
            count == source@.len(),
            objects == source_view(source@),
            table(areas@) == area_table(yielded_areas(objects.take(i as int), area_factory)),
            inner_sink@ == old(inner_sink)@ + inner_refs(
                yielded_areas(objects.take(i as int), area_factory),
            ),
            outer_sink@ == old(outer_sink)@ + outer_refs(
                yielded_areas(objects.take(i as int), area_factory),
            ),
    {
        proof {
            lemma_next_yielded(objects.take(i as int), source@[i as int]@, area_factory);
            assert(objects.take(i + 1) =~= objects.take(i as int).push(source@[i as int]@));
        }
        record_area(&source[i], area_factory, &mut areas, inner_sink, outer_sink);
    }
    proof {
        assert(objects.take(count as int) =~= objects);
    }
    areas
}

/// The segment pass: keeps the polylines whose identifier is in `ids`, and
/// appends the points of each kept polyline to the sink.
pub fn import_ways(
    ids: &HashSet<SegmentId>,
    source: &Vec<OsmObj>,
    node_id_sink: &mut Vec<NodeId>,
) -> (segments: Vec<Segment>)
    ensures
        segment_views(segments@) == kept_ways(source_view(source@), ids@),
        final(node_id_sink)@ == old(node_id_sink)@ + point_refs(
            kept_ways(source_view(source@), ids@),
        ),
{
    let ghost objects = source_view(source@);
    let mut segments: Vec<Segment> = Vec::new();
    let count = source.len();
    for i in 0..count
        invariant
            count == source@.len(),
            objects == source_view(source@),
            segment_views(segments@) == kept_ways(objects.take(i as int), ids@),
            node_id_sink@ == old(node_id_sink)@ + point_refs(
                kept_ways(objects.take(i as int), ids@),
            ),
    {
        proof {
            lemma_next_kept_way(objects.take(i as int), source@[i as int]@, ids@);
            assert(objects.take(i + 1) =~= objects.take(i as int).push(source@[i as int]@));
        }
        record_way(&source[i], ids, &mut segments, node_id_sink);
    }
    proof {
        assert(objects.take(count as int) =~= objects);
    }
    segments
}

/// The point pass: keeps the points whose identifier is in `ids`.
pub fn import_nodes(ids: &HashSet<NodeId>, source: &Vec<OsmObj>) -> (nodes: Vec<Node>)
    ensures
        nodes@ == kept_nodes(source_view(source@), ids@),
{
    let ghost objects = source_view(source@);
    let mut nodes: Vec<Node> = Vec::new();
    let count = source.len();
    for i in 0..count
        invariant
            count == source@.len(),
            objects == source_view(source@),
            nodes@ == kept_nodes(objects.take(i as int), ids@),
    {
        proof {
            lemma_next_kept_node(objects.take(i as int), source@[i as int]@, ids@);
            assert(objects.take(i + 1) =~= objects.take(i as int).push(source@[i as int]@));
        }
        record_node(&source[i], ids, &mut nodes);
    }
    proof {
        assert(objects.take(count as int) =~= objects);
    }
    nodes
}

/// Files segments under their identifiers.
pub fn index_segments(segments: Vec<Segment>) -> (segmap: HashMap<SegmentId, Segment>)
    ensures
        table(segmap@) == segment_table(segment_views(segments@)),
{
    let ghost all = segment_views(segments@);
    let mut segmap: HashMap<SegmentId, Segment> = HashMap::new();
    proof {
        assert(table(segmap@) =~= segment_table(all.take(0)));
    }
    for segment in it: segments
        invariant
            it.seq() == segments@,
            all == segment_views(segments@),
            table(segmap@) == segment_table(all.take(it.index())),
    {
        proof {
            assert(all.take(it.index() + 1).drop_last() =~= all.take(it.index()));
            assert(all.take(it.index() + 1).last() == segment@);
            assert(table(segmap@.insert(segment.osmid, segment)) =~= table(segmap@).insert(
                segment@.osmid,
                segment@,
            ));
        }
        segmap.insert(segment.osmid, segment);
    }
    proof {
        assert(all.take(all.len() as int) =~= all);
    }
    segmap
}

/// Files points under their identifiers.
pub fn index_nodes(nodes: Vec<Node>) -> (nodemap: HashMap<NodeId, Node>)
    ensures
        nodemap@ == node_table(nodes@),
{
    let mut nodemap: HashMap<NodeId, Node> = HashMap::new();
    proof {
        assert(nodemap@ =~= node_table(nodes@.take(0)));
    }
    let count = nodes.len();
    for i in 0..count
        invariant
            count == nodes@.len(),
            nodemap@ == node_table(nodes@.take(i as int)),
    {
        proof {
            assert(nodes@.take(i + 1).drop_last() =~= nodes@.take(i as int));
        }
        let node = nodes[i];
        nodemap.insert(node.osmid, node);
    }
    proof {
        assert(nodes@.take(count as int) =~= nodes@);
    }
    nodemap
}

/// Imports the areas of a decoded source with all that they depend on. Each
/// of the three passes reads the whole of `source`: the areas that
/// `area_factory` makes, then the polylines that those areas name, then the
/// points that those polylines run through. Nothing is filtered here: an
/// area is recorded whether or not its polylines and points were found.
pub fn import_areas<F: AreaFactory>(source: &Vec<OsmObj>, area_factory: &F) -> (tables: (
    HashMap<AreaId, AdminArea>,
    HashMap<SegmentId, Segment>,
    HashMap<NodeId, Node>,
))
    ensures
        table(tables.0@) == area_table(yielded_areas(source_view(source@), area_factory)),
        table(tables.1@) == segment_table(imported_segments(source_view(source@), area_factory)),
        tables.2@ == node_table(imported_nodes(source_view(source@), area_factory)),
{
    let mut inner_id_sink: Vec<SegmentId> = Vec::new();
    let mut outer_id_sink: Vec<SegmentId> = Vec::new();
    let areas = import_relations(source, area_factory, &mut inner_id_sink, &mut outer_id_sink);

    let mut segment_ids = collect_ids(&inner_id_sink);
    extend_ids(&mut segment_ids, &outer_id_sink);

    let mut node_id_sink: Vec<NodeId> = Vec::new();
    let segments = import_ways(&segment_ids, source, &mut node_id_sink);

    let node_ids = collect_ids(&node_id_sink);
    let nodes = import_nodes(&node_ids, source);

    let segmap = index_segments(segments);
    let nodemap = index_nodes(nodes);
    (areas, segmap, nodemap)
}

} // verus!
