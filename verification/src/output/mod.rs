//! The exporter: the snapshot of a set of areas with everything that they
//! depend on, and nothing else.

pub mod closure;
pub mod snapshot;

use crate::output::closure::{
    exportable, lemma_exportable_closure, lemma_written_points_are_reachable,
    lemma_written_segments_are_reachable, node_ids_to_write, reachable_points,
    reachable_segments, segment_ids_to_write, segment_refs, segments_present, written_areas,
    written_segments,
};
use crate::output::snapshot::{
    area_blocks, node_lines, segment_lines, snapshot_text, write_area_block, write_count_line,
    write_node_line, write_segment_line,
};
use crate::parsers::areaparser::point_refs;
use crate::parsers::tables::table;
use crate::parsers::{
    AreaId, Latitude, Longitude, Node, NodeId, Segment, SegmentId, SegmentView,
};
use crate::seqs::{distinct, lemma_with_new_concat, with_new};
use crate::{AdminArea, AdminAreaView};
use std::collections::{HashMap, HashSet};
use vstd::prelude::*;

verus! {

/// The entry filed under `id`.
fn lookup<'a, T>(entries: &'a HashMap<i64, T>, id: i64) -> (entry: &'a T)
    requires
        entries@.contains_key(id),
    ensures
        *entry == entries@[id],
{
    match entries.get(&id) {
        Some(entry) => entry,
        None => vstd::pervasive::unreached(),
    }
}

/// Appends to `found` the identifiers of `ids` that it does not hold yet.
fn push_new(found: &mut Vec<i64>, seen: &mut HashSet<i64>, ids: &Vec<i64>)
    requires
        old(seen)@ == old(found)@.to_set(),
    ensures
        final(found)@ == with_new(old(found)@, ids@),
        final(seen)@ == final(found)@.to_set(),
{
    let count = ids.len();
    for i in 0..count
        invariant
            count == ids@.len(),
            found@ == with_new(old(found)@, ids@.take(i as int)),
            seen@ == found@.to_set(),
    {
        proof {
            assert(ids@.take(i + 1).drop_last() =~= ids@.take(i as int));
            found@.lemma_push_to_set_commute(ids@[i as int]);
        }
        if seen.insert(ids[i]) {
            found.push(ids[i]);
        }
    }
    proof {
        assert(ids@.take(count as int) =~= ids@);
    }
}

/// Collects the segments and the points to write for `area_ids`.
pub fn nodes_segs_to_write(
    area_ids: &Vec<AreaId>,
    areas: &HashMap<AreaId, AdminArea>,
    segs: &HashMap<SegmentId, Segment>,
) -> (ids: (Vec<NodeId>, Vec<SegmentId>))
    requires
        segments_present(area_ids@, table(areas@), table(segs@)),
    ensures
        ids.1@ == segment_ids_to_write(area_ids@, table(areas@)),
        ids.0@ == node_ids_to_write(area_ids@, table(areas@), table(segs@)),
        ids.1@.no_duplicates(),
        ids.1@.to_set() == reachable_segments(area_ids@, table(areas@)),
        ids.0@.no_duplicates(),
        ids.0@.to_set() == reachable_points(area_ids@, table(areas@), table(segs@)),
{
    let ghost listed = written_areas(area_ids@, table(areas@));
    let mut seg_ids: Vec<SegmentId> = Vec::new();
    let mut seen_segs: HashSet<SegmentId> = HashSet::new();
    let count = area_ids.len();
    for i in 0..count
        invariant
            count == area_ids@.len(),
            listed == written_areas(area_ids@, table(areas@)),
            segments_present(area_ids@, table(areas@), table(segs@)),
            seg_ids@ == distinct(segment_refs(listed.take(i as int))),
            seen_segs@ == seg_ids@.to_set(),
    {
        let ghost earlier = segment_refs(listed.take(i as int));
        assert(table(areas@).contains_key(area_ids@[i as int]));
        let a = lookup(areas, area_ids[i]);
        proof {
            assert(listed.take(i + 1).drop_last() =~= listed.take(i as int));
            assert(listed.take(i + 1).last() == a@);
            lemma_with_new_concat(Seq::empty(), earlier, a@.inner);
            lemma_with_new_concat(Seq::empty(), earlier + a@.inner, a@.outer);
        }
        push_new(&mut seg_ids, &mut seen_segs, &a.inner);
        push_new(&mut seg_ids, &mut seen_segs, &a.outer);
    }
    proof {
        assert(listed.take(count as int) =~= listed);
    }
    let ghost chosen = written_segments(seg_ids@, table(segs@));
    let mut node_ids: Vec<NodeId> = Vec::new();
    let mut seen_nodes: HashSet<NodeId> = HashSet::new();
    let seg_count = seg_ids.len();
    for j in 0..seg_count
        invariant
            seg_count == seg_ids@.len(),
            chosen == written_segments(seg_ids@, table(segs@)),
            seg_ids@ == segment_ids_to_write(area_ids@, table(areas@)),
            segments_present(area_ids@, table(areas@), table(segs@)),
            node_ids@ == distinct(point_refs(chosen.take(j as int))),
            seen_nodes@ == node_ids@.to_set(),
    {
        proof {
            lemma_written_segments_are_reachable(area_ids@, table(areas@));
            assert(seg_ids@.to_set().contains(seg_ids@[j as int]));
        }
        let s = lookup(segs, seg_ids[j]);
        proof {
            assert(chosen.take(j + 1).drop_last() =~= chosen.take(j as int));
            assert(chosen.take(j + 1).last() == s@);
            lemma_with_new_concat(Seq::empty(), point_refs(chosen.take(j as int)), s@.nodes);
        }
        push_new(&mut node_ids, &mut seen_nodes, &s.nodes);
    }
    proof {
        assert(chosen.take(seg_count as int) =~= chosen);
        lemma_written_segments_are_reachable(area_ids@, table(areas@));
        lemma_written_points_are_reachable(area_ids@, table(areas@), table(segs@));
    }
    (node_ids, seg_ids)
}

/// `points` are the entries of `nodes` under `ids`, in that order, each
/// under its own identifier and at coordinates that `projection` gives for
/// its latitude and longitude.
pub open spec fn projected<P: Fn(&Latitude, &Longitude) -> (Latitude, Longitude)>(
    points: Seq<Node>,
    ids: Seq<NodeId>,
    nodes: Map<NodeId, Node>,
    projection: &P,
) -> bool {
    &&& points.len() == ids.len()
    &&& forall|i: int|
        0 <= i < ids.len() ==> (#[trigger] points[i]).osmid == nodes[ids[i]].osmid
            && projection.ensures(
            (&nodes[ids[i]].lat, &nodes[ids[i]].lon),
            (points[i].lat, points[i].lon),
        )
}

/// Whether `text` is a snapshot of the areas filed under `area_ids` with
/// all that they depend on: the points to write, projected by `projection`,
/// then the segments to write, then the areas.
pub open spec fn is_export_of<P: Fn(&Latitude, &Longitude) -> (Latitude, Longitude)>(
    text: Seq<char>,
    area_ids: Seq<AreaId>,
    areas: Map<AreaId, AdminAreaView>,
    segments: Map<SegmentId, SegmentView>,
    nodes: Map<NodeId, Node>,
    projection: &P,
) -> bool {
    exists|points: Seq<Node>|
        projected(points, node_ids_to_write(area_ids, areas, segments), nodes, projection)
            && text == #[trigger] snapshot_text(
            points,
            written_segments(segment_ids_to_write(area_ids, areas), segments),
            written_areas(area_ids, areas),
        )
}

/// The identifiers that the point section of a snapshot lists.
pub open spec fn listed_point_ids(points: Seq<Node>) -> Seq<NodeId> {
    points.map_values(|point: Node| point.osmid)
}

/// The point section of a snapshot lists the points that can be reached
/// from the listed areas through their segments: each of them, each once,
/// and no other. This holds where the areas are complete and the point
/// table files each point under its own identifier.
pub proof fn lemma_listed_points_are_reachable<
    P: Fn(&Latitude, &Longitude) -> (Latitude, Longitude),
>(
    points: Seq<Node>,
    area_ids: Seq<AreaId>,
    areas: Map<AreaId, AdminAreaView>,
    segments: Map<SegmentId, SegmentView>,
    nodes: Map<NodeId, Node>,
    projection: &P,
)
    requires
        exportable(area_ids, areas, segments, nodes.dom()),
        forall|id: NodeId| nodes.contains_key(id) ==> (#[trigger] nodes[id]).osmid == id,
        projected(points, node_ids_to_write(area_ids, areas, segments), nodes, projection),
    ensures
        listed_point_ids(points).no_duplicates(),
        listed_point_ids(points).to_set() == reachable_points(area_ids, areas, segments),
{
    let ids = node_ids_to_write(area_ids, areas, segments);
    lemma_written_points_are_reachable(area_ids, areas, segments);
    lemma_exportable_closure(area_ids, areas, segments, nodes.dom());
    assert forall|i: int| 0 <= i < ids.len() implies listed_point_ids(points)[i] == ids[i] by {
        assert(ids.to_set().contains(ids[i]));
        assert(nodes.contains_key(ids[i]));
        assert(points[i].osmid == nodes[ids[i]].osmid);
    }
    assert(listed_point_ids(points) =~= ids);
}

/// Projects the points filed under `ids`.
pub fn project_nodes<P: Fn(&Latitude, &Longitude) -> (Latitude, Longitude)>(
    ids: &Vec<NodeId>,
    nodes: &HashMap<NodeId, Node>,
    projection: &P,
) -> (points: Vec<Node>)
    requires
        forall|i: int| 0 <= i < ids@.len() ==> nodes@.contains_key(#[trigger] ids@[i]),
        forall|lat: Latitude, lon: Longitude| projection.requires((&lat, &lon)),
    ensures
        projected(points@, ids@, nodes@, projection),
{
    let mut points: Vec<Node> = Vec::new();
    let count = ids.len();
    for i in 0..count
        invariant
            count == ids@.len(),
            forall|i: int| 0 <= i < ids@.len() ==> nodes@.contains_key(#[trigger] ids@[i]),
            forall|lat: Latitude, lon: Longitude| projection.requires((&lat, &lon)),
            projected(points@, ids@.take(i as int), nodes@, projection),
    {
        let node = lookup(nodes, ids[i]);
        let prj = projection(&node.lat, &node.lon);
        points.push(Node { osmid: node.osmid, lat: prj.0, lon: prj.1 });
    }
    proof {
        assert(ids@.take(count as int) =~= ids@);
    }
    points
}

/// The text of the snapshot of given points, segments and areas: the
/// segments filed under `seg_ids` and the areas filed under `area_ids`, each
/// in the order of its list.
pub fn render_snapshot(
    points: &Vec<Node>,
    seg_ids: &Vec<SegmentId>,
    segs: &HashMap<SegmentId, Segment>,
    area_ids: &Vec<AreaId>,
    areas: &HashMap<AreaId, AdminArea>,
) -> (text: String)
    requires
        forall|i: int| 0 <= i < seg_ids@.len() ==> segs@.contains_key(#[trigger] seg_ids@[i]),
        forall|i: int| 0 <= i < area_ids@.len() ==> areas@.contains_key(#[trigger] area_ids@[i]),
    ensures
        text@ == snapshot_text(
            points@,
            written_segments(seg_ids@, table(segs@)),
            written_areas(area_ids@, table(areas@)),
        ),
{
    let ghost segments = written_segments(seg_ids@, table(segs@));
    let ghost listed = written_areas(area_ids@, table(areas@));
    let mut text = String::new();

    write_count_line(&mut text, "Nodecount:", points.len());
    let ghost head = text@;
    let point_count = points.len();
    for i in 0..point_count
        invariant
            point_count == points@.len(),
            text@ == head + node_lines(points@.take(i as int)),
    {
        proof {
            assert(points@.take(i + 1).drop_last() =~= points@.take(i as int));
        }
        write_node_line(&mut text, &points[i]);
    }
    proof {
        assert(points@.take(point_count as int) =~= points@);
    }

    write_count_line(&mut text, "Segmentcount:", seg_ids.len());
    let ghost head = text@;
    let seg_count = seg_ids.len();
    for i in 0..seg_count
        invariant
            seg_count == seg_ids@.len(),
            segments == written_segments(seg_ids@, table(segs@)),
            forall|i: int| 0 <= i < seg_ids@.len() ==> segs@.contains_key(#[trigger] seg_ids@[i]),
            text@ == head + segment_lines(segments.take(i as int)),
    {
        let seg = lookup(segs, seg_ids[i]);
        proof {
            assert(segments.take(i + 1).drop_last() =~= segments.take(i as int));
            assert(segments.take(i + 1).last() == seg@);
        }
        write_segment_line(&mut text, seg);
    }
    proof {
        assert(segments.take(seg_count as int) =~= segments);
    }

    write_count_line(&mut text, "Areacount:", area_ids.len());
    let ghost head = text@;
    let area_count = area_ids.len();
    for i in 0..area_count
        invariant
            area_count == area_ids@.len(),
            listed == written_areas(area_ids@, table(areas@)),
            forall|i: int|
                0 <= i < area_ids@.len() ==> areas@.contains_key(#[trigger] area_ids@[i]),
            text@ == head + area_blocks(listed.take(i as int)),
    {
        let area = lookup(areas, area_ids[i]);
        proof {
            assert(listed.take(i + 1).drop_last() =~= listed.take(i as int));
            assert(listed.take(i + 1).last() == area@);
        }
        write_area_block(&mut text, area);
    }
    proof {
        assert(listed.take(area_count as int) =~= listed);
    }
    text
}

/// The contents of a snapshot file with its dependencies: the areas filed
/// under `area_ids`, the segments that they name and the points that those
/// segments run through, each point at the coordinates that `projection`
/// gives for it. Nothing that no listed area depends on is written. The
/// listed areas must be in the area table and complete. Putting the text
/// into a file is the caller's part.
pub fn to_file_with_deps<P: Fn(&Latitude, &Longitude) -> (Latitude, Longitude)>(
    area_ids: &Vec<AreaId>,
    areas: &HashMap<AreaId, AdminArea>,
    segs: &HashMap<SegmentId, Segment>,
    nodes: &HashMap<NodeId, Node>,
    projection: &P,
) -> (text: String)
    requires
        exportable(area_ids@, table(areas@), table(segs@), nodes@.dom()),
        forall|lat: Latitude, lon: Longitude| projection.requires((&lat, &lon)),
    ensures
        is_export_of(text@, area_ids@, table(areas@), table(segs@), nodes@, projection),
{
    proof {
        lemma_exportable_closure(area_ids@, table(areas@), table(segs@), nodes@.dom());
    }
    let (node_ids, seg_ids) = nodes_segs_to_write(area_ids, areas, segs);
    proof {
        assert forall|k: int| 0 <= k < node_ids@.len() implies nodes@.contains_key(
            #[trigger] node_ids@[k],
        ) by {
            assert(node_ids@.to_set().contains(node_ids@[k]));
        }
        assert forall|j: int| 0 <= j < seg_ids@.len() implies segs@.contains_key(
            #[trigger] seg_ids@[j],
        ) by {
            assert(seg_ids@.to_set().contains(seg_ids@[j]));
        }
    }
    let points = project_nodes(&node_ids, nodes, projection);
    render_snapshot(&points, &seg_ids, segs, area_ids, areas)
}

} // verus!
