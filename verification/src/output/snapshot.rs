//! The text of a snapshot: a point section, a segment section and an area
//! section, each led by its count.

use crate::parsers::{Node, Segment, SegmentView};
use crate::text::{append_signed, append_unsigned, decimal};
use crate::{AdminArea, AdminAreaView};
use vstd::prelude::*;
use vstd::string::StringExecFns;

verus! {

/// The line of a point: `<id>:<lat>,<lon>;`.
pub open spec fn node_line(node: Node) -> Seq<char> {
    decimal(node.osmid as int) + ":"@ + decimal(node.lat as int) + ","@ + decimal(node.lon as int)
        + ";\n"@
}

/// The lines of `nodes`, one after the other.
pub open spec fn node_lines(nodes: Seq<Node>) -> Seq<char>
    decreases nodes.len(),
{
    if nodes.len() == 0 {
        Seq::empty()
    } else {
        node_lines(nodes.drop_last()) + node_line(nodes.last())
    }
}

/// The numerals of `ids`, with a comma between each two.
pub open spec fn joined(ids: Seq<i64>) -> Seq<char>
    decreases ids.len(),
{
    if ids.len() == 0 {
        Seq::empty()
    } else if ids.len() == 1 {
        decimal(ids[0] as int)
    } else {
        joined(ids.drop_last()) + ","@ + decimal(ids.last() as int)
    }
}

/// The line of a segment: `<id>,0:<point ids>;`. The `0` is a reserved
/// type marker.
pub open spec fn segment_line(segment: SegmentView) -> Seq<char> {
    decimal(segment.osmid as int) + ",0:"@ + joined(segment.nodes) + ";\n"@
}

/// The lines of `segments`, one after the other.
pub open spec fn segment_lines(segments: Seq<SegmentView>) -> Seq<char>
    decreases segments.len(),
{
    if segments.len() == 0 {
        Seq::empty()
    } else {
        segment_lines(segments.drop_last()) + segment_line(segments.last())
    }
}

/// A line that lists a ring, or nothing where the ring is empty.
pub open spec fn ring_line(ring: Seq<i64>) -> Seq<char> {
    if ring.len() > 0 {
        joined(ring) + "\n"@
    } else {
        Seq::empty()
    }
}

/// The header line of an area:
/// `<id>,<level>,<name>:<outer count>,<inner count>,0`.
pub open spec fn area_header(area: AdminAreaView) -> Seq<char> {
    decimal(area.osmid as int) + ","@ + decimal(area.level as int) + ","@ + area.name + ":"@
        + decimal(area.outer.len() as int) + ","@ + decimal(area.inner.len() as int) + ",0\n"@
}

/// The lines of an area: its header, its outer ring, its inner ring.
pub open spec fn area_block(area: AdminAreaView) -> Seq<char> {
    area_header(area) + ring_line(area.outer) + ring_line(area.inner)
}

/// The blocks of `areas`, one after the other.
pub open spec fn area_blocks(areas: Seq<AdminAreaView>) -> Seq<char>
    decreases areas.len(),
{
    if areas.len() == 0 {
        Seq::empty()
    } else {
        area_blocks(areas.drop_last()) + area_block(areas.last())
    }
}

/// The line that opens a section: its title and the number of its entries.
pub open spec fn count_line(title: Seq<char>, count: nat) -> Seq<char> {
    title + decimal(count as int) + "\n"@
}

/// The whole text: points, then segments, then areas.
pub open spec fn snapshot_text(
    points: Seq<Node>,
    segments: Seq<SegmentView>,
    areas: Seq<AdminAreaView>,
) -> Seq<char> {
    count_line("Nodecount:"@, points.len()) + node_lines(points) + count_line(
        "Segmentcount:"@,
        segments.len(),
    ) + segment_lines(segments) + count_line("Areacount:"@, areas.len()) + area_blocks(areas)
}

/// Appends the opening line of a section.
pub fn write_count_line(out: &mut String, title: &str, count: usize)
    ensures
        final(out)@ == old(out)@ + count_line(title@, count as nat),
{
    out.append(title);
    append_unsigned(out, count as u64);
    out.append("\n");
    assert(out@ =~= old(out)@ + count_line(title@, count as nat));
}

/// Appends the line of a point.
pub fn write_node_line(out: &mut String, node: &Node)
    ensures
        final(out)@ == old(out)@ + node_line(*node),
{
    append_signed(out, node.osmid);
    out.append(":");
    append_signed(out, node.lat as i64);
    out.append(",");
    append_signed(out, node.lon as i64);
    out.append(";\n");
    assert(out@ =~= old(out)@ + node_line(*node));
}

/// Appends the numerals of `ids`, comma-joined.
pub fn write_joined(out: &mut String, ids: &Vec<i64>)
    ensures
        final(out)@ == old(out)@ + joined(ids@),
{
    let count = ids.len();
    assert(out@ =~= old(out)@ + joined(ids@.take(0)));
    for i in 0..count
        invariant
            count == ids@.len(),
            out@ == old(out)@ + joined(ids@.take(i as int)),
    {
        proof {
            assert(ids@.take(i + 1).drop_last() =~= ids@.take(i as int));
        }
        let ghost before = out@;
        if i > 0 {
            out.append(",");
        }
        append_signed(out, ids[i]);
        proof {
            if i == 0 {
                assert(joined(ids@.take(0)) =~= Seq::<char>::empty());
                assert(out@ =~= old(out)@ + joined(ids@.take(1)));
            } else {
                assert(out@ =~= old(out)@ + joined(ids@.take(i + 1)));
            }
        }
    }
    proof {
        assert(ids@.take(count as int) =~= ids@);
    }
}

/// Appends the line of a segment.
pub fn write_segment_line(out: &mut String, segment: &Segment)
    ensures
        final(out)@ == old(out)@ + segment_line(segment@),
{
    append_signed(out, segment.osmid);
    out.append(",0:");
    write_joined(out, &segment.nodes);
    out.append(";\n");
    assert(out@ =~= old(out)@ + segment_line(segment@));
}

/// Appends the line of a ring, if the ring is not empty.
pub fn write_ring_line(out: &mut String, ring: &Vec<i64>)
    ensures
        final(out)@ == old(out)@ + ring_line(ring@),
{
    if ring.len() > 0 {
        write_joined(out, ring);
        out.append("\n");
    }
    assert(out@ =~= old(out)@ + ring_line(ring@));
}

/// Appends the lines of an area.
pub fn write_area_block(out: &mut String, area: &AdminArea)
    ensures
        final(out)@ == old(out)@ + area_block(area@),
{
    append_signed(out, area.osmid);
    out.append(",");
    append_unsigned(out, area.level as u64);
    out.append(",");
    out.append(area.name.as_str());
    out.append(":");
    append_unsigned(out, area.outer.len() as u64);
    out.append(",");
    append_unsigned(out, area.inner.len() as u64);
    out.append(",0\n");
    assert(out@ =~= old(out)@ + area_header(area@));
    write_ring_line(out, &area.outer);
    write_ring_line(out, &area.inner);
    assert(out@ =~= old(out)@ + area_block(area@));
}

} // verus!
