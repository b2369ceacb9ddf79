//! The tables that an import fills, and the interfaces that fill them.

pub mod areaparser;
pub mod importer;
pub mod order;
pub mod resolution;
pub mod tables;

use crate::level::level_of;
use crate::source::{member_ways, OsmRelation, RelationView};
use crate::tags::tag_map;
use crate::{AdminArea, AdminAreaView};
use osmpbfreader::Tags;
use vstd::prelude::*;

verus! {

/// The identifier of a point. Points, segments and areas are numbered
/// apart: the same number may name one of each.
pub type NodeId = i64;

/// The identifier of an area.
pub type AreaId = i64;

/// The identifier of a segment.
pub type SegmentId = i64;

/// A latitude in units of 10^-7 degrees.
pub type Latitude = i32;

/// A longitude in units of 10^-7 degrees.
pub type Longitude = i32;

/// An administrative level: the lower, the coarser.
pub type AdminLevel = u8;

/// A point of the point table.
#[derive(Debug, Clone, Copy, PartialEq, Eq, Structural)]
pub struct Node {
    pub osmid: NodeId,
    pub lat: Latitude,
    pub lon: Longitude,
}

/// A boundary polyline of the segment table.
#[derive(Debug, Clone, PartialEq, Eq)]
pub struct Segment {
    pub osmid: SegmentId,
    pub nodes: Vec<NodeId>,
}

/// A segment as the contracts speak of it.
pub struct SegmentView {
    pub osmid: SegmentId,
    pub nodes: Seq<NodeId>,
}

impl View for Segment {
    type V = SegmentView;

    open spec fn view(&self) -> SegmentView {
        SegmentView { osmid: self.osmid, nodes: self.nodes@ }
    }
}

/// What the filter and the exporter read of an area, whatever else it holds.
pub trait Area {
    /// The identifier of the area.
    spec fn id(&self) -> AreaId;

    /// The segments of the inner rings, in source order.
    spec fn inner_ids(&self) -> Seq<SegmentId>;

    /// The segments of the outer rings, in source order.
    spec fn outer_ids(&self) -> Seq<SegmentId>;

    fn get_id(&self) -> (id: AreaId)
        ensures
            id == self.id(),
    ;

    fn get_inner(&self) -> (inner: &Vec<SegmentId>)
        ensures
            inner@ == self.inner_ids(),
    ;

    fn get_outer(&self) -> (outer: &Vec<SegmentId>)
        ensures
            outer@ == self.outer_ids(),
    ;
}

/// What every classifier promises of an area that it makes from `rel`: the
/// relation's identifier, its parsed administrative level, one of its two
/// name tags, and its polyline members by ring.
pub open spec fn describes(rel: RelationView, area: AdminAreaView) -> bool {
    &&& area.osmid == rel.id
    &&& rel.tags.contains_key("admin_level"@)
    &&& level_of(rel.tags["admin_level"@]) == Some(area.level)
    &&& (rel.tags.contains_key("name:en"@) && area.name == rel.tags["name:en"@]) || (
    rel.tags.contains_key("name"@) && area.name == rel.tags["name"@])
    &&& area.inner == member_ways(rel.refs, "inner"@)
    &&& area.outer == member_ways(rel.refs, "outer"@)
}

/// A classifier: decides which relations are areas of interest and turns
/// such a relation into an area.
pub trait AreaFactory {
    /// Whether a relation with these tags is an area of interest.
    spec fn valid(&self, tags: Map<Seq<char>, Seq<char>>) -> bool;

    /// The area that `rel` yields, or none where a level or a name is wanting.
    spec fn area_of(&self, rel: RelationView) -> Option<AdminAreaView>;

    /// Check for a given tag set of a relation if it is a valid area
    /// description.
    fn is_valid(&self, tags: &Tags) -> (valid: bool)
        ensures
            valid == self.valid(tag_map(*tags)),
    ;

    /// Create an area from the given relation. The identifiers of its inner
    /// and outer polylines are appended to the two sinks, in member order;
    /// where no area comes back, the sinks are left as they were.
    fn to_area(
        &self,
        rel: &OsmRelation,
        inner_sink: &mut Vec<SegmentId>,
        outer_sink: &mut Vec<SegmentId>,
    ) -> (area: Option<AdminArea>)
        requires
            self.valid(rel@.tags),
        ensures
            match area {
                Some(a) => self.area_of(rel@) == Some(a@) && describes(rel@, a@),
                None => self.area_of(rel@) is None,
            },
            final(inner_sink)@ == old(inner_sink)@ + (match area {
                Some(a) => a@.inner,
                None => Seq::empty(),
            }),
            final(outer_sink)@ == old(outer_sink)@ + (match area {
                Some(a) => a@.outer,
                None => Seq::empty(),
            }),
    ;
}

} // verus!
