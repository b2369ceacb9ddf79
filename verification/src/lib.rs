//! Extraction of administrative areas from decoded OpenStreetMap objects.
//!
//! A source is a sequence of decoded objects: points, polylines and
//! relations ([`source`]). A classifier ([`parsers::AreaFactory`]) decides
//! which relations are areas. The import ([`parsers::areaparser`]) reads the
//! source three times: for the areas, for the polylines that the areas name,
//! and for the points that those polylines run through. The filter
//! ([`filter`]) keeps the areas all of whose polylines and points were found,
//! and the exporter ([`output`]) writes the text of a snapshot that holds
//! those areas and what they depend on, and nothing else.
//!
//! [`import_admin_areas`] runs all of it on a source that is held in
//! memory. For a source that is decoded on the fly, the import is a state
//! machine ([`parsers::importer`]) that takes one object at a time, and
//! [`export_complete`] does the rest. Reading the source file and writing
//! the snapshot file are left to the caller.

pub mod classifier;
pub mod filter;
pub mod level;
pub mod output;
pub mod parsers;
pub mod seqs;
pub mod source;
pub mod tags;
pub mod text;

use crate::classifier::{build_area, built_area, read_level, tag_level, NamePolicy};
use crate::filter::{area_complete, complete_areas, filter_complete};
use crate::output::{is_export_of, to_file_with_deps};
use crate::parsers::areaparser::{
    area_table, import_areas, imported_nodes, imported_segments, node_table, segment_table,
    yielded_areas,
};
use crate::parsers::tables::table;
use crate::parsers::{
    AdminLevel, Area, AreaFactory, AreaId, Latitude, Longitude, Node, NodeId, Segment, SegmentId,
};
use crate::source::{source_view, OsmObj, OsmRelation, RelationView};
use crate::tags::{tags_contains, tags_get};
use osmpbfreader::Tags;
use std::collections::HashMap;
use vstd::prelude::*;

verus! {

/// An administrative boundary: its level, its display name and the
/// polylines of its outer and inner rings.
#[derive(Debug, Clone, PartialEq, Eq)]
pub struct AdminArea {
    pub osmid: AreaId,
    pub level: AdminLevel,
    pub name: String,
    pub inner: Vec<SegmentId>,
    pub outer: Vec<SegmentId>,
}

/// An area as the contracts speak of it.
pub struct AdminAreaView {
    pub osmid: AreaId,
    pub level: AdminLevel,
    pub name: Seq<char>,
    pub inner: Seq<SegmentId>,
    pub outer: Seq<SegmentId>,
}

impl View for AdminArea {
    type V = AdminAreaView;

    open spec fn view(&self) -> AdminAreaView {
        AdminAreaView {
            osmid: self.osmid,
            level: self.level,
            name: self.name@,
            inner: self.inner@,
            outer: self.outer@,
        }
    }
}

impl Area for AdminArea {
    open spec fn id(&self) -> AreaId {
        self.osmid
    }

    open spec fn inner_ids(&self) -> Seq<SegmentId> {
        self.inner@
    }

    open spec fn outer_ids(&self) -> Seq<SegmentId> {
        self.outer@
    }

    fn get_id(&self) -> AreaId {
        self.osmid
    }

    fn get_inner(&self) -> &Vec<SegmentId> {
        &self.inner
    }

    fn get_outer(&self) -> &Vec<SegmentId> {
        &self.outer
    }
}

/// The classifier of administrative boundaries up to a maximum level. It
/// asks for `type=boundary`, a name and a readable level that is not above
/// the maximum, and takes the English name before the general one.
#[derive(Debug, Clone, Copy)]
pub struct AdminAreaFactory {
    pub max_lvl: AdminLevel,
}

impl AdminAreaFactory {
    /// The classifier that keeps the levels up to `max_lvl`.
    pub fn new(max_lvl: AdminLevel) -> (factory: Self)
        ensures
            factory == (AdminAreaFactory { max_lvl }),
    {
        AdminAreaFactory { max_lvl }
    }
}

impl AreaFactory for AdminAreaFactory {
    open spec fn valid(&self, tags: Map<Seq<char>, Seq<char>>) -> bool {
        &&& tags.contains_key("type"@) && tags["type"@] == "boundary"@
        &&& tags.contains_key("name:en"@) || tags.contains_key("name"@)
        &&& tag_level(tags) matches Some(level) && level <= self.max_lvl
    }

    open spec fn area_of(&self, rel: RelationView) -> Option<AdminAreaView> {
        built_area(rel, Some(self.max_lvl), NamePolicy::LocalizedFirst)
    }

    fn is_valid(&self, tags: &Tags) -> (valid: bool) {
        if !tags_contains(tags, "type", "boundary") {
            return false;
        }
        if tags_get(tags, "name:en").is_none() && tags_get(tags, "name").is_none() {
            return false;
        }
        match read_level(tags) {
            Some(level) => level <= self.max_lvl,
            None => false,
        }
    }

    fn to_area(
        &self,
        rel: &OsmRelation,
        inner_sink: &mut Vec<SegmentId>,
        outer_sink: &mut Vec<SegmentId>,
    ) -> (area: Option<AdminArea>) {
        build_area(rel, Some(self.max_lvl), NamePolicy::LocalizedFirst, inner_sink, outer_sink)
    }
}

/// What one run of the pipeline gives: the sizes of the three tables as
/// imported, the number of complete areas, and the text of their snapshot.
#[derive(Debug, Clone, PartialEq, Eq)]
pub struct ImportSummary {
    /// How many areas the import recorded.
    pub areas: usize,
    /// How many segments the import recorded.
    pub segments: usize,
    /// How many points the import recorded.
    pub nodes: usize,
    /// How many of the areas are complete.
    pub complete_areas: usize,
    /// The contents of the snapshot file of the complete areas.
    pub snapshot: String,
}

/// Filters imported tables and writes the snapshot of the complete areas,
/// with `projection` applied to the points. The complete areas are written
/// each once, in no particular order.
pub fn export_complete<P: Fn(&Latitude, &Longitude) -> (Latitude, Longitude)>(
    areas: &HashMap<AreaId, AdminArea>,
    segments: &HashMap<SegmentId, Segment>,
    nodes: &HashMap<NodeId, Node>,
    projection: &P,
) -> (summary: ImportSummary)
    requires
        forall|lat: Latitude, lon: Longitude| projection.requires((&lat, &lon)),
    ensures
        summary.areas == table(areas@).len(),
        summary.segments == table(segments@).len(),
        summary.nodes == nodes@.len(),
        summary.complete_areas == complete_areas(
            table(areas@),
            table(segments@),
            nodes@.dom(),
        ).len(),
        exists|ids: Seq<AreaId>|
            ids.no_duplicates() && ids.to_set() == complete_areas(
                table(areas@),
                table(segments@),
                nodes@.dom(),
            ) && #[trigger] is_export_of(
                summary.snapshot@,
                ids,
                table(areas@),
                table(segments@),
                nodes@,
                projection,
            ),
{
    let complete = filter_complete(areas, segments, nodes);
    proof {
        complete@.unique_seq_to_set();
        assert(table(areas@).dom() =~= areas@.dom());
        assert(table(segments@).dom() =~= segments@.dom());
        assert forall|i: int| 0 <= i < complete@.len() implies table(areas@).contains_key(
            #[trigger] complete@[i],
        ) && area_complete(table(areas@)[complete@[i]], table(segments@), nodes@.dom()) by {
            assert(complete@.contains(complete@[i]));
        }
    }
    let snapshot = to_file_with_deps(&complete, areas, segments, nodes, projection);
    let summary = ImportSummary {
        areas: areas.len(),
        segments: segments.len(),
        nodes: nodes.len(),
        complete_areas: complete.len(),
        snapshot,
    };
    proof {
        assert(is_export_of(
            summary.snapshot@,
            complete@,
            table(areas@),
            table(segments@),
            nodes@,
            projection,
        ));
    }
    summary
}

/// Runs the whole pipeline on a decoded source: imports the administrative
/// areas up to `max_lvl` with their segments and points, keeps the complete
/// areas, and writes their snapshot with `projection` applied to the points.
/// The complete areas are written each once, in no particular order.
pub fn import_admin_areas<P: Fn(&Latitude, &Longitude) -> (Latitude, Longitude)>(
    source: &Vec<OsmObj>,
    max_lvl: AdminLevel,
    projection: &P,
) -> (summary: ImportSummary)
    requires
        forall|lat: Latitude, lon: Longitude| projection.requires((&lat, &lon)),
    ensures
        ({
            let factory = AdminAreaFactory { max_lvl };
            let objects = source_view(source@);
            let areas = area_table(yielded_areas(objects, &factory));
            let segments = segment_table(imported_segments(objects, &factory));
            let nodes = node_table(imported_nodes(objects, &factory));
            &&& summary.areas == areas.len()
            &&& summary.segments == segments.len()
            &&& summary.nodes == nodes.len()
            &&& summary.complete_areas == complete_areas(areas, segments, nodes.dom()).len()
            &&& exists|ids: Seq<AreaId>|
                ids.no_duplicates() && ids.to_set() == complete_areas(
                    areas,
                    segments,
                    nodes.dom(),
                ) && #[trigger] is_export_of(
                    summary.snapshot@,
                    ids,
                    areas,
                    segments,
                    nodes,
                    projection,
                )
        }),
{
    let factory = AdminAreaFactory::new(max_lvl);
    let (areas, segments, nodes) = import_areas(source, &factory);
    export_complete(&areas, &segments, &nodes, projection)
}

} // verus!
