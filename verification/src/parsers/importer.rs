//! The import as a state machine, for a source that is decoded on the fly:
//! the caller reads the source three times and hands over each object as it
//! comes.

use crate::parsers::areaparser::{
    area_table, collect_ids, extend_ids, index_nodes, index_segments, inner_refs, kept_nodes,
    kept_ways, lemma_next_kept_node, lemma_next_kept_way, lemma_next_yielded, node_table,
    outer_refs, point_refs, record_area, record_node, record_way, segment_table, segment_views,
    streamed_nodes, streamed_segments, wanted_segments, yielded_areas,
};
use crate::parsers::tables::table;
use crate::parsers::{AreaFactory, AreaId, Node, NodeId, Segment, SegmentId};
use crate::source::{ObjView, OsmObj};
use crate::AdminArea;
use std::collections::{HashMap, HashSet};
use vstd::prelude::*;

verus! {

/// The pass that an import is in.
#[derive(Debug, Clone, Copy, PartialEq, Eq, Structural)]
pub enum Pass {
    /// Reading the source for its areas.
    Areas,
    /// Reading the source for the polylines that the areas name.
    Segments,
    /// Reading the source for the points that those polylines run through.
    Points,
    /// Nothing is left to read.
    Done,
}

/// The pass that follows `pass`.
pub open spec fn next_pass(pass: Pass) -> Pass {
    match pass {
        Pass::Areas => Pass::Segments,
        Pass::Segments => Pass::Points,
        Pass::Points => Pass::Done,
        Pass::Done => Pass::Done,
    }
}

/// An import in progress.
pub struct Importer<'a, F: AreaFactory> {
    factory: &'a F,
    pass: Pass,
    areas: HashMap<AreaId, AdminArea>,
    inner_sink: Vec<SegmentId>,
    outer_sink: Vec<SegmentId>,
    segment_ids: HashSet<SegmentId>,
    segments: Vec<Segment>,
    node_sink: Vec<NodeId>,
    node_ids: HashSet<NodeId>,
    nodes: Vec<Node>,
    area_pass: Ghost<Seq<ObjView>>,
    segment_pass: Ghost<Seq<ObjView>>,
    point_pass: Ghost<Seq<ObjView>>,
}

impl<'a, F: AreaFactory> Importer<'a, F> {
    #[verifier::type_invariant]
    spec fn well_formed(self) -> bool {
        let areas = yielded_areas(self.area_pass@, self.factory);
        let segments = kept_ways(self.segment_pass@, self.segment_ids@);
        &&& table(self.areas@) == area_table(areas)
        &&& self.inner_sink@ == inner_refs(areas)
        &&& self.outer_sink@ == outer_refs(areas)
        &&& self.segment_ids@ == if self.pass is Areas {
            Set::empty()
        } else {
            wanted_segments(areas)
        }
        &&& segment_views(self.segments@) == segments
        &&& self.node_sink@ == point_refs(segments)
        &&& self.node_ids@ == if self.pass is Areas || self.pass is Segments {
            Set::empty()
        } else {
            point_refs(segments).to_set()
        }
        &&& self.nodes@ == kept_nodes(self.point_pass@, self.node_ids@)
        &&& self.pass is Areas ==> self.segment_pass@.len() == 0
        &&& self.pass is Areas || self.pass is Segments ==> self.point_pass@.len() == 0
    }

    /// The classifier that the import asks.
    pub closed spec fn factory(self) -> &'a F {
        self.factory
    }

    /// The pass that the import is in.
    pub closed spec fn pass(self) -> Pass {
        self.pass
    }

    /// What the area pass has read.
    pub closed spec fn area_pass(self) -> Seq<ObjView> {
        self.area_pass@
    }

    /// What the segment pass has read.
    pub closed spec fn segment_pass(self) -> Seq<ObjView> {
        self.segment_pass@
    }

    /// What the point pass has read.
    pub closed spec fn point_pass(self) -> Seq<ObjView> {
        self.point_pass@
    }

    /// An import that has read nothing yet and is in its area pass.
    pub fn new(factory: &'a F) -> (importer: Self)
        ensures
            importer.factory() == factory,
            importer.pass() == Pass::Areas,
            importer.area_pass() == Seq::<ObjView>::empty(),
            importer.segment_pass() == Seq::<ObjView>::empty(),
            importer.point_pass() == Seq::<ObjView>::empty(),
    {
        let areas: HashMap<AreaId, AdminArea> = HashMap::new();
        let inner_sink: Vec<SegmentId> = Vec::new();
        let outer_sink: Vec<SegmentId> = Vec::new();
        let segments: Vec<Segment> = Vec::new();
        let node_sink: Vec<NodeId> = Vec::new();
        let nodes: Vec<Node> = Vec::new();
        proof {
            let nothing = Seq::<ObjView>::empty();
            let none = Set::<i64>::empty();
            assert(table(areas@) =~= area_table(yielded_areas(nothing, factory)));
            assert(inner_sink@ =~= inner_refs(yielded_areas(nothing, factory)));
            assert(outer_sink@ =~= outer_refs(yielded_areas(nothing, factory)));
            assert(segment_views(segments@) =~= kept_ways(nothing, none));
            assert(node_sink@ =~= point_refs(kept_ways(nothing, none)));
            assert(nodes@ =~= kept_nodes(nothing, none));
        }
        Importer {
            factory,
            pass: Pass::Areas,
            areas,
            inner_sink,
            outer_sink,
            segment_ids: HashSet::new(),
            segments,
            node_sink,
            node_ids: HashSet::new(),
            nodes,
            area_pass: Ghost(Seq::empty()),
            segment_pass: Ghost(Seq::empty()),
            point_pass: Ghost(Seq::empty()),
        }
    }

    /// The pass that the import is in.
    pub fn current_pass(&self) -> (pass: Pass)
        ensures
            pass == self.pass(),
    {
        self.pass
    }

    /// Takes the next object of the running pass. Once the import is done,
    /// an object changes nothing.
    pub fn feed(self, obj: &OsmObj) -> (next: Self)
        ensures
            next.factory() == self.factory(),
            next.pass() == self.pass(),
            next.area_pass() == if self.pass() is Areas {
                self.area_pass().push(obj@)
            } else {
                self.area_pass()
            },
            next.segment_pass() == if self.pass() is Segments {
                self.segment_pass().push(obj@)
            } else {
                self.segment_pass()
            },
            next.point_pass() == if self.pass() is Points {
                self.point_pass().push(obj@)
            } else {
                self.point_pass()
            },
    {
        proof {
            use_type_invariant(&self);
        }
        let Importer {
            factory,
            pass,
            mut areas,
            mut inner_sink,
            mut outer_sink,
            segment_ids,
            mut segments,
            mut node_sink,
            node_ids,
            mut nodes,
            area_pass,
            segment_pass,
            point_pass,
        } = self;
        let ghost mut read_areas = area_pass@;
        let ghost mut read_segments = segment_pass@;
        let ghost mut read_points = point_pass@;
        match pass {
            Pass::Areas => {
                proof {
                    lemma_next_yielded(read_areas, obj@, factory);
                    read_areas = read_areas.push(obj@);
                }
                record_area(obj, factory, &mut areas, &mut inner_sink, &mut outer_sink);
            },
            Pass::Segments => {
                proof {
                    lemma_next_kept_way(read_segments, obj@, segment_ids@);
                    read_segments = read_segments.push(obj@);
                }
                record_way(obj, &segment_ids, &mut segments, &mut node_sink);
            },
            Pass::Points => {
                proof {
                    lemma_next_kept_node(read_points, obj@, node_ids@);
                    read_points = read_points.push(obj@);
                }
                record_node(obj, &node_ids, &mut nodes);
            },
            Pass::Done => {},
        }
        Importer {
            factory,
            pass,
            areas,
            inner_sink,
            outer_sink,
            segment_ids,
            segments,
            node_sink,
            node_ids,
            nodes,
            area_pass: Ghost(read_areas),
            segment_pass: Ghost(read_segments),
            point_pass: Ghost(read_points),
        }
    }

    /// Closes the running pass and opens the next one. What the passes have
    /// read stays as it is.
    pub fn end_pass(self) -> (next: Self)
        ensures
            next.factory() == self.factory(),
            next.pass() == next_pass(self.pass()),
            next.area_pass() == self.area_pass(),
            next.segment_pass() == self.segment_pass(),
            next.point_pass() == self.point_pass(),
    {
        proof {
            use_type_invariant(&self);
        }
        let Importer {
            factory,
            pass,
            areas,
            inner_sink,
            outer_sink,
            mut segment_ids,
            segments,
            node_sink,
            mut node_ids,
            nodes,
            area_pass,
            segment_pass,
            point_pass,
        } = self;
        let next = match pass {
            Pass::Areas => {
                segment_ids = collect_ids(&inner_sink);
                extend_ids(&mut segment_ids, &outer_sink);
                proof {
                    assert(segment_pass@ =~= Seq::empty());
                }
                Pass::Segments
            },
            Pass::Segments => {
                node_ids = collect_ids(&node_sink);
                proof {
                    assert(point_pass@ =~= Seq::empty());
                }
                Pass::Points
            },
            Pass::Points => Pass::Done,
            Pass::Done => Pass::Done,
        };
        Importer {
            factory,
            pass: next,
            areas,
            inner_sink,
            outer_sink,
            segment_ids,
            segments,
            node_sink,
            node_ids,
            nodes,
            area_pass,
            segment_pass,
            point_pass,
        }
    }

    /// The three tables of an import that is done; nothing before that.
    pub fn finish(self) -> (tables: Option<
        (HashMap<AreaId, AdminArea>, HashMap<SegmentId, Segment>, HashMap<NodeId, Node>),
    >)
        ensures
            tables is Some <==> self.pass() is Done,
            tables matches Some(t) ==> {
                &&& table(t.0@) == area_table(yielded_areas(self.area_pass(), self.factory()))
                &&& table(t.1@) == segment_table(
                    streamed_segments(self.area_pass(), self.segment_pass(), self.factory()),
                )
                &&& t.2@ == node_table(
                    streamed_nodes(
                        self.area_pass(),
                        self.segment_pass(),
                        self.point_pass(),
                        self.factory(),
                    ),
                )
            },
    {
        proof {
            use_type_invariant(&self);
        }
        match self.pass {
            Pass::Done => {
                let segmap = index_segments(self.segments);
                let nodemap = index_nodes(self.nodes);
                Some((self.areas, segmap, nodemap))
            },
            _ => None,
        }
    }
}

} // verus!
