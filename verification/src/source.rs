//! Decoded source objects: points, polylines and relations, each under its
//! stable identifier.

use crate::parsers::{AreaId, NodeId, SegmentId};
use crate::tags::tag_map;
use osmpbfreader::Tags;
use vstd::prelude::*;

verus! {

/// The identifier of a relation member, by the kind of object it names.
#[derive(Debug, Clone, Copy, PartialEq, Eq, Structural)]
pub enum OsmId {
    Node(NodeId),
    Way(SegmentId),
    Relation(AreaId),
}

/// A member of a relation: the object it refers to, and in which role.
#[derive(Debug, Clone, PartialEq, Eq)]
pub struct OsmRef {
    pub member: OsmId,
    pub role: String,
}

/// A member as the contracts speak of it.
pub struct RefView {
    pub member: OsmId,
    pub role: Seq<char>,
}

impl View for OsmRef {
    type V = RefView;

    open spec fn view(&self) -> RefView {
        RefView { member: self.member, role: self.role@ }
    }
}

/// A point with its coordinates in units of 10^-7 degrees.
#[derive(Debug, Clone, Copy, PartialEq, Eq, Structural)]
pub struct OsmNode {
    pub id: NodeId,
    pub decimicro_lat: i32,
    pub decimicro_lon: i32,
}

/// A polyline: the points it runs through, in order.
#[derive(Debug, Clone, PartialEq, Eq)]
pub struct OsmWay {
    pub id: SegmentId,
    pub nodes: Vec<NodeId>,
}

/// A polyline as the contracts speak of it.
pub struct WayView {
    pub id: SegmentId,
    pub nodes: Seq<NodeId>,
}

impl View for OsmWay {
    type V = WayView;

    open spec fn view(&self) -> WayView {
        WayView { id: self.id, nodes: self.nodes@ }
    }
}

/// A relation: its tags and its members, in source order.
#[derive(Debug, PartialEq, Eq)]
pub struct OsmRelation {
    pub id: AreaId,
    pub tags: Tags,
    pub refs: Vec<OsmRef>,
}

/// A relation as the contracts speak of it: its tags by what they hold.
pub struct RelationView {
    pub id: AreaId,
    pub tags: Map<Seq<char>, Seq<char>>,
    pub refs: Seq<RefView>,
}

impl View for OsmRelation {
    type V = RelationView;

    open spec fn view(&self) -> RelationView {
        RelationView {
            id: self.id,
            tags: tag_map(self.tags),
            refs: self.refs@.map_values(|r: OsmRef| r@),
        }
    }
}

/// One decoded object of the source.
#[derive(Debug, PartialEq, Eq)]
pub enum OsmObj {
    Node(OsmNode),
    Way(OsmWay),
    Relation(OsmRelation),
}

/// A decoded object as the contracts speak of it.
pub enum ObjView {
    Node(OsmNode),
    Way(WayView),
    Relation(RelationView),
}

impl View for OsmObj {
    type V = ObjView;

    open spec fn view(&self) -> ObjView {
        match *self {
            OsmObj::Node(n) => ObjView::Node(n),
            OsmObj::Way(w) => ObjView::Way(w@),
            OsmObj::Relation(r) => ObjView::Relation(r@),
        }
    }
}

/// The views of a decoded sequence, object by object.
pub open spec fn source_view(source: Seq<OsmObj>) -> Seq<ObjView> {
    source.map_values(|o: OsmObj| o@)
}

/// What `pick` takes out of a decoded sequence, in source order.
pub open spec fn picked<T>(source: Seq<ObjView>, pick: spec_fn(ObjView) -> Option<T>) -> Seq<T>
    decreases source.len(),
{
    if source.len() == 0 {
        Seq::empty()
    } else {
        let earlier = picked(source.drop_last(), pick);
        match pick(source.last()) {
            Some(item) => earlier.push(item),
            None => earlier,
        }
    }
}

/// An item is picked exactly where `pick` takes it out of some object.
pub proof fn lemma_picked<T>(source: Seq<ObjView>, pick: spec_fn(ObjView) -> Option<T>, item: T)
    ensures
        picked(source, pick).contains(item) <==> exists|i: int|
            0 <= i < source.len() && pick(#[trigger] source[i]) == Some(item),
    decreases source.len(),
{
    if source.len() > 0 {
        let earlier = source.drop_last();
        lemma_picked(earlier, pick, item);
        if let Some(last) = pick(source.last()) {
            vstd::seq_lib::lemma_seq_contains_after_push(picked(earlier, pick), last, item);
        }
        if picked(source, pick).contains(item) {
            if picked(earlier, pick).contains(item) {
                let i = choose|i: int|
                    0 <= i < earlier.len() && pick(#[trigger] earlier[i]) == Some(item);
                assert(source[i] == earlier[i]);
            } else {
                assert(pick(source[source.len() - 1]) == Some(item));
            }
        }
        if exists|i: int| 0 <= i < source.len() && pick(#[trigger] source[i]) == Some(item) {
            let i = choose|i: int|
                0 <= i < source.len() && pick(#[trigger] source[i]) == Some(item);
            if i < earlier.len() {
                assert(earlier[i] == source[i]);
            }
        }
    }
}

/// The polylines among `refs` that stand under `role`, in member order.
/// A member of another kind under that role is passed over.
pub open spec fn member_ways(refs: Seq<RefView>, role: Seq<char>) -> Seq<SegmentId>
    decreases refs.len(),
{
    if refs.len() == 0 {
        Seq::empty()
    } else {
        let earlier = member_ways(refs.drop_last(), role);
        match refs.last().member {
            OsmId::Way(id) => if refs.last().role == role {
                earlier.push(id)
            } else {
                earlier
            },
            _ => earlier,
        }
    }
}

} // verus!
