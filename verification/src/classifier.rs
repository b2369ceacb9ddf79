//! The rules that the classifiers share: which level, which name and which
//! members make an area out of a relation.

use crate::level::{level_of, parse_level};
use crate::parsers::{AdminLevel, AreaFactory, SegmentId};
use crate::source::{member_ways, OsmId, OsmRelation, RelationView};
use crate::tags::{tag_map, tags_contains, tags_get};
use crate::{AdminArea, AdminAreaView};
use osmpbfreader::Tags;
use vstd::prelude::*;
use vstd::string::StringExecFns;

verus! {

/// Which of the two name tags a classifier takes first.
#[derive(Debug, Clone, Copy, PartialEq, Eq, Structural)]
pub enum NamePolicy {
    /// The English name, else the general one.
    LocalizedFirst,
    /// The general name, else the English one.
    GenericFirst,
}

/// The level that the tags give, if they give one.
pub open spec fn tag_level(tags: Map<Seq<char>, Seq<char>>) -> Option<AdminLevel> {
    if tags.contains_key("admin_level"@) {
        level_of(tags["admin_level"@])
    } else {
        None
    }
}

/// The name tag that `names` takes first.
pub open spec fn first_name_key(names: NamePolicy) -> Seq<char> {
    match names {
        NamePolicy::LocalizedFirst => "name:en"@,
        NamePolicy::GenericFirst => "name"@,
    }
}

/// The name tag that `names` falls back on.
pub open spec fn second_name_key(names: NamePolicy) -> Seq<char> {
    match names {
        NamePolicy::LocalizedFirst => "name"@,
        NamePolicy::GenericFirst => "name:en"@,
    }
}

/// The display name that the tags give under `names`, if they give one.
pub open spec fn display_name(tags: Map<Seq<char>, Seq<char>>, names: NamePolicy) -> Option<
    Seq<char>,
> {
    if tags.contains_key(first_name_key(names)) {
        Some(tags[first_name_key(names)])
    } else if tags.contains_key(second_name_key(names)) {
        Some(tags[second_name_key(names)])
    } else {
        None
    }
}

/// The area that `rel` yields under a level ceiling and a name policy: none
/// where the level is absent, unreadable or above the ceiling, or where no
/// name is found.
pub open spec fn built_area(
    rel: RelationView,
    ceiling: Option<AdminLevel>,
    names: NamePolicy,
) -> Option<AdminAreaView> {
    match (tag_level(rel.tags), display_name(rel.tags, names)) {
        (Some(level), Some(name)) => if ceiling is Some && level > ceiling->0 {
            None
        } else {
            Some(
                (AdminAreaView {
                    osmid: rel.id,
                    level: level,
                    name: name,
                    inner: member_ways(rel.refs, "inner"@),
                    outer: member_ways(rel.refs, "outer"@),
                }),
            )
        },
        _ => None,
    }
}

/// Reads the level tag.
pub fn read_level(tags: &Tags) -> (level: Option<AdminLevel>)
    ensures
        level == tag_level(tag_map(*tags)),
{
    match tags_get(tags, "admin_level") {
        Some(value) => parse_level(value.as_str()),
        None => None,
    }
}

/// Picks the display name.
pub fn select_name(tags: &Tags, names: NamePolicy) -> (name: Option<&String>)
    ensures
        match name {
            Some(n) => display_name(tag_map(*tags), names) == Some(n@),
            None => display_name(tag_map(*tags), names) is None,
        },
{
    let (first, second) = match names {
        NamePolicy::LocalizedFirst => ("name:en", "name"),
        NamePolicy::GenericFirst => ("name", "name:en"),
    };
    match tags_get(tags, first) {
        Some(name) => Some(name),
        None => tags_get(tags, second),
    }
}

/// Makes the area of `rel` and reports its polylines to the sinks.
pub fn build_area(
    rel: &OsmRelation,
    ceiling: Option<AdminLevel>,
    names: NamePolicy,
    inner_sink: &mut Vec<SegmentId>,
    outer_sink: &mut Vec<SegmentId>,
) -> (area: Option<AdminArea>)
    ensures
        match area {
            Some(a) => built_area(rel@, ceiling, names) == Some(a@),
            None => built_area(rel@, ceiling, names) is None,
        },
        final(inner_sink)@ == old(inner_sink)@ + (match area {
            Some(a) => a@.inner,
            None => Seq::empty(),
        }),
        final(outer_sink)@ == old(outer_sink)@ + (match area {
            Some(a) => a@.outer,
            None => Seq::empty(),
        }),
{
    let ghost inner_before = inner_sink@;
    let ghost outer_before = outer_sink@;
    let level = match read_level(&rel.tags) {
        Some(level) => level,
        None => {
            return None;
        },
    };
    if let Some(max) = ceiling {
        if level > max {
            return None;
        }
    }
    let name = match select_name(&rel.tags, names) {
        Some(name) => name,
        None => {
            return None;
        },
    };
    let inner_role = String::from_str("inner");
    let outer_role = String::from_str("outer");
    let mut inner: Vec<SegmentId> = Vec::new();
    let mut outer: Vec<SegmentId> = Vec::new();
    let count = rel.refs.len();
    proof {
        reveal_strlit("inner");
        reveal_strlit("outer");
        assert("inner"@[0] != "outer"@[0]);
    }
    for i in 0..count
        invariant
            count == rel.refs@.len(),
            "inner"@ != "outer"@,
            inner_role@ == "inner"@,
            outer_role@ == "outer"@,
            inner@ == member_ways(rel@.refs.take(i as int), "inner"@),
            outer@ == member_ways(rel@.refs.take(i as int), "outer"@),
            inner_sink@ == inner_before + inner@,
            outer_sink@ == outer_before + outer@,
    {
        let r = &rel.refs[i];
        proof {
            assert(rel@.refs.take(i + 1).drop_last() =~= rel@.refs.take(i as int));
            assert(rel@.refs.take(i + 1).last() == r@);
        }
        if r.role == inner_role {
            if let OsmId::Way(id) = r.member {
                inner_sink.push(id);
                inner.push(id);
            }
        } else if r.role == outer_role {
            if let OsmId::Way(id) = r.member {
                outer_sink.push(id);
                outer.push(id);
            }
        }
    }
    proof {
        assert(rel@.refs.take(count as int) =~= rel@.refs);
    }
    Some(AdminArea { osmid: rel.id, level, name: name.clone(), inner, outer })
}

/// The classifier of every administrative boundary. It asks for
/// `boundary=administrative`, takes the general name before the English
/// one, and knows no ceiling: a relation without a readable level or
/// without a name is valid and yields no area.
#[derive(Debug, Clone, Copy)]
pub struct BoundaryAreaFactory {}

impl BoundaryAreaFactory {
    /// The classifier; it has nothing to configure.
    pub fn new() -> (factory: Self)
        ensures
            factory == (BoundaryAreaFactory {  }),
    {
        BoundaryAreaFactory {  }
    }
}

impl AreaFactory for BoundaryAreaFactory {
    open spec fn valid(&self, tags: Map<Seq<char>, Seq<char>>) -> bool {
        tags.contains_key("boundary"@) && tags["boundary"@] == "administrative"@
    }

    open spec fn area_of(&self, rel: RelationView) -> Option<AdminAreaView> {
        built_area(rel, None, NamePolicy::GenericFirst)
    }

    fn is_valid(&self, tags: &Tags) -> (valid: bool) {
        tags_contains(tags, "boundary", "administrative")
    }

    fn to_area(
        &self,
        rel: &OsmRelation,
        inner_sink: &mut Vec<SegmentId>,
        outer_sink: &mut Vec<SegmentId>,
    ) -> (area: Option<AdminArea>) {
        build_area(rel, None, NamePolicy::GenericFirst, inner_sink, outer_sink)
    }
}

} // verus!
