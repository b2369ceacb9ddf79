use osm_areas::classifier::{build_area, read_level, select_name, BoundaryAreaFactory, NamePolicy};
use osm_areas::parsers::{Area, AreaFactory};
use osm_areas::source::{OsmId, OsmRef, OsmRelation};
use osm_areas::{AdminArea, AdminAreaFactory};
use osmpbfreader::Tags;

fn tags_of(pairs: &[(&str, &str)]) -> Tags {
    let mut tags = Tags::new();
    for (key, value) in pairs {
        tags.insert(key.to_string(), value.to_string());
    }
    tags
}

fn member(role: &str, member: OsmId) -> OsmRef {
    OsmRef { member, role: role.to_string() }
}

fn stuttgart(with_level: bool) -> OsmRelation {
    let mut pairs = vec![("boundary", "administrative"), ("name", "Stuttgart")];
    if with_level {
        pairs.push(("admin_level", "6"));
    }
    OsmRelation {
        id: 2793104,
        tags: tags_of(&pairs),
        refs: vec![member("outer", OsmId::Way(11)), member("inner", OsmId::Way(12))],
    }
}

#[test]
fn general_name_variant_makes_an_area() {
    let factory = BoundaryAreaFactory::new();
    let rel = stuttgart(true);
    assert!(factory.is_valid(&rel.tags));
    let mut inner = Vec::new();
    let mut outer = Vec::new();
    let area = factory.to_area(&rel, &mut inner, &mut outer).expect("an area");
    assert_eq!(area.level, 6);
    assert_eq!(area.name, "Stuttgart");
    assert_eq!(area.outer.len(), 1);
    assert_eq!(area.inner.len(), 1);
    assert_eq!(area.osmid, 2793104);
    assert_eq!(area.outer, vec![11]);
    assert_eq!(area.inner, vec![12]);
    assert_eq!(inner, vec![12]);
    assert_eq!(outer, vec![11]);
}

#[test]
fn general_name_variant_without_level_makes_none() {
    let factory = BoundaryAreaFactory::new();
    let rel = stuttgart(false);
    assert!(factory.is_valid(&rel.tags));
    let mut inner = vec![1];
    let mut outer = vec![2];
    assert_eq!(factory.to_area(&rel, &mut inner, &mut outer), None);
    assert_eq!(inner, vec![1]);
    assert_eq!(outer, vec![2]);
}

#[test]
fn general_name_variant_asks_for_the_boundary_tag() {
    let factory = BoundaryAreaFactory::new();
    assert!(factory.is_valid(&tags_of(&[("boundary", "administrative")])));
    assert!(!factory.is_valid(&tags_of(&[("boundary", "national_park")])));
    assert!(!factory.is_valid(&tags_of(&[("type", "boundary"), ("name", "x")])));
    assert!(!factory.is_valid(&tags_of(&[])));
}

#[test]
fn general_name_variant_prefers_the_general_name_and_has_no_ceiling() {
    let factory = BoundaryAreaFactory::new();
    let rel = OsmRelation {
        id: 1,
        tags: tags_of(&[
            ("boundary", "administrative"),
            ("name", "Köln"),
            ("name:en", "Cologne"),
            ("admin_level", "255"),
        ]),
        refs: vec![],
    };
    let area = factory.to_area(&rel, &mut Vec::new(), &mut Vec::new()).expect("an area");
    assert_eq!(area.name, "Köln");
    assert_eq!(area.level, 255);

    let english_only = OsmRelation {
        id: 2,
        tags: tags_of(&[
            ("boundary", "administrative"),
            ("name:en", "Cologne"),
            ("admin_level", "6"),
        ]),
        refs: vec![],
    };
    let area = factory.to_area(&english_only, &mut Vec::new(), &mut Vec::new()).expect("an area");
    assert_eq!(area.name, "Cologne");

    let nameless = OsmRelation {
        id: 3,
        tags: tags_of(&[("boundary", "administrative"), ("admin_level", "6")]),
        refs: vec![member("outer", OsmId::Way(1))],
    };
    let mut outer = Vec::new();
    assert_eq!(factory.to_area(&nameless, &mut Vec::new(), &mut outer), None);
    assert!(outer.is_empty());
}

#[test]
fn admin_factory_validity() {
    let factory = AdminAreaFactory::new(4);
    let valid = [("type", "boundary"), ("name", "Bayern"), ("admin_level", "4")];
    assert!(factory.is_valid(&tags_of(&valid)));
    assert!(factory.is_valid(&tags_of(&[
        ("type", "boundary"),
        ("name:en", "Bavaria"),
        ("admin_level", "2")
    ])));
    // no type=boundary
    assert!(!factory.is_valid(&tags_of(&[("name", "Bayern"), ("admin_level", "4")])));
    assert!(!factory.is_valid(&tags_of(&[
        ("type", "multipolygon"),
        ("name", "Bayern"),
        ("admin_level", "4")
    ])));
    assert!(!factory.is_valid(&tags_of(&[
        ("boundary", "administrative"),
        ("name", "Bayern"),
        ("admin_level", "4")
    ])));
    // no name
    assert!(!factory.is_valid(&tags_of(&[("type", "boundary"), ("admin_level", "4")])));
    // no level, unreadable level, level above the ceiling
    assert!(!factory.is_valid(&tags_of(&[("type", "boundary"), ("name", "Bayern")])));
    assert!(!factory.is_valid(&tags_of(&[
        ("type", "boundary"),
        ("name", "Bayern"),
        ("admin_level", "four")
    ])));
    assert!(!factory.is_valid(&tags_of(&[
        ("type", "boundary"),
        ("name", "Bayern"),
        ("admin_level", "5")
    ])));
    assert!(!factory.is_valid(&tags_of(&[
        ("type", "boundary"),
        ("name", "Bayern"),
        ("admin_level", "300")
    ])));
}

#[test]
fn admin_factory_ceiling_is_inclusive() {
    for max in [0u8, 4, 255] {
        let factory = AdminAreaFactory::new(max);
        let at = max.to_string();
        assert!(factory.is_valid(&tags_of(&[
            ("type", "boundary"),
            ("name", "x"),
            ("admin_level", &at)
        ])));
        if max < 255 {
            let above = (max + 1).to_string();
            assert!(!factory.is_valid(&tags_of(&[
                ("type", "boundary"),
                ("name", "x"),
                ("admin_level", &above)
            ])));
        }
    }
}

#[test]
fn admin_factory_makes_an_area_with_the_english_name_first() {
    let factory = AdminAreaFactory::new(4);
    let rel = OsmRelation {
        id: -51477,
        tags: tags_of(&[
            ("type", "boundary"),
            ("name", "Deutschland"),
            ("name:en", "Germany"),
            ("admin_level", "2"),
        ]),
        refs: vec![
            member("outer", OsmId::Way(1)),
            member("inner", OsmId::Way(2)),
            member("outer", OsmId::Way(3)),
            member("outer", OsmId::Way(1)),
            member("admin_centre", OsmId::Node(4)),
            member("label", OsmId::Node(5)),
            member("subarea", OsmId::Relation(6)),
            member("inner", OsmId::Node(7)),
            member("outer", OsmId::Relation(8)),
            member("", OsmId::Way(9)),
            member("Outer", OsmId::Way(10)),
            member("inner ", OsmId::Way(11)),
        ],
    };
    assert!(factory.is_valid(&rel.tags));
    let mut inner = vec![100];
    let mut outer = vec![200];
    let area = factory.to_area(&rel, &mut inner, &mut outer).expect("an area");
    assert_eq!(
        area,
        AdminArea {
            osmid: -51477,
            level: 2,
            name: "Germany".to_string(),
            inner: vec![2],
            outer: vec![1, 3, 1],
        }
    );
    assert_eq!(inner, vec![100, 2]);
    assert_eq!(outer, vec![200, 1, 3, 1]);
}

#[test]
fn admin_factory_falls_back_on_the_general_name() {
    let factory = AdminAreaFactory::new(8);
    let rel = OsmRelation {
        id: 9,
        tags: tags_of(&[("type", "boundary"), ("name", "Ulm"), ("admin_level", "+6")]),
        refs: vec![],
    };
    assert!(factory.is_valid(&rel.tags));
    let area = factory.to_area(&rel, &mut Vec::new(), &mut Vec::new()).expect("an area");
    assert_eq!(area.name, "Ulm");
    assert_eq!(area.level, 6);
    assert!(area.inner.is_empty());
    assert!(area.outer.is_empty());
}

#[test]
fn area_getters_return_the_fields() {
    let area = AdminArea {
        osmid: 5,
        level: 3,
        name: "n".to_string(),
        inner: vec![1, 2],
        outer: vec![3],
    };
    assert_eq!(area.get_id(), 5);
    assert_eq!(area.get_inner(), &vec![1, 2]);
    assert_eq!(area.get_outer(), &vec![3]);
}

#[test]
fn read_level_reads_the_level_tag() {
    assert_eq!(read_level(&tags_of(&[("admin_level", "8")])), Some(8));
    assert_eq!(read_level(&tags_of(&[("admin_level", "")])), None);
    assert_eq!(read_level(&tags_of(&[("admin_level", "8;9")])), None);
    assert_eq!(read_level(&tags_of(&[("level", "8")])), None);
}

#[test]
fn select_name_follows_the_policy() {
    let both = tags_of(&[("name", "Wien"), ("name:en", "Vienna")]);
    assert_eq!(select_name(&both, NamePolicy::LocalizedFirst).map(|s| s.as_str()), Some("Vienna"));
    assert_eq!(select_name(&both, NamePolicy::GenericFirst).map(|s| s.as_str()), Some("Wien"));
    let general = tags_of(&[("name", "Wien")]);
    assert_eq!(select_name(&general, NamePolicy::LocalizedFirst).map(|s| s.as_str()), Some("Wien"));
    let english = tags_of(&[("name:en", "Vienna")]);
    assert_eq!(select_name(&english, NamePolicy::GenericFirst).map(|s| s.as_str()), Some("Vienna"));
    let other = tags_of(&[("name:de", "Wien")]);
    assert_eq!(select_name(&other, NamePolicy::LocalizedFirst), None);
    assert_eq!(select_name(&other, NamePolicy::GenericFirst), None);
}

#[test]
fn build_area_applies_the_ceiling() {
    let rel = OsmRelation {
        id: 1,
        tags: tags_of(&[("name", "x"), ("admin_level", "5")]),
        refs: vec![member("outer", OsmId::Way(1))],
    };
    let mut inner = Vec::new();
    let mut outer = Vec::new();
    assert_eq!(
        build_area(&rel, Some(4), NamePolicy::LocalizedFirst, &mut inner, &mut outer),
        None
    );
    assert!(outer.is_empty());
    let area = build_area(&rel, Some(5), NamePolicy::LocalizedFirst, &mut inner, &mut outer)
        .expect("an area");
    assert_eq!(area.level, 5);
    assert_eq!(outer, vec![1]);
    let area = build_area(&rel, None, NamePolicy::LocalizedFirst, &mut inner, &mut outer)
        .expect("an area");
    assert_eq!(area.outer, vec![1]);
    assert_eq!(outer, vec![1, 1]);
    assert!(inner.is_empty());
}
