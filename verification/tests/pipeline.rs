use osm_areas::import_admin_areas;
use osm_areas::source::{OsmId, OsmNode, OsmObj, OsmRef, OsmRelation, OsmWay};
use osmpbfreader::Tags;

fn tags_of(pairs: &[(&str, &str)]) -> Tags {
    let mut tags = Tags::new();
    for (key, value) in pairs {
        tags.insert(key.to_string(), value.to_string());
    }
    tags
}

fn identity(lat: &i32, lon: &i32) -> (i32, i32) {
    (*lat, *lon)
}

fn one_area(with_second_point: bool) -> Vec<OsmObj> {
    let mut source = vec![OsmObj::Node(OsmNode {
        id: 1,
        decimicro_lat: 487758000,
        decimicro_lon: 91829000,
    })];
    if with_second_point {
        source.push(OsmObj::Node(OsmNode {
            id: 2,
            decimicro_lat: 487759000,
            decimicro_lon: 91830000,
        }));
    }
    source.push(OsmObj::Way(OsmWay { id: 10, nodes: vec![1, 2] }));
    source.push(OsmObj::Relation(OsmRelation {
        id: 100,
        tags: tags_of(&[("type", "boundary"), ("name", "Stuttgart"), ("admin_level", "4")]),
        refs: vec![OsmRef { member: OsmId::Way(10), role: "outer".to_string() }],
    }));
    source
}

#[test]
fn end_to_end_with_everything_present() {
    let summary = import_admin_areas(&one_area(true), 4, &identity);
    assert_eq!(summary.areas, 1);
    assert_eq!(summary.segments, 1);
    assert_eq!(summary.nodes, 2);
    assert_eq!(summary.complete_areas, 1);
    let lines: Vec<&str> = summary.snapshot.lines().collect();
    assert!(lines.contains(&"Nodecount:2"));
    assert!(lines.contains(&"Segmentcount:1"));
    assert!(lines.contains(&"Areacount:1"));
    assert!(lines.contains(&"100,4,Stuttgart:1,0,0"));
    assert_eq!(
        summary.snapshot,
        "Nodecount:2\n1:487758000,91829000;\n2:487759000,91830000;\nSegmentcount:1\n10,0:1,2;\nAreacount:1\n100,4,Stuttgart:1,0,0\n10\n"
    );
}

#[test]
fn end_to_end_with_a_point_removed() {
    let summary = import_admin_areas(&one_area(false), 4, &identity);
    // the area and its segment are imported, and the area is then dropped
    assert_eq!(summary.areas, 1);
    assert_eq!(summary.segments, 1);
    assert_eq!(summary.nodes, 1);
    assert_eq!(summary.complete_areas, 0);
    assert_eq!(summary.snapshot, "Nodecount:0\nSegmentcount:0\nAreacount:0\n");
}

#[test]
fn end_to_end_applies_the_projection() {
    let summary = import_admin_areas(&one_area(true), 4, &|lat: &i32, lon: &i32| (-*lat, *lon - 1));
    assert!(summary.snapshot.contains("\n1:-487758000,91828999;\n"));
    assert!(summary.snapshot.contains("\n2:-487759000,91829999;\n"));
}

#[test]
fn end_to_end_keeps_only_levels_up_to_the_maximum() {
    let summary = import_admin_areas(&one_area(true), 3, &identity);
    assert_eq!(summary.areas, 0);
    assert_eq!(summary.segments, 0);
    assert_eq!(summary.nodes, 0);
    assert_eq!(summary.snapshot, "Nodecount:0\nSegmentcount:0\nAreacount:0\n");
}

#[test]
fn end_to_end_writes_every_complete_area_once() {
    let mut source = one_area(true);
    source.push(OsmObj::Relation(OsmRelation {
        id: 101,
        tags: tags_of(&[("type", "boundary"), ("name:en", "Second"), ("admin_level", "2")]),
        refs: vec![
            OsmRef { member: OsmId::Way(10), role: "inner".to_string() },
            OsmRef { member: OsmId::Way(10), role: "outer".to_string() },
        ],
    }));
    source.push(OsmObj::Relation(OsmRelation {
        id: 102,
        tags: tags_of(&[("type", "boundary"), ("name", "Clipped"), ("admin_level", "2")]),
        refs: vec![OsmRef { member: OsmId::Way(11), role: "outer".to_string() }],
    }));
    let summary = import_admin_areas(&source, 4, &identity);
    assert_eq!(summary.areas, 3);
    assert_eq!(summary.complete_areas, 2);
    let text = summary.snapshot;
    assert!(text.starts_with("Nodecount:2\n"));
    assert!(text.contains("\nSegmentcount:1\n10,0:1,2;\nAreacount:2\n"));
    assert_eq!(text.matches("100,4,Stuttgart:1,0,0\n10\n").count(), 1);
    assert_eq!(text.matches("101,2,Second:1,1,0\n10\n10\n").count(), 1);
    assert!(!text.contains("Clipped"));
}
