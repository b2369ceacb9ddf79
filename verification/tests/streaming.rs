use osm_areas::parsers::areaparser::import_areas;
use osm_areas::parsers::importer::{Importer, Pass};
use osm_areas::parsers::{Node, Segment};
use osm_areas::source::{OsmId, OsmNode, OsmObj, OsmRef, OsmRelation, OsmWay};
use osm_areas::{export_complete, import_admin_areas, AdminAreaFactory};
use osmpbfreader::Tags;

fn tags_of(pairs: &[(&str, &str)]) -> Tags {
    let mut tags = Tags::new();
    for (key, value) in pairs {
        tags.insert(key.to_string(), value.to_string());
    }
    tags
}

fn node(id: i64, lat: i32, lon: i32) -> OsmObj {
    OsmObj::Node(OsmNode { id, decimicro_lat: lat, decimicro_lon: lon })
}

fn way(id: i64, nodes: &[i64]) -> OsmObj {
    OsmObj::Way(OsmWay { id, nodes: nodes.to_vec() })
}

fn boundary(id: i64, name: &str, level: &str, outer: &[i64], inner: &[i64]) -> OsmObj {
    let mut refs = Vec::new();
    for w in outer {
        refs.push(OsmRef { member: OsmId::Way(*w), role: "outer".to_string() });
    }
    for w in inner {
        refs.push(OsmRef { member: OsmId::Way(*w), role: "inner".to_string() });
    }
    OsmObj::Relation(OsmRelation {
        id,
        tags: tags_of(&[("type", "boundary"), ("name", name), ("admin_level", level)]),
        refs,
    })
}

fn sample() -> Vec<OsmObj> {
    vec![
        node(10, 1, 2),
        way(1, &[10, 11]),
        node(11, 3, 4),
        boundary(100, "A", "2", &[1], &[2]),
        way(2, &[11, 12]),
        node(12, 5, 6),
        way(3, &[13]),
        node(13, 7, 8),
        boundary(101, "B", "3", &[4], &[]),
        boundary(102, "too fine", "9", &[3], &[]),
    ]
}

fn stream<'a>(
    mut importer: Importer<'a, AdminAreaFactory>,
    source: &[OsmObj],
) -> Importer<'a, AdminAreaFactory> {
    for obj in source {
        importer = importer.feed(obj);
    }
    importer.end_pass()
}

#[test]
fn the_passes_follow_one_another() {
    let factory = AdminAreaFactory::new(4);
    let importer = Importer::new(&factory);
    assert_eq!(importer.current_pass(), Pass::Areas);
    let importer = importer.end_pass();
    assert_eq!(importer.current_pass(), Pass::Segments);
    let importer = importer.end_pass();
    assert_eq!(importer.current_pass(), Pass::Points);
    let importer = importer.end_pass();
    assert_eq!(importer.current_pass(), Pass::Done);
    let importer = importer.end_pass();
    assert_eq!(importer.current_pass(), Pass::Done);
}

#[test]
fn feeding_keeps_the_pass() {
    let factory = AdminAreaFactory::new(4);
    let mut importer = Importer::new(&factory);
    for obj in &sample() {
        importer = importer.feed(obj);
        assert_eq!(importer.current_pass(), Pass::Areas);
    }
}

#[test]
fn there_are_no_tables_before_the_import_is_done() {
    let factory = AdminAreaFactory::new(4);
    let source = sample();
    assert!(Importer::new(&factory).finish().is_none());
    assert!(stream(Importer::new(&factory), &source).finish().is_none());
    let two = stream(stream(Importer::new(&factory), &source), &source);
    assert!(two.finish().is_none());
}

#[test]
fn three_passes_over_a_source_give_what_the_import_gives() {
    let factory = AdminAreaFactory::new(4);
    let source = sample();
    let mut importer = Importer::new(&factory);
    while importer.current_pass() != Pass::Done {
        importer = stream(importer, &source);
    }
    let (areas, segments, nodes) = importer.finish().expect("the import is done");
    assert_eq!((areas.len(), segments.len(), nodes.len()), (2, 2, 3));
    assert_eq!(areas[&100].inner, vec![2]);
    assert_eq!(areas[&101].outer, vec![4]);
    assert_eq!(segments[&1], Segment { osmid: 1, nodes: vec![10, 11] });
    assert_eq!(segments[&2], Segment { osmid: 2, nodes: vec![11, 12] });
    assert_eq!(nodes[&12], Node { osmid: 12, lat: 5, lon: 6 });
    assert!(!nodes.contains_key(&13));
    assert_eq!((areas, segments, nodes), import_areas(&source, &factory));
}

#[test]
fn each_pass_takes_what_it_is_fed() {
    let factory = AdminAreaFactory::new(4);
    let importer = Importer::new(&factory);
    // the area pass sees one area; the polylines and points come later
    let importer = stream(importer, &[boundary(100, "A", "2", &[1, 2], &[])]);
    // the segment pass is fed an area too, which it passes over
    let importer = stream(
        importer,
        &[way(1, &[10]), boundary(200, "late", "2", &[3], &[]), way(3, &[30]), way(2, &[20])],
    );
    // the point pass is fed a polyline, which it passes over
    let importer = stream(importer, &[node(30, 0, 0), node(20, 2, 2), way(9, &[10]), node(10, 1, 1)]);
    let (areas, segments, nodes) = importer.finish().expect("the import is done");
    assert_eq!(areas.len(), 1);
    let mut seg_ids: Vec<i64> = segments.keys().copied().collect();
    seg_ids.sort();
    assert_eq!(seg_ids, vec![1, 2]);
    let mut node_ids: Vec<i64> = nodes.keys().copied().collect();
    node_ids.sort();
    assert_eq!(node_ids, vec![10, 20]);
}

#[test]
fn once_done_an_object_changes_nothing() {
    let factory = AdminAreaFactory::new(4);
    let source = sample();
    let mut importer = Importer::new(&factory);
    while importer.current_pass() != Pass::Done {
        importer = stream(importer, &source);
    }
    let importer = importer
        .feed(&boundary(500, "late", "2", &[1], &[]))
        .feed(&way(4, &[10]))
        .feed(&node(13, 7, 8));
    assert_eq!(importer.current_pass(), Pass::Done);
    assert_eq!(importer.finish(), Some(import_areas(&source, &factory)));
}

#[test]
fn export_complete_filters_and_writes() {
    let factory = AdminAreaFactory::new(4);
    let source = sample();
    let (areas, segments, nodes) = import_areas(&source, &factory);
    let identity = |lat: &i32, lon: &i32| (*lat, *lon);
    let summary = export_complete(&areas, &segments, &nodes, &identity);
    assert_eq!(summary.areas, 2);
    assert_eq!(summary.segments, 2);
    assert_eq!(summary.nodes, 3);
    assert_eq!(summary.complete_areas, 1);
    assert_eq!(
        summary.snapshot,
        "Nodecount:3\n11:3,4;\n12:5,6;\n10:1,2;\nSegmentcount:2\n2,0:11,12;\n1,0:10,11;\n\
         Areacount:1\n100,2,A:1,1,0\n1\n2\n"
    );
    assert_eq!(summary, import_admin_areas(&source, 4, &identity));
}
