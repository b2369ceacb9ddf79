use osm_areas::filter::{
    complete_segments, filter_complete, is_complete, ring_is_complete, ring_within,
    segment_is_complete,
};
use osm_areas::parsers::{Node, Segment};
use osm_areas::AdminArea;
use std::collections::{HashMap, HashSet};

fn area(id: i64, outer: &[i64], inner: &[i64]) -> AdminArea {
    AdminArea {
        osmid: id,
        level: 2,
        name: format!("area {}", id),
        inner: inner.to_vec(),
        outer: outer.to_vec(),
    }
}

fn areas_of(list: Vec<AdminArea>) -> HashMap<i64, AdminArea> {
    list.into_iter().map(|a| (a.osmid, a)).collect()
}

fn segments_of(list: &[(i64, &[i64])]) -> HashMap<i64, Segment> {
    list.iter().map(|(id, nodes)| (*id, Segment { osmid: *id, nodes: nodes.to_vec() })).collect()
}

fn nodes_of(ids: &[i64]) -> HashMap<i64, Node> {
    ids.iter().map(|id| (*id, Node { osmid: *id, lat: 0, lon: 0 })).collect()
}

fn sorted(mut ids: Vec<i64>) -> Vec<i64> {
    ids.sort();
    ids
}

#[test]
fn complete_areas_survive() {
    let areas = areas_of(vec![area(1, &[10], &[11]), area(2, &[11], &[])]);
    let segments = segments_of(&[(10, &[100, 101]), (11, &[101])]);
    let nodes = nodes_of(&[100, 101]);
    assert_eq!(sorted(filter_complete(&areas, &segments, &nodes)), vec![1, 2]);
}

#[test]
fn an_area_with_a_missing_segment_is_dropped() {
    let areas = areas_of(vec![area(1, &[10], &[]), area(2, &[10, 12], &[]), area(3, &[], &[12])]);
    let segments = segments_of(&[(10, &[100])]);
    let nodes = nodes_of(&[100]);
    assert_eq!(sorted(filter_complete(&areas, &segments, &nodes)), vec![1]);
}

#[test]
fn an_area_with_a_missing_point_is_dropped() {
    let areas = areas_of(vec![area(1, &[10], &[]), area(2, &[10], &[11]), area(3, &[11], &[])]);
    let segments = segments_of(&[(10, &[100]), (11, &[100, 999])]);
    let nodes = nodes_of(&[100]);
    assert_eq!(sorted(filter_complete(&areas, &segments, &nodes)), vec![1]);
}

#[test]
fn an_area_without_segments_is_complete() {
    let areas = areas_of(vec![area(1, &[], &[])]);
    assert_eq!(filter_complete(&areas, &HashMap::new(), &HashMap::new()), vec![1]);
}

#[test]
fn empty_tables_give_no_area() {
    assert!(filter_complete(&HashMap::new(), &HashMap::new(), &HashMap::new()).is_empty());
}

#[test]
fn survivors_have_their_closure_and_the_dropped_lack_something() {
    let areas = areas_of(vec![
        area(1, &[10, 11], &[12]),
        area(2, &[13], &[]),
        area(3, &[10], &[14]),
        area(4, &[], &[11, 12]),
        area(5, &[15], &[10]),
    ]);
    let segments =
        segments_of(&[(10, &[1, 2]), (11, &[2, 3]), (12, &[]), (13, &[4]), (15, &[1, 5])]);
    let nodes = nodes_of(&[1, 2, 3]);
    let kept = filter_complete(&areas, &segments, &nodes);
    assert_eq!(sorted(kept.clone()), vec![1, 4]);
    for (id, a) in &areas {
        let closed = a.inner.iter().chain(a.outer.iter()).all(|s| {
            segments.get(s).map_or(false, |seg| seg.nodes.iter().all(|n| nodes.contains_key(n)))
        });
        assert_eq!(kept.contains(id), closed);
        assert_eq!(is_complete(a, &segments, &nodes), closed);
    }
}

#[test]
fn filtering_twice_gives_the_same() {
    let areas = areas_of(vec![area(1, &[10], &[]), area(2, &[11], &[]), area(3, &[10], &[10])]);
    let segments = segments_of(&[(10, &[1]), (11, &[2])]);
    let nodes = nodes_of(&[1]);
    let first = sorted(filter_complete(&areas, &segments, &nodes));
    let second = sorted(filter_complete(&areas, &segments, &nodes));
    assert_eq!(first, vec![1, 3]);
    assert_eq!(first, second);
    let survivors: HashMap<i64, AdminArea> =
        areas.into_iter().filter(|(id, _)| first.contains(id)).collect();
    assert_eq!(sorted(filter_complete(&survivors, &segments, &nodes)), first);
}

#[test]
fn the_filter_leaves_the_tables_as_they_were() {
    let areas = areas_of(vec![area(1, &[10], &[]), area(2, &[11], &[])]);
    let segments = segments_of(&[(10, &[1]), (11, &[2])]);
    let nodes = nodes_of(&[1]);
    let before = (areas.clone(), segments.clone(), nodes.clone());
    filter_complete(&areas, &segments, &nodes);
    assert_eq!((areas, segments, nodes), before);
}

#[test]
fn tables_are_read_by_key() {
    // The segment filed under 10 carries another identifier: the key counts.
    let areas = areas_of(vec![area(1, &[10], &[]), area(2, &[77], &[])]);
    let mut segments = HashMap::new();
    segments.insert(10, Segment { osmid: 77, nodes: vec![1] });
    let nodes = nodes_of(&[1]);
    assert_eq!(filter_complete(&areas, &segments, &nodes), vec![1]);
}

#[test]
fn segment_is_complete_looks_at_every_point() {
    let nodes = nodes_of(&[1, 2]);
    assert!(segment_is_complete(&Segment { osmid: 1, nodes: vec![] }, &nodes));
    assert!(segment_is_complete(&Segment { osmid: 1, nodes: vec![1, 2, 1] }, &nodes));
    assert!(!segment_is_complete(&Segment { osmid: 1, nodes: vec![1, 2, 3] }, &nodes));
    assert!(!segment_is_complete(&Segment { osmid: 1, nodes: vec![3, 1] }, &nodes));
}

#[test]
fn complete_segments_are_those_with_all_points() {
    let segments = segments_of(&[(10, &[1]), (11, &[1, 2]), (12, &[]), (13, &[3])]);
    let nodes = nodes_of(&[1, 3]);
    let expected: HashSet<i64> = [10, 12, 13].into_iter().collect();
    assert_eq!(complete_segments(&segments, &nodes), expected);
}

#[test]
fn ring_checks() {
    let complete: HashSet<i64> = [1, 2].into_iter().collect();
    assert!(ring_within(&vec![], &complete));
    assert!(ring_within(&vec![2, 1, 2], &complete));
    assert!(!ring_within(&vec![2, 3], &complete));
    let segments = segments_of(&[(10, &[1]), (11, &[9])]);
    let nodes = nodes_of(&[1]);
    assert!(ring_is_complete(&vec![], &segments, &nodes));
    assert!(ring_is_complete(&vec![10, 10], &segments, &nodes));
    assert!(!ring_is_complete(&vec![10, 11], &segments, &nodes));
    assert!(!ring_is_complete(&vec![12], &segments, &nodes));
}
