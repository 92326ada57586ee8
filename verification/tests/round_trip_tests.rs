use toolpath_table::catalog::ColumnId;
use toolpath_table::flatten::flatten;
use toolpath_table::rebuild::rebuild;
use toolpath_table::scalar::{Double, Single};
use toolpath_table::schema::{
    Document, EventData, FanData, Group, Parameters, Point, Quaternion, Segment, Vector3D,
};
use toolpath_table::table::ColumnData;

fn d(x: f64) -> Double {
    Double::from_bits(x.to_bits())
}

fn s(x: f32) -> Single {
    Single::from_bits(x.to_bits())
}

fn nan3() -> Vector3D {
    Vector3D { x: Double::nan(), y: Double::nan(), z: Double::nan() }
}

fn nan4() -> Quaternion {
    Quaternion { x: Double::nan(), y: Double::nan(), z: Double::nan(), w: Double::nan() }
}

fn rich_point(i: i32) -> Point {
    let x = i as f64;
    Point {
        position: if i % 3 == 0 { None } else { Some(Vector3D { x: d(x), y: d(-x), z: d(x / 4.0) }) },
        direction: if i % 4 == 0 { None } else { Some(Vector3D { x: d(0.0), y: d(1.0), z: d(0.0) }) },
        orientation: if i % 5 == 0 {
            None
        } else {
            Some(Quaternion { x: d(0.5), y: d(0.5), z: d(0.5), w: d(0.5) })
        },
        external_axes: vec![d(x); (i % 3) as usize],
        deposition: d(x * 0.125),
        speed: d(x * 10.0),
        fans: vec![FanData { num: i, speed: d(x) }; (i % 2) as usize],
        user_events: vec![EventData { num: i }; (i % 4) as usize],
    }
}

fn kept_point(p: &Point) -> Point {
    Point {
        position: Some(p.position.unwrap_or(nan3())),
        direction: Some(p.direction.unwrap_or(nan3())),
        orientation: Some(p.orientation.unwrap_or(nan4())),
        external_axes: vec![],
        deposition: p.deposition,
        speed: p.speed,
        fans: vec![],
        user_events: vec![],
    }
}

fn rich_segment(kind: i32, first: i32, count: i32) -> Segment {
    Segment {
        points: (first..first + count).map(rich_point).collect(),
        process_on: kind % 2 == 0,
        segment_type: kind,
        process_on_delay: s(kind as f32 * 0.5),
        process_off_delay: s(kind as f32 * 0.25),
        start_delay: s(kind as f32),
        end_delay: s(3.0),
        speed_tcp: 1000 + kind,
        equipment_id: kind + 1,
        tool_id: kind + 2,
        material_id: kind + 3,
    }
}

fn kept_segment(seg: &Segment) -> Segment {
    Segment {
        points: seg.points.iter().map(kept_point).collect(),
        process_on: false,
        end_delay: s(0.0),
        ..seg.clone()
    }
}

fn kept(doc: &Document) -> Document {
    Document {
        parameters: vec![Parameters::zeroed()],
        groups: doc
            .groups
            .iter()
            .map(|g| Group {
                layer_index: g.layer_index,
                segments: g.segments.iter().map(kept_segment).collect(),
            })
            .collect(),
    }
}

fn rich_document() -> Document {
    Document {
        parameters: vec![],
        groups: vec![
            Group {
                layer_index: 3,
                segments: vec![rich_segment(1, 1, 4), rich_segment(2, 5, 1), rich_segment(1, 6, 3)],
            },
            Group { layer_index: -2, segments: vec![rich_segment(4, 9, 2)] },
            Group {
                layer_index: 0,
                segments: vec![rich_segment(5, 11, 1), rich_segment(6, 12, 6)],
            },
        ],
    }
}

#[test]
fn document_comes_back_but_for_what_the_table_does_not_hold() {
    let doc = rich_document();
    let rebuilt = rebuild(&flatten(&doc, false).unwrap()).unwrap();
    assert_eq!(rebuilt, kept(&doc));
    let with_lists = rebuild(&flatten(&doc, true).unwrap()).unwrap();
    assert_eq!(with_lists, kept(&doc));
}

#[test]
fn flatten_of_the_rebuilt_document_is_the_same_table() {
    let doc = rich_document();
    let table = flatten(&doc, false).unwrap();
    let rebuilt = rebuild(&table).unwrap();
    assert_eq!(flatten(&rebuilt, false).unwrap(), table);
}

#[test]
fn table_is_as_high_as_the_points_are_many() {
    let doc = rich_document();
    let points: usize =
        doc.groups.iter().map(|g| g.segments.iter().map(|seg| seg.points.len()).sum::<usize>()).sum();
    assert_eq!(points, 17);
    assert_eq!(flatten(&doc, true).unwrap().height(), 17);
    assert_eq!(flatten(&doc, false).unwrap().height(), 17);
}

#[test]
fn segment_numbers_of_a_full_document_step_by_one() {
    let table = flatten(&rich_document(), false).unwrap();
    let expected: Vec<Option<i32>> =
        [0, 0, 0, 0, 1, 2, 2, 2, 3, 3, 4, 5, 5, 5, 5, 5, 5].iter().map(|v| Some(*v)).collect();
    assert_eq!(table.column(ColumnId::SegmentId), Some(&ColumnData::Int32(expected)));
}

#[test]
fn layers_that_share_an_index_come_back_as_one() {
    let mut doc = rich_document();
    doc.groups[2].layer_index = 3;
    let rebuilt = rebuild(&flatten(&doc, false).unwrap()).unwrap();
    assert_eq!(rebuilt.groups.len(), 2);
    assert_eq!(rebuilt.groups[0].layer_index, 3);
    assert_eq!(rebuilt.groups[1].layer_index, -2);
    let kinds: Vec<i32> = rebuilt.groups[0].segments.iter().map(|seg| seg.segment_type).collect();
    assert_eq!(kinds, vec![1, 2, 1, 5, 6]);
    let counts: Vec<usize> = rebuilt.groups[0].segments.iter().map(|seg| seg.points.len()).collect();
    assert_eq!(counts, vec![4, 1, 3, 1, 6]);
}

#[test]
fn segments_and_layers_without_points_do_not_come_back() {
    let mut doc = rich_document();
    doc.groups[0].segments[1].points.clear();
    doc.groups[1].segments[0].points.clear();
    doc.groups.push(Group { layer_index: 9, segments: vec![] });
    let rebuilt = rebuild(&flatten(&doc, false).unwrap()).unwrap();
    assert_eq!(rebuilt.groups.len(), 2);
    assert_eq!(rebuilt.groups[0].layer_index, 3);
    assert_eq!(rebuilt.groups[0].segments.len(), 2);
    assert_eq!(rebuilt.groups[1].layer_index, 0);
    assert_eq!(rebuilt.groups[1].segments.len(), 2);
}

#[test]
fn value_that_is_a_nan_comes_back_bit_for_bit() {
    let odd = Double::from_bits(0x7ff0_0000_0000_0001);
    assert!(odd.is_nan());
    let mut doc = rich_document();
    doc.groups[0].segments[0].points[0].deposition = odd;
    let rebuilt = rebuild(&flatten(&doc, false).unwrap()).unwrap();
    assert_eq!(rebuilt.groups[0].segments[0].points[0].deposition.to_bits(), 0x7ff0_0000_0000_0001);
}
