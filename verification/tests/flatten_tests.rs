use toolpath_table::catalog::{catalog, ColumnId, ColumnKind, COLUMN_COUNT, SCALAR_COLUMN_COUNT};
use toolpath_table::flatten::{document_rows, flatten, point_row, quaternion_or_nan, vector_or_nan};
use toolpath_table::scalar::{int_or_zero, Double, Single, NAN_BITS};
use toolpath_table::schema::{
    Document, EventData, FanData, Group, Parameters, Point, Quaternion, Segment, Vector3D,
};
use toolpath_table::table::ColumnData;

fn d(x: f64) -> Double {
    Double::from_bits(x.to_bits())
}

fn s(x: f32) -> Single {
    Single::from_bits(x.to_bits())
}

fn point(x: f64) -> Point {
    Point {
        position: Some(Vector3D { x: d(x), y: d(x + 0.25), z: d(x + 0.5) }),
        direction: Some(Vector3D { x: d(0.0), y: d(0.0), z: d(1.0) }),
        orientation: Some(Quaternion { x: d(0.0), y: d(0.0), z: d(0.0), w: d(1.0) }),
        external_axes: vec![],
        deposition: d(x * 2.0),
        speed: d(x * 3.0),
        fans: vec![],
        user_events: vec![],
    }
}

fn segment(kind: i32, points: Vec<Point>) -> Segment {
    Segment {
        points,
        process_on: true,
        segment_type: kind,
        process_on_delay: s(0.5),
        process_off_delay: s(0.25),
        start_delay: s(1.5),
        end_delay: s(2.5),
        speed_tcp: 100 + kind,
        equipment_id: 7,
        tool_id: 8,
        material_id: 9,
    }
}

fn two_layers() -> Document {
    Document {
        parameters: vec![Parameters::zeroed()],
        groups: vec![
            Group { layer_index: 0, segments: vec![segment(1, vec![point(1.0), point(2.0)])] },
            Group {
                layer_index: 1,
                segments: vec![segment(2, vec![point(3.0), point(4.0), point(5.0)])],
            },
        ],
    }
}

fn ints(data: Option<&ColumnData>) -> Vec<Option<i32>> {
    match data {
        Some(ColumnData::Int32(cells)) => cells.clone(),
        other => panic!("not an integer column: {:?}", other),
    }
}

fn doubles(data: Option<&ColumnData>) -> Vec<Option<Double>> {
    match data {
        Some(ColumnData::Float64(cells)) => cells.clone(),
        other => panic!("not a binary64 column: {:?}", other),
    }
}

fn singles(data: Option<&ColumnData>) -> Vec<Option<Single>> {
    match data {
        Some(ColumnData::Float32(cells)) => cells.clone(),
        other => panic!("not a binary32 column: {:?}", other),
    }
}

fn all(values: &[i32]) -> Vec<Option<i32>> {
    values.iter().map(|v| Some(*v)).collect()
}

#[test]
fn flatten_has_one_row_per_point() {
    let table = flatten(&two_layers(), false).unwrap();
    assert_eq!(table.height(), 5);
    for id in catalog(false) {
        assert_eq!(table.column(id).unwrap().len(), 5);
    }
}

#[test]
fn flatten_numbers_segments_through_the_document() {
    let table = flatten(&two_layers(), false).unwrap();
    assert_eq!(ints(table.column(ColumnId::SegmentId)), all(&[0, 0, 1, 1, 1]));
    assert_eq!(ints(table.column(ColumnId::LayerIndex)), all(&[0, 0, 1, 1, 1]));
}

#[test]
fn segment_numbers_do_not_restart_in_a_new_layer() {
    let doc = Document {
        parameters: vec![],
        groups: vec![
            Group {
                layer_index: 5,
                segments: vec![segment(1, vec![point(1.0)]), segment(2, vec![point(2.0)])],
            },
            Group {
                layer_index: 3,
                segments: vec![segment(3, vec![point(3.0), point(4.0)]), segment(4, vec![point(5.0)])],
            },
        ],
    };
    let table = flatten(&doc, false).unwrap();
    assert_eq!(ints(table.column(ColumnId::SegmentId)), all(&[0, 1, 2, 2, 3]));
    assert_eq!(ints(table.column(ColumnId::LayerIndex)), all(&[5, 5, 3, 3, 3]));
    assert_eq!(ints(table.column(ColumnId::SegmentType)), all(&[1, 2, 3, 3, 4]));
    assert_eq!(ints(table.column(ColumnId::SpeedTcp)), all(&[101, 102, 103, 103, 104]));
}

#[test]
fn adjacent_segment_numbers_stay_or_grow_by_one() {
    let doc = Document {
        parameters: vec![],
        groups: vec![
            Group { layer_index: 0, segments: vec![segment(0, vec![])] },
            Group {
                layer_index: 1,
                segments: vec![
                    segment(0, vec![point(1.0), point(2.0)]),
                    segment(0, vec![point(3.0)]),
                ],
            },
            Group { layer_index: 2, segments: vec![] },
            Group { layer_index: 3, segments: vec![segment(0, vec![point(4.0), point(5.0)])] },
        ],
    };
    let table = flatten(&doc, false).unwrap();
    let ids = ints(table.column(ColumnId::SegmentId));
    assert_eq!(ids, all(&[1, 1, 2, 3, 3]));
    for pair in ids.windows(2) {
        let (a, b) = (pair[0].unwrap(), pair[1].unwrap());
        assert!(b == a || b == a + 1);
    }
}

#[test]
fn empty_segment_between_two_others_uses_up_a_number() {
    let doc = Document {
        parameters: vec![],
        groups: vec![Group {
            layer_index: 0,
            segments: vec![
                segment(0, vec![point(1.0)]),
                segment(0, vec![]),
                segment(0, vec![point(2.0)]),
            ],
        }],
    };
    let table = flatten(&doc, false).unwrap();
    assert_eq!(ints(table.column(ColumnId::SegmentId)), all(&[0, 2]));
}

#[test]
fn flatten_copies_point_values_verbatim() {
    let table = flatten(&two_layers(), false).unwrap();
    let xs = doubles(table.column(ColumnId::PositionX));
    let expected: Vec<Option<Double>> = [1.0, 2.0, 3.0, 4.0, 5.0].iter().map(|x| Some(d(*x))).collect();
    assert_eq!(xs, expected);
    let ys = doubles(table.column(ColumnId::PositionY));
    assert_eq!(ys[0], Some(d(1.25)));
    let zs = doubles(table.column(ColumnId::PositionZ));
    assert_eq!(zs[4], Some(d(5.5)));
    assert_eq!(doubles(table.column(ColumnId::DirectionZ))[2], Some(d(1.0)));
    assert_eq!(doubles(table.column(ColumnId::OrientationW))[3], Some(d(1.0)));
    assert_eq!(doubles(table.column(ColumnId::Deposition))[1], Some(d(4.0)));
    assert_eq!(doubles(table.column(ColumnId::Speed))[1], Some(d(6.0)));
}

#[test]
fn flatten_copies_segment_settings_onto_each_row() {
    let table = flatten(&two_layers(), false).unwrap();
    assert_eq!(singles(table.column(ColumnId::ProcessOnDelay)), vec![Some(s(0.5)); 5]);
    assert_eq!(singles(table.column(ColumnId::ProcessOffDelay)), vec![Some(s(0.25)); 5]);
    assert_eq!(singles(table.column(ColumnId::StartDelay)), vec![Some(s(1.5)); 5]);
    assert_eq!(ints(table.column(ColumnId::EquipmentId)), all(&[7; 5]));
    assert_eq!(ints(table.column(ColumnId::ToolId)), all(&[8; 5]));
    assert_eq!(ints(table.column(ColumnId::MaterialId)), all(&[9; 5]));
    assert_eq!(ints(table.column(ColumnId::SegmentType)), all(&[1, 1, 2, 2, 2]));
}

#[test]
fn absent_orientation_flattens_to_nan() {
    let mut doc = two_layers();
    doc.groups[1].segments[0].points[1].orientation = None;
    let table = flatten(&doc, false).unwrap();
    for id in [
        ColumnId::OrientationX,
        ColumnId::OrientationY,
        ColumnId::OrientationZ,
        ColumnId::OrientationW,
    ] {
        let cells = doubles(table.column(id));
        let cell = cells[3].unwrap();
        assert!(cell.is_nan());
        assert!(f64::from_bits(cell.to_bits()).is_nan());
        assert!(!cells[2].unwrap().is_nan());
    }
}

#[test]
fn absent_position_and_direction_flatten_to_nan() {
    let mut doc = two_layers();
    doc.groups[0].segments[0].points[0].position = None;
    doc.groups[0].segments[0].points[1].direction = None;
    let table = flatten(&doc, false).unwrap();
    for id in [ColumnId::PositionX, ColumnId::PositionY, ColumnId::PositionZ] {
        let cells = doubles(table.column(id));
        assert!(cells[0].unwrap().is_nan());
        assert!(!cells[1].unwrap().is_nan());
    }
    for id in [ColumnId::DirectionX, ColumnId::DirectionY, ColumnId::DirectionZ] {
        let cells = doubles(table.column(id));
        assert!(cells[1].unwrap().is_nan());
        assert!(!cells[0].unwrap().is_nan());
    }
}

#[test]
fn scalar_table_has_no_list_columns() {
    let table = flatten(&two_layers(), false).unwrap();
    for id in catalog(true) {
        assert_eq!(table.has(id), !id.is_list());
    }
    assert!(!table.has(ColumnId::FansNum));
    assert!(table.column(ColumnId::ExternalAxes).is_none());
}

#[test]
fn list_columns_follow_each_point() {
    let mut doc = two_layers();
    {
        let p = &mut doc.groups[0].segments[0].points[1];
        p.fans = vec![FanData { num: 1, speed: d(50.0) }, FanData { num: 2, speed: d(75.0) }];
        p.user_events = vec![EventData { num: 4 }];
        p.external_axes = vec![d(0.5), d(1.5), d(2.5)];
    }
    doc.groups[1].segments[0].points[2].user_events =
        vec![EventData { num: 9 }, EventData { num: 8 }];
    let table = flatten(&doc, true).unwrap();
    assert_eq!(table.height(), 5);
    match table.column(ColumnId::FansNum) {
        Some(ColumnData::Int32List(cells)) => {
            assert_eq!(cells, &vec![vec![], vec![1, 2], vec![], vec![], vec![]]);
        },
        other => panic!("fans.num: {:?}", other),
    }
    match table.column(ColumnId::FansSpeed) {
        Some(ColumnData::Float64List(cells)) => {
            assert_eq!(cells, &vec![vec![], vec![d(50.0), d(75.0)], vec![], vec![], vec![]]);
        },
        other => panic!("fans.speed: {:?}", other),
    }
    match table.column(ColumnId::UserEventsNum) {
        Some(ColumnData::Int32List(cells)) => {
            assert_eq!(cells, &vec![vec![], vec![4], vec![], vec![], vec![9, 8]]);
        },
        other => panic!("userEvents.num: {:?}", other),
    }
    match table.column(ColumnId::ExternalAxes) {
        Some(ColumnData::Float64List(cells)) => {
            assert_eq!(cells, &vec![vec![], vec![d(0.5), d(1.5), d(2.5)], vec![], vec![], vec![]]);
        },
        other => panic!("externalAxes: {:?}", other),
    }
}

#[test]
fn empty_document_flattens_to_empty_table() {
    let doc = Document { parameters: vec![], groups: vec![] };
    let table = flatten(&doc, true).unwrap();
    assert_eq!(table.height(), 0);
    for id in catalog(true) {
        assert_eq!(table.column(id).unwrap().len(), 0);
        assert_eq!(table.column(id).unwrap().kind(), Some(id.kind()));
    }
}

#[test]
fn layers_without_points_give_no_rows() {
    let doc = Document {
        parameters: vec![],
        groups: vec![
            Group { layer_index: 4, segments: vec![] },
            Group { layer_index: 5, segments: vec![segment(1, vec![]), segment(2, vec![])] },
        ],
    };
    assert_eq!(document_rows(&doc).unwrap().len(), 0);
    assert_eq!(flatten(&doc, false).unwrap().height(), 0);
}

#[test]
fn document_rows_follow_the_walk() {
    let rows = document_rows(&two_layers()).unwrap();
    assert_eq!(rows.len(), 5);
    assert_eq!(rows[0].position_x, d(1.0));
    assert_eq!(rows[2].position_x, d(3.0));
    assert_eq!(rows[2].layer_index, 1);
    assert_eq!(rows[2].segment_id, 1);
    assert_eq!(rows[4].segment_type, 2);
}

#[test]
fn point_row_takes_settings_from_the_segment() {
    let seg = segment(6, vec![]);
    let mut p = point(1.0);
    p.orientation = None;
    p.fans = vec![FanData { num: 3, speed: d(10.0) }];
    let row = point_row(12, 34, &seg, &p);
    assert_eq!(row.layer_index, 12);
    assert_eq!(row.segment_id, 34);
    assert_eq!(row.segment_type, 6);
    assert_eq!(row.speed_tcp, 106);
    assert_eq!(row.start_delay, s(1.5));
    assert_eq!(row.orientation_w.to_bits(), NAN_BITS);
    assert_eq!(row.position_y, d(1.25));
    assert_eq!(row.fans_num, vec![3]);
    assert_eq!(row.fans_speed, vec![d(10.0)]);
    assert_eq!(row.int_cell(ColumnId::LayerIndex), 12);
    assert_eq!(row.double_cell(ColumnId::PositionZ), d(1.5));
    assert_eq!(row.single_cell(ColumnId::ProcessOnDelay), s(0.5));
    assert_eq!(row.int_list(ColumnId::FansNum), vec![3]);
    assert_eq!(row.double_list(ColumnId::FansSpeed), vec![d(10.0)]);
}

#[test]
fn absent_vectors_read_as_markers() {
    let v = vector_or_nan(None);
    assert!(v.x.is_nan() && v.y.is_nan() && v.z.is_nan());
    let q = quaternion_or_nan(None);
    assert!(q.x.is_nan() && q.y.is_nan() && q.z.is_nan() && q.w.is_nan());
    let given = Vector3D { x: d(1.0), y: d(2.0), z: d(3.0) };
    assert_eq!(vector_or_nan(Some(given)), given);
    let turn = Quaternion { x: d(0.0), y: d(1.0), z: d(0.0), w: d(0.0) };
    assert_eq!(quaternion_or_nan(Some(turn)), turn);
}

#[test]
fn marker_is_a_quiet_nan() {
    assert_eq!(Double::nan().to_bits(), 0x7ff8_0000_0000_0000);
    assert!(Double::nan().is_nan());
    assert!(f64::from_bits(NAN_BITS).is_nan());
    assert!(!d(0.0).is_nan());
    assert!(!d(f64::INFINITY).is_nan());
    assert!(!d(f64::NEG_INFINITY).is_nan());
    assert!(d(f64::NAN).is_nan());
    assert!(d(-f64::NAN).is_nan());
    assert!(!d(1.0e300).is_nan());
    assert_eq!(Double::zero(), d(0.0));
    assert_eq!(Single::zero(), s(0.0));
}

#[test]
fn null_cells_read_as_defaults() {
    assert_eq!(int_or_zero(None), 0);
    assert_eq!(int_or_zero(Some(-3)), -3);
    assert_eq!(Single::or_zero(None), s(0.0));
    assert_eq!(Single::or_zero(Some(s(2.5))), s(2.5));
    assert!(Double::or_nan(None).is_nan());
    assert_eq!(Double::or_nan(Some(d(2.5))), d(2.5));
}

#[test]
fn catalog_lists_columns_in_table_order() {
    let names: Vec<&str> = catalog(true).into_iter().map(|id| id.name()).collect();
    assert_eq!(
        names,
        vec![
            "position.x",
            "position.y",
            "position.z",
            "direction.x",
            "direction.y",
            "direction.z",
            "orientation.x",
            "orientation.y",
            "orientation.z",
            "orientation.w",
            "deposition",
            "speed",
            "speedTCP",
            "type",
            "layerIndex",
            "processOnDelay",
            "processOffDelay",
            "startDelay",
            "equipmentID",
            "toolID",
            "materialID",
            "segmentID",
            "fans.num",
            "fans.speed",
            "userEvents.num",
            "externalAxes",
        ]
    );
    assert_eq!(catalog(true).len(), COLUMN_COUNT);
    assert_eq!(catalog(false).len(), SCALAR_COLUMN_COUNT);
    assert_eq!(catalog(false), catalog(true)[..SCALAR_COLUMN_COUNT].to_vec());
}

#[test]
fn catalog_gives_each_column_its_kind() {
    assert_eq!(ColumnId::PositionX.kind(), ColumnKind::Float64);
    assert_eq!(ColumnId::Speed.kind(), ColumnKind::Float64);
    assert_eq!(ColumnId::SpeedTcp.kind(), ColumnKind::Int32);
    assert_eq!(ColumnId::SegmentType.kind(), ColumnKind::Int32);
    assert_eq!(ColumnId::LayerIndex.kind(), ColumnKind::Int32);
    assert_eq!(ColumnId::SegmentId.kind(), ColumnKind::Int32);
    assert_eq!(ColumnId::ProcessOnDelay.kind(), ColumnKind::Float32);
    assert_eq!(ColumnId::ProcessOffDelay.kind(), ColumnKind::Float32);
    assert_eq!(ColumnId::StartDelay.kind(), ColumnKind::Float32);
    assert_eq!(ColumnId::FansNum.kind(), ColumnKind::Int32List);
    assert_eq!(ColumnId::UserEventsNum.kind(), ColumnKind::Int32List);
    assert_eq!(ColumnId::FansSpeed.kind(), ColumnKind::Float64List);
    assert_eq!(ColumnId::ExternalAxes.kind(), ColumnKind::Float64List);
}

#[test]
fn catalog_places_and_columns_name_each_other() {
    for (i, id) in catalog(true).into_iter().enumerate() {
        assert_eq!(id.index(), i);
        assert_eq!(ColumnId::at(i), Some(id));
        assert_eq!(id.is_list(), i >= SCALAR_COLUMN_COUNT);
    }
    assert_eq!(ColumnId::at(COLUMN_COUNT), None);
    assert_eq!(ColumnId::at(usize::MAX), None);
}

#[test]
fn catalog_names_are_distinct() {
    let ids = catalog(true);
    for a in &ids {
        for b in &ids {
            assert_eq!(a.name() == b.name(), a == b);
        }
    }
}
