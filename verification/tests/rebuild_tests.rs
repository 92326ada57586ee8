use toolpath_table::catalog::{catalog, ColumnId};
use toolpath_table::error::RebuildError;
use toolpath_table::flatten::{flatten, table_of_rows};
use toolpath_table::partition::ROW_LIMIT;
use toolpath_table::rebuild::{
    assemble, column_fault, first_fault, group_of, point_of, rebuild, required_columns,
    segment_of, valid_grouping,
};
use toolpath_table::row::Row;
use toolpath_table::scalar::{Double, Single};
use toolpath_table::schema::{
    Document, EventData, FanData, Group, Parameters, Point, Quaternion, Segment, Vector3D,
};
use toolpath_table::table::{ColumnData, Table};

fn d(x: f64) -> Double {
    Double::from_bits(x.to_bits())
}

fn s(x: f32) -> Single {
    Single::from_bits(x.to_bits())
}

fn same(a: Double, b: Double) -> bool {
    (a.is_nan() && b.is_nan()) || a == b
}

fn point(x: f64) -> Point {
    Point {
        position: Some(Vector3D { x: d(x), y: d(x + 0.25), z: d(x + 0.5) }),
        direction: Some(Vector3D { x: d(0.0), y: d(0.0), z: d(1.0) }),
        orientation: Some(Quaternion { x: d(0.0), y: d(0.0), z: d(0.0), w: d(1.0) }),
        external_axes: vec![],
        deposition: d(x * 2.0),
        speed: d(x * 3.0),
        fans: vec![],
        user_events: vec![],
    }
}

fn segment(kind: i32, points: Vec<Point>) -> Segment {
    Segment {
        points,
        process_on: false,
        segment_type: kind,
        process_on_delay: s(0.5),
        process_off_delay: s(0.25),
        start_delay: s(1.5),
        end_delay: s(0.0),
        speed_tcp: 100 + kind,
        equipment_id: 7,
        tool_id: 8,
        material_id: 9,
    }
}

fn two_layers() -> Document {
    Document {
        parameters: vec![Parameters::zeroed()],
        groups: vec![
            Group { layer_index: 0, segments: vec![segment(1, vec![point(1.0), point(2.0)])] },
            Group {
                layer_index: 1,
                segments: vec![segment(2, vec![point(3.0), point(4.0), point(5.0)])],
            },
        ],
    }
}

fn row(layer_index: i32, segment_id: i32, x: f64) -> Row {
    Row {
        position_x: d(x),
        position_y: d(x + 0.25),
        position_z: d(x + 0.5),
        direction_x: d(0.0),
        direction_y: d(0.0),
        direction_z: d(1.0),
        orientation_x: d(0.0),
        orientation_y: d(0.0),
        orientation_z: d(0.0),
        orientation_w: d(1.0),
        deposition: d(x * 2.0),
        speed: d(x * 3.0),
        speed_tcp: 100 + segment_id,
        segment_type: segment_id,
        layer_index,
        process_on_delay: s(0.5),
        process_off_delay: s(0.25),
        start_delay: s(1.5),
        equipment_id: 7,
        tool_id: 8,
        material_id: 9,
        segment_id,
        fans_num: vec![],
        fans_speed: vec![],
        user_events_num: vec![],
        external_axes: vec![],
    }
}

fn table_of(rows: &[(i32, i32, f64)]) -> Table {
    let rows: Vec<Row> = rows.iter().map(|(l, g, x)| row(*l, *g, *x)).collect();
    table_of_rows(&rows, false)
}

fn shape(doc: &Document) -> Vec<(i32, Vec<Vec<f64>>)> {
    doc.groups
        .iter()
        .map(|g| {
            let segments = g
                .segments
                .iter()
                .map(|seg| {
                    seg.points
                        .iter()
                        .map(|p| f64::from_bits(p.position.unwrap().x.to_bits()))
                        .collect()
                })
                .collect();
            (g.layer_index, segments)
        })
        .collect()
}

#[test]
fn round_trip_keeps_layers_and_segments() {
    let doc = two_layers();
    let table = flatten(&doc, false).unwrap();
    let rebuilt = rebuild(&table).unwrap();
    assert_eq!(rebuilt.groups.len(), 2);
    assert_eq!(rebuilt.groups[0].layer_index, 0);
    assert_eq!(rebuilt.groups[1].layer_index, 1);
    assert_eq!(rebuilt.groups[0].segments.len(), 1);
    assert_eq!(rebuilt.groups[1].segments.len(), 1);
    assert_eq!(rebuilt.groups[0].segments[0].points.len(), 2);
    assert_eq!(rebuilt.groups[1].segments[0].points.len(), 3);
    assert_eq!(rebuilt, doc);
}

#[test]
fn round_trip_with_list_columns_drops_the_lists() {
    let mut doc = two_layers();
    doc.groups[0].segments[0].points[0].fans = vec![FanData { num: 1, speed: d(20.0) }];
    doc.groups[0].segments[0].points[0].user_events = vec![EventData { num: 2 }];
    doc.groups[0].segments[0].points[0].external_axes = vec![d(1.0)];
    let table = flatten(&doc, true).unwrap();
    let rebuilt = rebuild(&table).unwrap();
    assert_eq!(rebuilt, two_layers());
}

#[test]
fn rebuild_yields_nan_where_orientation_was_absent() {
    let mut doc = two_layers();
    doc.groups[1].segments[0].points[1].orientation = None;
    let table = flatten(&doc, false).unwrap();
    let rebuilt = rebuild(&table).unwrap();
    let q = rebuilt.groups[1].segments[0].points[1].orientation.unwrap();
    assert!(q.x.is_nan() && q.y.is_nan() && q.z.is_nan() && q.w.is_nan());
    let nan = Quaternion { x: Double::nan(), y: Double::nan(), z: Double::nan(), w: Double::nan() };
    assert!(same(q.x, nan.x) && same(q.y, nan.y) && same(q.z, nan.z) && same(q.w, nan.w));
    let other = rebuilt.groups[1].segments[0].points[0].orientation.unwrap();
    assert_eq!(other, Quaternion { x: d(0.0), y: d(0.0), z: d(0.0), w: d(1.0) });
    assert!(rebuilt.groups[1].segments[0].points[1].position.is_some());
}

#[test]
fn rebuild_never_gives_an_absent_vector() {
    let mut doc = two_layers();
    doc.groups[0].segments[0].points[0].position = None;
    doc.groups[0].segments[0].points[0].direction = None;
    doc.groups[0].segments[0].points[0].orientation = None;
    let rebuilt = rebuild(&flatten(&doc, false).unwrap()).unwrap();
    let p = &rebuilt.groups[0].segments[0].points[0];
    let position = p.position.unwrap();
    let direction = p.direction.unwrap();
    assert!(position.x.is_nan() && position.y.is_nan() && position.z.is_nan());
    assert!(direction.x.is_nan() && direction.y.is_nan() && direction.z.is_nan());
    assert!(p.orientation.unwrap().w.is_nan());
}

#[test]
fn rows_of_one_layer_merge_across_other_rows() {
    let table = table_of(&[
        (0, 0, 1.0),
        (0, 0, 2.0),
        (1, 1, 3.0),
        (1, 1, 4.0),
        (0, 0, 5.0),
        (0, 2, 6.0),
        (1, 1, 7.0),
    ]);
    let rebuilt = rebuild(&table).unwrap();
    assert_eq!(
        shape(&rebuilt),
        vec![(0, vec![vec![1.0, 2.0, 5.0], vec![6.0]]), (1, vec![vec![3.0, 4.0, 7.0]])]
    );
}

#[test]
fn layers_come_in_the_order_of_first_occurrence() {
    let table = table_of(&[
        (7, 0, 1.0),
        (2, 1, 2.0),
        (9, 2, 3.0),
        (2, 1, 4.0),
        (7, 3, 5.0),
        (9, 2, 6.0),
        (-1, 4, 7.0),
    ]);
    let rebuilt = rebuild(&table).unwrap();
    assert_eq!(
        shape(&rebuilt),
        vec![
            (7, vec![vec![1.0], vec![5.0]]),
            (2, vec![vec![2.0, 4.0]]),
            (9, vec![vec![3.0, 6.0]]),
            (-1, vec![vec![7.0]]),
        ]
    );
    let mut indices: Vec<i32> = rebuilt.groups.iter().map(|g| g.layer_index).collect();
    indices.sort();
    indices.dedup();
    assert_eq!(indices.len(), rebuilt.groups.len());
}

#[test]
fn segments_come_in_the_order_of_first_occurrence_within_a_layer() {
    let table = table_of(&[
        (0, 5, 1.0),
        (0, 3, 2.0),
        (0, 5, 3.0),
        (0, 4, 4.0),
        (0, 3, 5.0),
    ]);
    let rebuilt = rebuild(&table).unwrap();
    assert_eq!(shape(&rebuilt), vec![(0, vec![vec![1.0, 3.0], vec![2.0, 5.0], vec![4.0]])]);
    let kinds: Vec<i32> = rebuilt.groups[0].segments.iter().map(|seg| seg.segment_type).collect();
    assert_eq!(kinds, vec![5, 3, 4]);
}

#[test]
fn one_segment_number_in_two_layers_gives_two_segments() {
    let table = table_of(&[(0, 0, 1.0), (1, 0, 2.0), (0, 0, 3.0)]);
    let rebuilt = rebuild(&table).unwrap();
    assert_eq!(shape(&rebuilt), vec![(0, vec![vec![1.0, 3.0]]), (1, vec![vec![2.0]])]);
}

#[test]
fn large_table_keeps_first_seen_order() {
    let mut rows: Vec<(i32, i32, f64)> = Vec::new();
    for i in 0..5000 {
        let layer = 40 - (i % 41);
        let seg = (i % 7) * 1000 + layer;
        rows.push((layer, seg, i as f64));
    }
    let table = table_of(&rows);
    let rebuilt = rebuild(&table).unwrap();
    assert_eq!(rebuilt.groups.len(), 41);
    let mut total = 0;
    for (g, group) in rebuilt.groups.iter().enumerate() {
        assert_eq!(group.layer_index, 40 - g as i32);
        assert_eq!(group.segments.len(), 7);
        let mut first_rows: Vec<f64> = Vec::new();
        for seg in &group.segments {
            let xs: Vec<f64> =
                seg.points.iter().map(|p| f64::from_bits(p.position.unwrap().x.to_bits())).collect();
            assert!(xs.windows(2).all(|w| w[0] < w[1]));
            for x in &xs {
                let i = *x as i32;
                assert_eq!(40 - (i % 41), group.layer_index);
                assert_eq!((i % 7) * 1000 + group.layer_index, seg.segment_type);
            }
            first_rows.push(xs[0]);
            total += xs.len();
        }
        assert!(first_rows.windows(2).all(|w| w[0] < w[1]));
    }
    assert_eq!(total, 5000);
}

#[test]
fn rebuilt_segments_have_process_off_and_no_end_delay() {
    let mut doc = two_layers();
    for group in doc.groups.iter_mut() {
        for seg in group.segments.iter_mut() {
            seg.process_on = true;
            seg.end_delay = s(4.5);
        }
    }
    let rebuilt = rebuild(&flatten(&doc, true).unwrap()).unwrap();
    for group in &rebuilt.groups {
        for seg in &group.segments {
            assert!(!seg.process_on);
            assert_eq!(seg.end_delay, s(0.0));
            assert_eq!(seg.end_delay.to_bits(), 0);
        }
    }
}

#[test]
fn rebuilt_document_has_zeroed_parameters() {
    let mut doc = two_layers();
    doc.parameters = vec![Parameters {
        deposition_width: d(1.0),
        layer_height: d(2.0),
        path_planning_strategy: 3,
        posi_axis1_val: d(4.0),
        posi_axis2_val: d(5.0),
        posi_axis1_dynamic: true,
        posi_axis2_dynamic: true,
    }];
    let rebuilt = rebuild(&flatten(&doc, false).unwrap()).unwrap();
    assert_eq!(rebuilt.parameters, vec![Parameters::zeroed()]);
    assert_eq!(rebuilt.parameters[0].deposition_width, d(0.0));
    assert!(!rebuilt.parameters[0].posi_axis1_dynamic);
}

#[test]
fn table_without_layer_index_is_refused() {
    let mut table = flatten(&two_layers(), false).unwrap();
    assert!(table.remove(ColumnId::LayerIndex));
    let err = rebuild(&table).unwrap_err();
    assert_eq!(err, RebuildError::MissingColumn(ColumnId::LayerIndex));
    assert!(err.is_schema());
    assert_eq!(err.column().unwrap().name(), "layerIndex");
}

#[test]
fn empty_table_without_layer_index_is_refused() {
    let table = Table::new(0);
    assert_eq!(rebuild(&table), Err(RebuildError::MissingColumn(ColumnId::LayerIndex)));
}

#[test]
fn empty_table_rebuilds_to_empty_document() {
    let mut table = Table::new(0);
    assert!(table.set(ColumnId::LayerIndex, ColumnData::Int32(vec![])));
    let rebuilt = rebuild(&table).unwrap();
    assert_eq!(rebuilt.groups.len(), 0);
    assert_eq!(rebuilt.parameters, vec![Parameters::zeroed()]);
    let from_flatten = flatten(&Document { parameters: vec![], groups: vec![] }, true).unwrap();
    assert_eq!(rebuild(&from_flatten).unwrap().groups.len(), 0);
}

#[test]
fn table_without_segment_numbers_has_one_segment_per_layer() {
    let mut table = table_of(&[(0, 0, 1.0), (1, 1, 2.0), (0, 2, 3.0), (1, 3, 4.0)]);
    assert!(table.remove(ColumnId::SegmentId));
    let rebuilt = rebuild(&table).unwrap();
    assert_eq!(shape(&rebuilt), vec![(0, vec![vec![1.0, 3.0]]), (1, vec![vec![2.0, 4.0]])]);
}

#[test]
fn missing_column_is_named() {
    for id in required_columns() {
        let mut table = flatten(&two_layers(), false).unwrap();
        assert!(table.remove(id));
        let err = rebuild(&table).unwrap_err();
        assert_eq!(err, RebuildError::MissingColumn(id));
        assert_eq!(err.column(), Some(id));
        assert!(err.is_schema());
    }
}

#[test]
fn first_missing_column_is_the_one_named() {
    let mut table = flatten(&two_layers(), false).unwrap();
    table.remove(ColumnId::Speed);
    table.remove(ColumnId::ToolId);
    table.remove(ColumnId::SegmentType);
    assert_eq!(rebuild(&table), Err(RebuildError::MissingColumn(ColumnId::SegmentType)));
    assert_eq!(first_fault(&table), Some(RebuildError::MissingColumn(ColumnId::SegmentType)));
    let mut table = flatten(&two_layers(), false).unwrap();
    table.remove(ColumnId::Speed);
    table.remove(ColumnId::ToolId);
    assert_eq!(rebuild(&table), Err(RebuildError::MissingColumn(ColumnId::ToolId)));
}

#[test]
fn column_of_another_kind_is_refused() {
    let mut table = flatten(&two_layers(), false).unwrap();
    assert!(table.set(ColumnId::LayerIndex, ColumnData::Unsupported(5)));
    assert_eq!(rebuild(&table), Err(RebuildError::WrongKind(ColumnId::LayerIndex)));

    let mut table = flatten(&two_layers(), false).unwrap();
    assert!(table.set(ColumnId::SegmentId, ColumnData::Float64(vec![Some(d(0.0)); 5])));
    assert_eq!(rebuild(&table), Err(RebuildError::WrongKind(ColumnId::SegmentId)));

    let mut table = flatten(&two_layers(), false).unwrap();
    assert!(table.set(ColumnId::PositionX, ColumnData::Float32(vec![Some(s(0.0)); 5])));
    let err = rebuild(&table).unwrap_err();
    assert_eq!(err, RebuildError::WrongKind(ColumnId::PositionX));
    assert!(err.is_schema());
    assert_eq!(err.column().unwrap().name(), "position.x");

    let mut table = flatten(&two_layers(), false).unwrap();
    assert!(table.set(ColumnId::StartDelay, ColumnData::Float64(vec![Some(d(0.0)); 5])));
    assert_eq!(rebuild(&table), Err(RebuildError::WrongKind(ColumnId::StartDelay)));
    assert_eq!(
        column_fault(&table, ColumnId::StartDelay),
        Some(RebuildError::WrongKind(ColumnId::StartDelay))
    );
    assert_eq!(column_fault(&table, ColumnId::PositionX), None);
    assert_eq!(
        column_fault(&table, ColumnId::FansNum),
        Some(RebuildError::MissingColumn(ColumnId::FansNum))
    );
}

#[test]
fn empty_table_is_not_asked_for_the_other_columns() {
    let mut table = Table::new(0);
    assert!(table.set(ColumnId::LayerIndex, ColumnData::Unsupported(0)));
    assert_eq!(rebuild(&table).unwrap().groups.len(), 0);
}

#[test]
fn null_cells_rebuild_to_defaults() {
    let mut table = table_of(&[(3, 0, 1.0), (3, 0, 2.0)]);
    assert!(table.set(ColumnId::SegmentType, ColumnData::Int32(vec![None, Some(5)])));
    assert!(table.set(ColumnId::StartDelay, ColumnData::Float32(vec![None, Some(s(9.0))])));
    assert!(table.set(ColumnId::PositionX, ColumnData::Float64(vec![Some(d(1.0)), None])));
    assert!(table.set(ColumnId::Speed, ColumnData::Float64(vec![None, Some(d(8.0))])));
    let rebuilt = rebuild(&table).unwrap();
    let seg = &rebuilt.groups[0].segments[0];
    assert_eq!(seg.segment_type, 0);
    assert_eq!(seg.start_delay, s(0.0));
    assert_eq!(seg.process_on_delay, s(0.5));
    assert_eq!(seg.points[0].position.unwrap().x, d(1.0));
    assert!(seg.points[1].position.unwrap().x.is_nan());
    assert_eq!(seg.points[1].position.unwrap().y, d(2.25));
    assert!(seg.points[0].speed.is_nan());
    assert_eq!(seg.points[1].speed, d(8.0));
}

#[test]
fn null_layer_index_is_a_layer_of_its_own_with_index_zero() {
    let mut table = table_of(&[(0, 0, 1.0), (0, 1, 2.0), (0, 2, 3.0), (0, 3, 4.0)]);
    assert!(table.set(
        ColumnId::LayerIndex,
        ColumnData::Int32(vec![None, Some(0), None, Some(0)])
    ));
    let rebuilt = rebuild(&table).unwrap();
    assert_eq!(
        shape(&rebuilt),
        vec![(0, vec![vec![1.0], vec![3.0]]), (0, vec![vec![2.0], vec![4.0]])]
    );
}

#[test]
fn null_segment_number_is_a_segment_of_its_own() {
    let mut table = table_of(&[(0, 0, 1.0), (0, 0, 2.0), (0, 0, 3.0)]);
    assert!(table.set(ColumnId::SegmentId, ColumnData::Int32(vec![Some(4), None, Some(4)])));
    let rebuilt = rebuild(&table).unwrap();
    assert_eq!(shape(&rebuilt), vec![(0, vec![vec![1.0, 3.0], vec![2.0]])]);
}

#[test]
fn segment_settings_come_from_the_first_row() {
    let mut table = table_of(&[(0, 0, 1.0), (0, 0, 2.0), (0, 0, 3.0)]);
    assert!(table.set(
        ColumnId::EquipmentId,
        ColumnData::Int32(vec![Some(11), Some(12), Some(13)])
    ));
    let rebuilt = rebuild(&table).unwrap();
    assert_eq!(rebuilt.groups[0].segments[0].equipment_id, 11);
    assert_eq!(rebuilt.groups[0].segments[0].points.len(), 3);
}

#[test]
fn assemble_follows_the_given_grouping() {
    let table = table_of(&[(0, 0, 1.0), (1, 1, 2.0), (2, 2, 3.0), (3, 3, 4.0)]);
    let doc = assemble(&table, &vec![vec![vec![3, 1], vec![0]], vec![vec![2, 2]]]).unwrap();
    assert_eq!(
        shape(&doc),
        vec![(3, vec![vec![4.0, 2.0], vec![1.0]]), (2, vec![vec![3.0, 3.0]])]
    );
    assert_eq!(doc.groups[0].segments[0].segment_type, 3);
    assert_eq!(doc.groups[0].segments[1].speed_tcp, 100);
    assert_eq!(doc.parameters, vec![Parameters::zeroed()]);
}

#[test]
fn assemble_refuses_a_grouping_it_cannot_follow() {
    let table = table_of(&[(0, 0, 1.0), (1, 1, 2.0)]);
    assert_eq!(assemble(&table, &vec![vec![vec![0, 2]]]), Err(RebuildError::InvalidGrouping));
    assert_eq!(assemble(&table, &vec![vec![vec![0], vec![]]]), Err(RebuildError::InvalidGrouping));
    assert_eq!(assemble(&table, &vec![vec![vec![0]], vec![]]), Err(RebuildError::InvalidGrouping));
    assert_eq!(RebuildError::InvalidGrouping.column(), None);
    assert!(!RebuildError::InvalidGrouping.is_schema());
    assert!(!RebuildError::Grouping(ColumnId::LayerIndex).is_schema());
    assert_eq!(RebuildError::Grouping(ColumnId::SegmentId).column(), Some(ColumnId::SegmentId));
    assert!(valid_grouping(&vec![vec![vec![0, 1]]], 2));
    assert!(!valid_grouping(&vec![vec![vec![0, 1]]], 1));
    assert!(valid_grouping(&vec![], 0));
}

#[test]
fn assemble_names_a_fault_before_it_looks_at_the_grouping() {
    let mut table = table_of(&[(0, 0, 1.0)]);
    table.remove(ColumnId::Deposition);
    assert_eq!(
        assemble(&table, &vec![vec![vec![5]]]),
        Err(RebuildError::MissingColumn(ColumnId::Deposition))
    );
    assert_eq!(assemble(&table, &vec![]).unwrap().groups.len(), 0);
}

#[test]
fn parts_of_the_assembly_read_the_table() {
    let table = table_of(&[(4, 0, 1.0), (5, 1, 2.0)]);
    let p = point_of(&table, 1);
    assert_eq!(p.position.unwrap().x, d(2.0));
    assert_eq!(p.deposition, d(4.0));
    assert!(p.fans.is_empty() && p.user_events.is_empty() && p.external_axes.is_empty());
    let beyond = point_of(&table, 2);
    assert!(beyond.position.unwrap().x.is_nan());
    let seg = segment_of(&table, &vec![1, 0]);
    assert_eq!(seg.segment_type, 1);
    assert_eq!(seg.points.len(), 2);
    assert_eq!(seg.points[1].position.unwrap().x, d(1.0));
    let group = group_of(&table, &vec![vec![1], vec![0]]);
    assert_eq!(group.layer_index, 5);
    assert_eq!(group.segments.len(), 2);
}

#[test]
fn required_columns_are_those_the_rebuild_reads() {
    let required = required_columns();
    assert_eq!(required.len(), 21);
    assert_eq!(required[0], ColumnId::LayerIndex);
    assert!(!required.contains(&ColumnId::SegmentId));
    for id in catalog(true) {
        if id.is_list() {
            assert!(!required.contains(&id));
        }
    }
    let table = flatten(&two_layers(), false).unwrap();
    assert_eq!(first_fault(&table), None);
}

#[test]
fn table_of_more_rows_than_can_be_numbered_is_refused() {
    assert_eq!(ROW_LIMIT, u32::MAX as usize);
    let mut table = Table::new(ROW_LIMIT);
    assert!(table.set(ColumnId::LayerIndex, ColumnData::Unsupported(ROW_LIMIT)));
    assert_eq!(rebuild(&table), Err(RebuildError::TooManyRows));
    assert!(!RebuildError::TooManyRows.is_schema());
    assert_eq!(RebuildError::TooManyRows.column(), None);

    let mut table = Table::new(ROW_LIMIT + 7);
    assert!(table.set(ColumnId::LayerIndex, ColumnData::Unsupported(ROW_LIMIT + 7)));
    assert_eq!(rebuild(&table), Err(RebuildError::TooManyRows));

    let mut table = Table::new(ROW_LIMIT - 1);
    assert!(table.set(ColumnId::LayerIndex, ColumnData::Unsupported(ROW_LIMIT - 1)));
    assert_eq!(rebuild(&table), Err(RebuildError::WrongKind(ColumnId::LayerIndex)));

    let table = Table::new(ROW_LIMIT);
    assert_eq!(rebuild(&table), Err(RebuildError::MissingColumn(ColumnId::LayerIndex)));
}
