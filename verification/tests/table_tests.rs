use toolpath_table::catalog::{catalog, ColumnId, ColumnKind};
use toolpath_table::flatten::{column_of, table_of_rows};
use toolpath_table::row::{copy_doubles, copy_ints, Row};
use toolpath_table::scalar::{Double, Single};
use toolpath_table::table::{ColumnData, Table};

fn d(x: f64) -> Double {
    Double::from_bits(x.to_bits())
}

fn s(x: f32) -> Single {
    Single::from_bits(x.to_bits())
}

fn row(i: i32) -> Row {
    Row {
        position_x: d(i as f64),
        position_y: d(0.0),
        position_z: d(0.0),
        direction_x: d(0.0),
        direction_y: d(0.0),
        direction_z: d(0.0),
        orientation_x: d(0.0),
        orientation_y: d(0.0),
        orientation_z: d(0.0),
        orientation_w: d(1.0),
        deposition: d(0.0),
        speed: d(0.0),
        speed_tcp: 10 * i,
        segment_type: 0,
        layer_index: i,
        process_on_delay: s(i as f32),
        process_off_delay: s(0.0),
        start_delay: s(0.0),
        equipment_id: 0,
        tool_id: 0,
        material_id: 0,
        segment_id: i,
        fans_num: vec![i, i + 1],
        fans_speed: vec![d(0.5)],
        user_events_num: vec![],
        external_axes: vec![d(1.0), d(2.0)],
    }
}

#[test]
fn new_table_has_no_columns() {
    let table = Table::new(3);
    assert_eq!(table.height(), 3);
    for id in catalog(true) {
        assert!(!table.has(id));
        assert!(table.column(id).is_none());
    }
}

#[test]
fn set_puts_a_column_of_the_right_length() {
    let mut table = Table::new(2);
    assert!(table.set(ColumnId::LayerIndex, ColumnData::Int32(vec![Some(1), None])));
    assert!(table.has(ColumnId::LayerIndex));
    assert_eq!(table.column(ColumnId::LayerIndex), Some(&ColumnData::Int32(vec![Some(1), None])));
    assert!(table.set(ColumnId::LayerIndex, ColumnData::Int32(vec![Some(2), Some(3)])));
    assert_eq!(
        table.column(ColumnId::LayerIndex),
        Some(&ColumnData::Int32(vec![Some(2), Some(3)]))
    );
    assert!(!table.has(ColumnId::SegmentId));
}

#[test]
fn set_refuses_a_column_of_another_length() {
    let mut table = Table::new(2);
    assert!(table.set(ColumnId::LayerIndex, ColumnData::Int32(vec![Some(1), None])));
    assert!(!table.set(ColumnId::LayerIndex, ColumnData::Int32(vec![Some(1)])));
    assert!(!table.set(ColumnId::SegmentId, ColumnData::Int32(vec![])));
    assert!(!table.set(ColumnId::Speed, ColumnData::Unsupported(3)));
    assert_eq!(table.column(ColumnId::LayerIndex), Some(&ColumnData::Int32(vec![Some(1), None])));
    assert!(!table.has(ColumnId::SegmentId));
    assert!(!table.has(ColumnId::Speed));
    assert_eq!(table.height(), 2);
}

#[test]
fn remove_takes_a_column_out() {
    let mut table = Table::new(1);
    assert!(table.set(ColumnId::Speed, ColumnData::Float64(vec![Some(d(1.0))])));
    assert!(table.set(ColumnId::ToolId, ColumnData::Int32(vec![Some(1)])));
    assert!(table.remove(ColumnId::Speed));
    assert!(!table.remove(ColumnId::Speed));
    assert!(!table.has(ColumnId::Speed));
    assert!(table.has(ColumnId::ToolId));
    assert_eq!(table.height(), 1);
}

#[test]
fn cells_are_null_outside_the_table() {
    let mut table = Table::new(2);
    assert!(table.set(ColumnId::LayerIndex, ColumnData::Int32(vec![Some(4), None])));
    assert!(table.set(ColumnId::StartDelay, ColumnData::Float32(vec![Some(s(1.5)), None])));
    assert!(table.set(ColumnId::Speed, ColumnData::Float64(vec![None, Some(d(2.5))])));
    assert_eq!(table.int_cell(ColumnId::LayerIndex, 0), Some(4));
    assert_eq!(table.int_cell(ColumnId::LayerIndex, 1), None);
    assert_eq!(table.int_cell(ColumnId::LayerIndex, 2), None);
    assert_eq!(table.int_cell(ColumnId::LayerIndex, u64::MAX), None);
    assert_eq!(table.int_cell(ColumnId::SegmentId, 0), None);
    assert_eq!(table.int_cell(ColumnId::Speed, 1), None);
    assert_eq!(table.single_cell(ColumnId::StartDelay, 0), Some(s(1.5)));
    assert_eq!(table.single_cell(ColumnId::StartDelay, 1), None);
    assert_eq!(table.single_cell(ColumnId::Speed, 1), None);
    assert_eq!(table.double_cell(ColumnId::Speed, 1), Some(d(2.5)));
    assert_eq!(table.double_cell(ColumnId::Speed, 0), None);
    assert_eq!(table.double_cell(ColumnId::Speed, 2), None);
    assert_eq!(table.double_cell(ColumnId::LayerIndex, 0), None);
}

#[test]
fn column_data_knows_its_length_and_kind() {
    assert_eq!(ColumnData::Int32(vec![None; 3]).len(), 3);
    assert_eq!(ColumnData::Float32(vec![None; 2]).len(), 2);
    assert_eq!(ColumnData::Float64(vec![]).len(), 0);
    assert_eq!(ColumnData::Int32List(vec![vec![1, 2], vec![]]).len(), 2);
    assert_eq!(ColumnData::Float64List(vec![vec![d(1.0)]]).len(), 1);
    assert_eq!(ColumnData::Unsupported(7).len(), 7);
    assert_eq!(ColumnData::Int32(vec![]).kind(), Some(ColumnKind::Int32));
    assert_eq!(ColumnData::Float32(vec![]).kind(), Some(ColumnKind::Float32));
    assert_eq!(ColumnData::Float64(vec![]).kind(), Some(ColumnKind::Float64));
    assert_eq!(ColumnData::Int32List(vec![]).kind(), Some(ColumnKind::Int32List));
    assert_eq!(ColumnData::Float64List(vec![]).kind(), Some(ColumnKind::Float64List));
    assert_eq!(ColumnData::Unsupported(0).kind(), None);
}

#[test]
fn table_of_rows_gathers_each_column() {
    let rows = vec![row(1), row(2), row(3)];
    let table = table_of_rows(&rows, true);
    assert_eq!(table.height(), 3);
    assert_eq!(
        table.column(ColumnId::LayerIndex),
        Some(&ColumnData::Int32(vec![Some(1), Some(2), Some(3)]))
    );
    assert_eq!(
        table.column(ColumnId::SpeedTcp),
        Some(&ColumnData::Int32(vec![Some(10), Some(20), Some(30)]))
    );
    assert_eq!(
        table.column(ColumnId::ProcessOnDelay),
        Some(&ColumnData::Float32(vec![Some(s(1.0)), Some(s(2.0)), Some(s(3.0))]))
    );
    assert_eq!(
        table.column(ColumnId::PositionX),
        Some(&ColumnData::Float64(vec![Some(d(1.0)), Some(d(2.0)), Some(d(3.0))]))
    );
    assert_eq!(
        table.column(ColumnId::FansNum),
        Some(&ColumnData::Int32List(vec![vec![1, 2], vec![2, 3], vec![3, 4]]))
    );
    assert_eq!(
        table.column(ColumnId::ExternalAxes),
        Some(&ColumnData::Float64List(vec![vec![d(1.0), d(2.0)]; 3]))
    );
    assert_eq!(column_of(&rows, ColumnId::UserEventsNum), ColumnData::Int32List(vec![vec![]; 3]));
    assert_eq!(column_of(&rows, ColumnId::FansSpeed), ColumnData::Float64List(vec![vec![d(0.5)]; 3]));
    let scalars = table_of_rows(&rows, false);
    assert!(scalars.has(ColumnId::SegmentId));
    assert!(!scalars.has(ColumnId::FansNum));
}

#[test]
fn copies_are_equal_to_what_they_copy() {
    assert_eq!(copy_ints(&vec![3, 1, 2]), vec![3, 1, 2]);
    assert_eq!(copy_ints(&vec![]), Vec::<i32>::new());
    assert_eq!(copy_doubles(&vec![d(1.0), Double::nan()]), vec![d(1.0), Double::nan()]);
}
