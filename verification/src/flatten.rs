//! The flattener: one row per point, in the order of a walk through the
//! layers, their segments and the segments' points.

use vstd::prelude::*;
use crate::catalog::{catalog, spec_catalog, ColumnId, ColumnKind};
use crate::error::FlattenError;
use crate::flatten_laws::lemma_row_count;
use crate::row::{copy_doubles, rows_view, Row, RowView};
use crate::scalar::Double;
use crate::schema::{
    lemma_placed_segment_at, lemma_placed_segments_len, placed_segments, point_count, segment_count, segments_before, Document, DocumentView,
    EventData, FanData, PlacedSegment, Point, PointView, Quaternion, Segment, SegmentView,
    Vector3D,
};
use crate::table::{ColumnData, ColumnView, Table, TableView};

verus! {

/// The fan numbers of a point's fan settings.
pub open spec fn spec_fan_numbers(fans: Seq<FanData>) -> Seq<i32> {
    fans.map_values(|f: FanData| f.num)
}

/// The fan speeds of a point's fan settings.
pub open spec fn spec_fan_speeds(fans: Seq<FanData>) -> Seq<Double> {
    fans.map_values(|f: FanData| f.speed)
}

/// The numbers of a point's user events.
pub open spec fn spec_event_numbers(events: Seq<EventData>) -> Seq<i32> {
    events.map_values(|e: EventData| e.num)
}

/// The components of a vector that may be absent: those of the vector, or
/// the marker three times.
pub open spec fn spec_vector_or_nan(v: Option<Vector3D>) -> Vector3D {
    match v {
        Some(v) => v,
        None => Vector3D { x: Double::spec_nan(), y: Double::spec_nan(), z: Double::spec_nan() },
    }
}

/// The components of a quaternion that may be absent: those of the
/// quaternion, or the marker four times.
pub open spec fn spec_quaternion_or_nan(q: Option<Quaternion>) -> Quaternion {
    match q {
        Some(q) => q,
        None => Quaternion {
            x: Double::spec_nan(),
            y: Double::spec_nan(),
            z: Double::spec_nan(),
            w: Double::spec_nan(),
        },
    }
}

/// The row of a point: the point's own values, the settings of its segment,
/// the index of its layer and the number of its segment.
pub open spec fn spec_point_row(
    layer_index: i32,
    segment_id: i32,
    segment: SegmentView,
    point: PointView,
) -> RowView {
    let position = spec_vector_or_nan(point.position);
    let direction = spec_vector_or_nan(point.direction);
    let orientation = spec_quaternion_or_nan(point.orientation);
    RowView {
        position_x: position.x,
        position_y: position.y,
        position_z: position.z,
        direction_x: direction.x,
        direction_y: direction.y,
        direction_z: direction.z,
        orientation_x: orientation.x,
        orientation_y: orientation.y,
        orientation_z: orientation.z,
        orientation_w: orientation.w,
        deposition: point.deposition,
        speed: point.speed,
        speed_tcp: segment.speed_tcp,
        segment_type: segment.segment_type,
        layer_index: layer_index,
        process_on_delay: segment.process_on_delay,
        process_off_delay: segment.process_off_delay,
        start_delay: segment.start_delay,
        equipment_id: segment.equipment_id,
        tool_id: segment.tool_id,
        material_id: segment.material_id,
        segment_id: segment_id,
        fans_num: spec_fan_numbers(point.fans),
        fans_speed: spec_fan_speeds(point.fans),
        user_events_num: spec_event_numbers(point.user_events),
        external_axes: point.external_axes,
    }
}

/// The rows of a segment: one for each point, in order.
pub open spec fn spec_segment_rows(layer_index: i32, segment_id: i32, segment: SegmentView) -> Seq<
    RowView,
> {
    Seq::new(
        segment.points.len(),
        |p: int| spec_point_row(layer_index, segment_id, segment, segment.points[p]),
    )
}

/// The rows of the first `m` of the given segments. The segment at place
/// `j` carries the number `j`.
pub open spec fn spec_rows_before(segments: Seq<PlacedSegment>, m: nat) -> Seq<RowView>
    decreases m,
{
    if m == 0 {
        Seq::empty()
    } else {
        spec_rows_before(segments, (m - 1) as nat) + spec_segment_rows(
            segments[m - 1].layer_index,
            (m - 1) as i32,
            segments[m - 1].segment,
        )
    }
}

/// The rows of a document: those of its segments in document order, the
/// segments numbered from zero through the whole document.
pub open spec fn spec_document_rows(doc: DocumentView) -> Seq<RowView> {
    spec_rows_before(placed_segments(doc), placed_segments(doc).len())
}

/// The cells that a run of rows has in a column.
pub open spec fn spec_column_of(rows: Seq<RowView>, id: ColumnId) -> ColumnView {
    match id.spec_kind() {
        ColumnKind::Int32 => ColumnView::Int32(
            Seq::new(rows.len(), |i: int| Some(rows[i].int_cell(id))),
        ),
        ColumnKind::Float32 => ColumnView::Float32(
            Seq::new(rows.len(), |i: int| Some(rows[i].single_cell(id))),
        ),
        ColumnKind::Float64 => ColumnView::Float64(
            Seq::new(rows.len(), |i: int| Some(rows[i].double_cell(id))),
        ),
        ColumnKind::Int32List => ColumnView::Int32List(
            Seq::new(rows.len(), |i: int| rows[i].int_list(id)),
        ),
        ColumnKind::Float64List => ColumnView::Float64List(
            Seq::new(rows.len(), |i: int| rows[i].double_list(id)),
        ),
    }
}

/// The table of a run of rows: as high as there are rows, with the scalar
/// columns and, if asked for, the list columns.
pub open spec fn spec_table_of_rows(rows: Seq<RowView>, with_lists: bool) -> TableView {
    TableView {
        height: rows.len(),
        columns: Map::new(
            |id: ColumnId| with_lists || !id.spec_is_list(),
            |id: ColumnId| spec_column_of(rows, id),
        ),
    }
}

/// The table of a document.
pub open spec fn spec_flatten(doc: DocumentView, with_lists: bool) -> TableView {
    spec_table_of_rows(spec_document_rows(doc), with_lists)
}

fn fan_numbers(fans: &Vec<FanData>) -> (numbers: Vec<i32>)
    ensures
        numbers@ == spec_fan_numbers(fans@),
{
    let mut numbers: Vec<i32> = Vec::new();
    let mut i: usize = 0;
    while i < fans.len()
        invariant
            i <= fans@.len(),
            numbers@ == spec_fan_numbers(fans@).take(i as int),
        decreases fans@.len() - i,
    {
        numbers.push(fans[i].num);
        i = i + 1;
    }
    numbers
}

fn fan_speeds(fans: &Vec<FanData>) -> (speeds: Vec<Double>)
    ensures
        speeds@ == spec_fan_speeds(fans@),
{
    let mut speeds: Vec<Double> = Vec::new();
    let mut i: usize = 0;
    while i < fans.len()
        invariant
            i <= fans@.len(),
            speeds@ == spec_fan_speeds(fans@).take(i as int),
        decreases fans@.len() - i,
    {
        speeds.push(fans[i].speed);
        i = i + 1;
    }
    speeds
}

fn event_numbers(events: &Vec<EventData>) -> (numbers: Vec<i32>)
    ensures
        numbers@ == spec_event_numbers(events@),
{
    let mut numbers: Vec<i32> = Vec::new();
    let mut i: usize = 0;
    while i < events.len()
        invariant
            i <= events@.len(),
            numbers@ == spec_event_numbers(events@).take(i as int),
        decreases events@.len() - i,
    {
        numbers.push(events[i].num);
        i = i + 1;
    }
    numbers
}

/// The components of a vector that may be absent.
pub fn vector_or_nan(v: Option<Vector3D>) -> (out: Vector3D)
    ensures
        out == spec_vector_or_nan(v),
{
    match v {
        Some(v) => v,
        None => Vector3D { x: Double::nan(), y: Double::nan(), z: Double::nan() },
    }
}

/// The components of a quaternion that may be absent.
pub fn quaternion_or_nan(q: Option<Quaternion>) -> (out: Quaternion)
    ensures
        out == spec_quaternion_or_nan(q),
{
    match q {
        Some(q) => q,
        None => Quaternion { x: Double::nan(), y: Double::nan(), z: Double::nan(), w: Double::nan() },
    }
}

/// The row of one point.
pub fn point_row(layer_index: i32, segment_id: i32, segment: &Segment, point: &Point) -> (row: Row)
    ensures
        row@ == spec_point_row(layer_index, segment_id, segment@, point@),
{
    let position = vector_or_nan(point.position);
    let direction = vector_or_nan(point.direction);
    let orientation = quaternion_or_nan(point.orientation);
    Row {
        position_x: position.x,
        position_y: position.y,
        position_z: position.z,
        direction_x: direction.x,
        direction_y: direction.y,
        direction_z: direction.z,
        orientation_x: orientation.x,
        orientation_y: orientation.y,
        orientation_z: orientation.z,
        orientation_w: orientation.w,
        deposition: point.deposition,
        speed: point.speed,
        speed_tcp: segment.speed_tcp,
        segment_type: segment.segment_type,
        layer_index: layer_index,
        process_on_delay: segment.process_on_delay,
        process_off_delay: segment.process_off_delay,
        start_delay: segment.start_delay,
        equipment_id: segment.equipment_id,
        tool_id: segment.tool_id,
        material_id: segment.material_id,
        segment_id: segment_id,
        fans_num: fan_numbers(&point.fans),
        fans_speed: fan_speeds(&point.fans),
        user_events_num: event_numbers(&point.user_events),
        external_axes: copy_doubles(&point.external_axes),
    }
}

/// The rows of a document, in the order of the walk. Fails where the
/// segments outnumber the 32-bit signed integers that number them.
pub fn document_rows(doc: &Document) -> (result: Result<Vec<Row>, FlattenError>)
    ensures
        match result {
            Ok(rows) => segment_count(doc@) <= i32::MAX && rows_view(rows@) == spec_document_rows(
                doc@,
            ),
            Err(e) => segment_count(doc@) > i32::MAX && e == FlattenError::TooManySegments,
        },
{
    let mut rows: Vec<Row> = Vec::new();
    let mut next_id: i32 = 0;
    let ghost placed = placed_segments(doc@);
    let mut g: usize = 0;
    while g < doc.groups.len()
        invariant
            g <= doc.groups@.len(),
            placed == placed_segments(doc@),
            next_id == segments_before(doc@, g as nat),
            rows_view(rows@) == spec_rows_before(placed, next_id as nat),
        decreases doc.groups@.len() - g,
    {
        let group = &doc.groups[g];
        let ghost first_id: int = next_id as int;
        let mut s: usize = 0;
        while s < group.segments.len()
            invariant
                g < doc.groups@.len(),
                *group == doc.groups@[g as int],
                placed == placed_segments(doc@),
                s <= group.segments@.len(),
                first_id == segments_before(doc@, g as nat),
                next_id == first_id + s,
                rows_view(rows@) == spec_rows_before(placed, next_id as nat),
            decreases group.segments@.len() - s,
        {
            proof {
                assert(doc@.groups[g as int] == group@);
                assert(group@.segments[s as int] == group.segments@[s as int]@);
                lemma_placed_segment_at(doc@, g as int, s as int);
            }
            if next_id == i32::MAX {
                return Err(FlattenError::TooManySegments);
            }
            let segment = &group.segments[s];
            let ghost segment_base = rows_view(rows@);
            let ghost target = spec_segment_rows(group.layer_index, next_id, segment@);
            let mut p: usize = 0;
            while p < segment.points.len()
                invariant
                    p <= segment.points@.len(),
                    target == spec_segment_rows(group.layer_index, next_id, segment@),
                    rows_view(rows@) == segment_base + target.take(p as int),
                decreases segment.points@.len() - p,
            {
                let row = point_row(group.layer_index, next_id, segment, &segment.points[p]);
                let ghost before = rows@;
                let ghost added = row@;
                rows.push(row);
                proof {
                    assert(segment@.points[p as int] == segment.points@[p as int]@);
                    assert(rows_view(rows@) =~= rows_view(before).push(added));
                    assert(target.take(p + 1) =~= target.take(p as int).push(target[p as int]));
                    assert(rows_view(rows@) =~= segment_base + target.take(p + 1));
                }
                p = p + 1;
            }
            proof {
                assert(target.take(p as int) =~= target);
                assert(placed[next_id as int].segment == segment@);
                assert(placed[next_id as int].layer_index == group.layer_index);
            }
            next_id = next_id + 1;
            s = s + 1;
        }
        proof {
            assert(doc@.groups[g as int] == group@);
        }
        g = g + 1;
    }
    proof {
        lemma_placed_segments_len(doc@, doc@.groups.len());
    }
    Ok(rows)
}

fn int_cells(rows: &Vec<Row>, id: ColumnId) -> (cells: Vec<Option<i32>>)
    ensures
        cells@ == Seq::new(rows@.len(), |i: int| Some(rows_view(rows@)[i].int_cell(id))),
{
    let mut cells: Vec<Option<i32>> = Vec::new();
    let mut i: usize = 0;
    while i < rows.len()
        invariant
            i <= rows@.len(),
            cells@ == Seq::new(i as nat, |j: int| Some(rows_view(rows@)[j].int_cell(id))),
        decreases rows@.len() - i,
    {
        cells.push(Some(rows[i].int_cell(id)));
        i = i + 1;
    }
    cells
}

fn single_cells(rows: &Vec<Row>, id: ColumnId) -> (cells: Vec<Option<crate::scalar::Single>>)
    ensures
        cells@ == Seq::new(rows@.len(), |i: int| Some(rows_view(rows@)[i].single_cell(id))),
{
    let mut cells: Vec<Option<crate::scalar::Single>> = Vec::new();
    let mut i: usize = 0;
    while i < rows.len()
        invariant
            i <= rows@.len(),
            cells@ == Seq::new(i as nat, |j: int| Some(rows_view(rows@)[j].single_cell(id))),
        decreases rows@.len() - i,
    {
        cells.push(Some(rows[i].single_cell(id)));
        i = i + 1;
    }
    cells
}

fn double_cells(rows: &Vec<Row>, id: ColumnId) -> (cells: Vec<Option<Double>>)
    ensures
        cells@ == Seq::new(rows@.len(), |i: int| Some(rows_view(rows@)[i].double_cell(id))),
{
    let mut cells: Vec<Option<Double>> = Vec::new();
    let mut i: usize = 0;
    while i < rows.len()
        invariant
            i <= rows@.len(),
            cells@ == Seq::new(i as nat, |j: int| Some(rows_view(rows@)[j].double_cell(id))),
        decreases rows@.len() - i,
    {
        cells.push(Some(rows[i].double_cell(id)));
        i = i + 1;
    }
    cells
}

fn int_lists(rows: &Vec<Row>, id: ColumnId) -> (cells: Vec<Vec<i32>>)
    ensures
        cells@.map_values(|list: Vec<i32>| list@) == Seq::new(
            rows@.len(),
            |i: int| rows_view(rows@)[i].int_list(id),
        ),
{
    let mut cells: Vec<Vec<i32>> = Vec::new();
    let mut i: usize = 0;
    while i < rows.len()
        invariant
            i <= rows@.len(),
            cells@.map_values(|list: Vec<i32>| list@) == Seq::new(
                i as nat,
                |j: int| rows_view(rows@)[j].int_list(id),
            ),
        decreases rows@.len() - i,
    {
        let ghost before = cells@;
        let list = rows[i].int_list(id);
        let ghost added = list@;
        cells.push(list);
        assert(cells@.map_values(|list: Vec<i32>| list@) =~= before.map_values(
            |list: Vec<i32>| list@,
        ).push(added));
        i = i + 1;
    }
    cells
}

fn double_lists(rows: &Vec<Row>, id: ColumnId) -> (cells: Vec<Vec<Double>>)
    ensures
        cells@.map_values(|list: Vec<Double>| list@) == Seq::new(
            rows@.len(),
            |i: int| rows_view(rows@)[i].double_list(id),
        ),
{
    let mut cells: Vec<Vec<Double>> = Vec::new();
    let mut i: usize = 0;
    while i < rows.len()
        invariant
            i <= rows@.len(),
            cells@.map_values(|list: Vec<Double>| list@) == Seq::new(
                i as nat,
                |j: int| rows_view(rows@)[j].double_list(id),
            ),
        decreases rows@.len() - i,
    {
        let ghost before = cells@;
        let list = rows[i].double_list(id);
        let ghost added = list@;
        cells.push(list);
        assert(cells@.map_values(|list: Vec<Double>| list@) =~= before.map_values(
            |list: Vec<Double>| list@,
        ).push(added));
        i = i + 1;
    }
    cells
}

/// The cells that a run of rows has in a column.
pub fn column_of(rows: &Vec<Row>, id: ColumnId) -> (data: ColumnData)
    ensures
        data@ == spec_column_of(rows_view(rows@), id),
        data@.len() == rows@.len(),
{
    match id.kind() {
        ColumnKind::Int32 => ColumnData::Int32(int_cells(rows, id)),
        ColumnKind::Float32 => ColumnData::Float32(single_cells(rows, id)),
        ColumnKind::Float64 => ColumnData::Float64(double_cells(rows, id)),
        ColumnKind::Int32List => ColumnData::Int32List(int_lists(rows, id)),
        ColumnKind::Float64List => ColumnData::Float64List(double_lists(rows, id)),
    }
}

/// The table of a run of rows.
pub fn table_of_rows(rows: &Vec<Row>, with_lists: bool) -> (table: Table)
    ensures
        table@ == spec_table_of_rows(rows_view(rows@), with_lists),
{
    let ids = catalog(with_lists);
    let mut table = Table::new(rows.len());
    let mut i: usize = 0;
    while i < ids.len()
        invariant
            i <= ids@.len(),
            ids@ == spec_catalog(with_lists),
            table@.height == rows@.len(),
            table@.columns =~= Map::new(
                |id: ColumnId| id.spec_index() < i,
                |id: ColumnId| spec_column_of(rows_view(rows@), id),
            ),
        decreases ids@.len() - i,
    {
        let id = ids[i];
        let data = column_of(rows, id);
        let done = table.set(id, data);
        proof {
            assert(done);
            assert forall|other: ColumnId| other.spec_index() < i + 1 implies other.spec_index() < i
                || other == id by {
                crate::catalog::lemma_index_round_trip(other, i as int);
            }
            crate::catalog::lemma_index_round_trip(id, i as int);
        }
        i = i + 1;
    }
    proof {
        assert forall|id: ColumnId| (id.spec_index() < i) == (with_lists || !id.spec_is_list()) by {
            crate::catalog::lemma_index_round_trip(id, 0);
        }
        assert(table@.columns =~= spec_table_of_rows(rows_view(rows@), with_lists).columns);
    }
    table
}

/// Flattens a document into a table with one row per point, in the order of a
/// walk through the layers, their segments and the segments' points. Each row
/// carries the point's values, the settings of its segment, the index of its
/// layer and the number of its segment, counted from zero through the whole
/// document. A position, direction or orientation that the point lacks is
/// written as the marker in each of its components. With `with_lists` the
/// table has the four list columns too.
///
/// Fails where the document has more segments than a 32-bit signed integer
/// can number, and only there.
pub fn flatten(doc: &Document, with_lists: bool) -> (result: Result<Table, FlattenError>)
    ensures
        match result {
            Ok(table) => {
                &&& segment_count(doc@) <= i32::MAX
                &&& table@ == spec_flatten(doc@, with_lists)
                &&& table@.height == point_count(doc@)
            },
            Err(e) => segment_count(doc@) > i32::MAX && e == FlattenError::TooManySegments,
        },
{
    match document_rows(doc) {
        Ok(rows) => {
            proof {
                lemma_row_count(doc@, with_lists);
            }
            Ok(table_of_rows(&rows, with_lists))
        },
        Err(e) => Err(e),
    }
}

} // verus!
