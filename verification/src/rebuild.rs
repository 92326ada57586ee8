//! The rebuilder: from a table back to a document. The rows are parted by
//! layer index, each layer's rows by segment number, both times stably; each
//! part of a layer becomes a segment, each of its rows a point.

use vstd::prelude::*;
use crate::catalog::ColumnId;
use crate::error::RebuildError;
use crate::partition::{
    lemma_stable_partition, partition_by_stable, parts_view, spec_partition_rows, stable_partition,
    ROW_LIMIT,
};
use crate::scalar::{int_or_zero, spec_int_or_zero, Double, Single};
use crate::schema::{
    Document, DocumentView, Group, GroupView, Parameters, Point, PointView, Quaternion, Segment,
    SegmentView, Vector3D,
};
use crate::table::{ColumnData, Table, TableView};

verus! {

/// What is wrong with a column that the rebuild reads, if anything: the table
/// lacks it, or its cells are of another kind than the catalog gives it.
pub open spec fn spec_column_fault(t: TableView, id: ColumnId) -> Option<RebuildError> {
    if !t.columns.contains_key(id) {
        Some(RebuildError::MissingColumn(id))
    } else if t.columns[id].kind() != Some(id.spec_kind()) {
        Some(RebuildError::WrongKind(id))
    } else {
        None
    }
}

/// The columns that the assembly reads, in the order in which it asks for
/// them.
pub open spec fn spec_required_columns() -> Seq<ColumnId> {
    seq![
        ColumnId::LayerIndex,
        ColumnId::SegmentType,
        ColumnId::ProcessOnDelay,
        ColumnId::ProcessOffDelay,
        ColumnId::StartDelay,
        ColumnId::SpeedTcp,
        ColumnId::EquipmentId,
        ColumnId::ToolId,
        ColumnId::MaterialId,
        ColumnId::PositionX,
        ColumnId::PositionY,
        ColumnId::PositionZ,
        ColumnId::DirectionX,
        ColumnId::DirectionY,
        ColumnId::DirectionZ,
        ColumnId::OrientationX,
        ColumnId::OrientationY,
        ColumnId::OrientationZ,
        ColumnId::OrientationW,
        ColumnId::Deposition,
        ColumnId::Speed,
    ]
}

/// The fault of the first of the given columns that has one.
pub open spec fn spec_first_fault(t: TableView, ids: Seq<ColumnId>) -> Option<RebuildError>
    decreases ids.len(),
{
    if ids.len() == 0 {
        None
    } else {
        match spec_column_fault(t, ids[0]) {
            Some(e) => Some(e),
            None => spec_first_fault(t, ids.drop_first()),
        }
    }
}

/// The rows of a part as mathematical integers.
pub open spec fn rows_of(part: Seq<u64>) -> Seq<int> {
    Seq::new(part.len(), |k: int| part[k] as int)
}

/// Mathematical value of the parts of one layer.
pub open spec fn segments_view(segments: Seq<Vec<u64>>) -> Seq<Seq<int>> {
    Seq::new(segments.len(), |s: int| rows_of(segments[s]@))
}

/// Mathematical value of a grouping: for each layer, for each of its
/// segments, the rows of the segment.
pub open spec fn grouping_view(grouping: Seq<Vec<Vec<u64>>>) -> Seq<Seq<Seq<int>>> {
    Seq::new(grouping.len(), |g: int| segments_view(grouping[g]@))
}

/// Whether a grouping can be assembled: no layer without a segment, no
/// segment without a row, no row that the table does not have.
pub open spec fn spec_valid_grouping(grouping: Seq<Seq<Seq<int>>>, height: nat) -> bool {
    &&& forall|g: int| 0 <= g < grouping.len() ==> (#[trigger] grouping[g]).len() > 0
    &&& forall|g: int, s: int|
        0 <= g < grouping.len() && 0 <= s < grouping[g].len() ==> (#[trigger] grouping[g][s]).len()
            > 0
    &&& forall|g: int, s: int, k: int|
        0 <= g < grouping.len() && 0 <= s < grouping[g].len() && 0 <= k < grouping[g][s].len()
            ==> 0 <= (#[trigger] grouping[g][s][k]) < height
}

/// The point that a row stands for. Position, direction and orientation are
/// present, each component the cell's value or the marker where the cell is
/// null; the lists are empty.
pub open spec fn spec_point_of(t: TableView, row: int) -> PointView {
    PointView {
        position: Some(
            Vector3D {
                x: Double::spec_or_nan(t.double_cell(ColumnId::PositionX, row)),
                y: Double::spec_or_nan(t.double_cell(ColumnId::PositionY, row)),
                z: Double::spec_or_nan(t.double_cell(ColumnId::PositionZ, row)),
            },
        ),
        direction: Some(
            Vector3D {
                x: Double::spec_or_nan(t.double_cell(ColumnId::DirectionX, row)),
                y: Double::spec_or_nan(t.double_cell(ColumnId::DirectionY, row)),
                z: Double::spec_or_nan(t.double_cell(ColumnId::DirectionZ, row)),
            },
        ),
        orientation: Some(
            Quaternion {
                x: Double::spec_or_nan(t.double_cell(ColumnId::OrientationX, row)),
                y: Double::spec_or_nan(t.double_cell(ColumnId::OrientationY, row)),
                z: Double::spec_or_nan(t.double_cell(ColumnId::OrientationZ, row)),
                w: Double::spec_or_nan(t.double_cell(ColumnId::OrientationW, row)),
            },
        ),
        external_axes: Seq::empty(),
        deposition: Double::spec_or_nan(t.double_cell(ColumnId::Deposition, row)),
        speed: Double::spec_or_nan(t.double_cell(ColumnId::Speed, row)),
        fans: Seq::empty(),
        user_events: Seq::empty(),
    }
}

/// The segment that a run of rows stands for. Its settings are read in the
/// first row, a null cell as zero; the process is off and the end delay zero,
/// for the table has no column for either.
pub open spec fn spec_segment_of(t: TableView, rows: Seq<int>) -> SegmentView {
    SegmentView {
        points: Seq::new(rows.len(), |k: int| spec_point_of(t, rows[k])),
        process_on: false,
        segment_type: spec_int_or_zero(t.int_cell(ColumnId::SegmentType, rows[0])),
        process_on_delay: Single::spec_or_zero(t.single_cell(ColumnId::ProcessOnDelay, rows[0])),
        process_off_delay: Single::spec_or_zero(t.single_cell(ColumnId::ProcessOffDelay, rows[0])),
        start_delay: Single::spec_or_zero(t.single_cell(ColumnId::StartDelay, rows[0])),
        end_delay: Single::spec_zero(),
        speed_tcp: spec_int_or_zero(t.int_cell(ColumnId::SpeedTcp, rows[0])),
        equipment_id: spec_int_or_zero(t.int_cell(ColumnId::EquipmentId, rows[0])),
        tool_id: spec_int_or_zero(t.int_cell(ColumnId::ToolId, rows[0])),
        material_id: spec_int_or_zero(t.int_cell(ColumnId::MaterialId, rows[0])),
    }
}

/// The layer that a run of segments stands for. Its index is read in its
/// first row, a null cell as zero.
pub open spec fn spec_group_of(t: TableView, segments: Seq<Seq<int>>) -> GroupView {
    GroupView {
        layer_index: spec_int_or_zero(t.int_cell(ColumnId::LayerIndex, segments[0][0])),
        segments: Seq::new(segments.len(), |s: int| spec_segment_of(t, segments[s])),
    }
}

/// The document that a grouping of a table's rows stands for. Its
/// configuration is one record with every value zero.
pub open spec fn spec_document_of(t: TableView, grouping: Seq<Seq<Seq<int>>>) -> DocumentView {
    DocumentView {
        parameters: seq![Parameters::spec_zeroed()],
        groups: Seq::new(grouping.len(), |g: int| spec_group_of(t, grouping[g])),
    }
}

/// What the assembly answers. Without a layer nothing is read and the
/// document is empty. Else the first fault among the columns read is the
/// answer; else a grouping that cannot be assembled is refused; else the answer
/// is the document that the grouping stands for.
pub open spec fn spec_assemble(t: TableView, grouping: Seq<Seq<Seq<int>>>) -> Result<
    DocumentView,
    RebuildError,
> {
    if grouping.len() == 0 {
        Ok(spec_document_of(t, grouping))
    } else if spec_first_fault(t, spec_required_columns()) is Some {
        Err(spec_first_fault(t, spec_required_columns())->0)
    } else if !spec_valid_grouping(grouping, t.height) {
        Err(RebuildError::InvalidGrouping)
    } else {
        Ok(spec_document_of(t, grouping))
    }
}

/// Mathematical value of what the assembly or the rebuild hands back.
pub open spec fn result_view(result: Result<Document, RebuildError>) -> Result<
    DocumentView,
    RebuildError,
> {
    match result {
        Ok(doc) => Ok(doc@),
        Err(e) => Err(e),
    }
}

/// What is wrong with a column that the rebuild reads, if anything.
pub fn column_fault(table: &Table, id: ColumnId) -> (fault: Option<RebuildError>)
    ensures
        fault == spec_column_fault(table@, id),
{
    match table.column(id) {
        None => Some(RebuildError::MissingColumn(id)),
        Some(data) => {
            match data.kind() {
                Some(kind) => {
                    if kind == id.kind() {
                        None
                    } else {
                        Some(RebuildError::WrongKind(id))
                    }
                },
                None => Some(RebuildError::WrongKind(id)),
            }
        },
    }
}

/// The columns that the assembly reads, in the order in which it asks for
/// them.
pub fn required_columns() -> (ids: Vec<ColumnId>)
    ensures
        ids@ == spec_required_columns(),
{
    let ids = vec![
        ColumnId::LayerIndex,
        ColumnId::SegmentType,
        ColumnId::ProcessOnDelay,
        ColumnId::ProcessOffDelay,
        ColumnId::StartDelay,
        ColumnId::SpeedTcp,
        ColumnId::EquipmentId,
        ColumnId::ToolId,
        ColumnId::MaterialId,
        ColumnId::PositionX,
        ColumnId::PositionY,
        ColumnId::PositionZ,
        ColumnId::DirectionX,
        ColumnId::DirectionY,
        ColumnId::DirectionZ,
        ColumnId::OrientationX,
        ColumnId::OrientationY,
        ColumnId::OrientationZ,
        ColumnId::OrientationW,
        ColumnId::Deposition,
        ColumnId::Speed,
    ];
    assert(ids@ =~= spec_required_columns());
    ids
}

/// The fault of the first column that the assembly reads and that has one.
pub fn first_fault(table: &Table) -> (fault: Option<RebuildError>)
    ensures
        fault == spec_first_fault(table@, spec_required_columns()),
{
    let ids = required_columns();
    let mut i: usize = 0;
    assert(ids@.skip(0) =~= ids@);
    while i < ids.len()
        invariant
            i <= ids@.len(),
            spec_first_fault(table@, ids@) == spec_first_fault(table@, ids@.skip(i as int)),
            ids@ == spec_required_columns(),
        decreases ids@.len() - i,
    {
        let fault = column_fault(table, ids[i]);
        proof {
            assert(ids@.skip(i as int).drop_first() =~= ids@.skip(i + 1));
            assert(ids@.skip(i as int)[0] == ids@[i as int]);
        }
        if fault.is_some() {
            return fault;
        }
        i = i + 1;
    }
    None
}

/// Whether a grouping can be assembled from a table of the given height.
pub fn valid_grouping(grouping: &Vec<Vec<Vec<u64>>>, height: usize) -> (valid: bool)
    ensures
        valid == spec_valid_grouping(grouping_view(grouping@), height as nat),
{
    let ghost view = grouping_view(grouping@);
    let mut g: usize = 0;
    while g < grouping.len()
        invariant
            g <= grouping@.len(),
            view == grouping_view(grouping@),
            spec_valid_grouping(view.take(g as int), height as nat),
        decreases grouping@.len() - g,
    {
        let segments = &grouping[g];
        if segments.len() == 0 {
            assert(view[g as int].len() == 0);
            return false;
        }
        let mut s: usize = 0;
        while s < segments.len()
            invariant
                g < grouping@.len(),
                *segments == grouping@[g as int],
                view == grouping_view(grouping@),
                s <= segments@.len(),
                forall|a: int| 0 <= a < s ==> (#[trigger] view[g as int][a]).len() > 0,
                forall|a: int, k: int|
                    0 <= a < s && 0 <= k < view[g as int][a].len() ==> 0 <= (
                    #[trigger] view[g as int][a][k]) < height,
            decreases segments@.len() - s,
        {
            let rows = &segments[s];
            if rows.len() == 0 {
                assert(view[g as int][s as int].len() == 0);
                return false;
            }
            let mut k: usize = 0;
            while k < rows.len()
                invariant
                    g < grouping@.len(),
                    s < segments@.len(),
                    *segments == grouping@[g as int],
                    *rows == segments@[s as int],
                    view == grouping_view(grouping@),
                    k <= rows@.len(),
                    forall|b: int| 0 <= b < k ==> 0 <= (#[trigger] view[g as int][s as int][b])
                        < height,
                decreases rows@.len() - k,
            {
                if rows[k] >= height as u64 {
                    assert(view[g as int][s as int][k as int] >= height);
                    return false;
                }
                k = k + 1;
            }
            s = s + 1;
        }
        proof {
            let shorter = view.take(g as int);
            let longer = view.take(g + 1);
            assert forall|a: int| 0 <= a < longer.len() implies (#[trigger] longer[a]).len()
                > 0 by {
                if a < g {
                    assert(longer[a] == shorter[a]);
                }
            }
            assert forall|a: int, b: int|
                0 <= a < longer.len() && 0 <= b < longer[a].len() implies (
            #[trigger] longer[a][b]).len() > 0 by {
                if a < g {
                    assert(longer[a] == shorter[a]);
                    assert(shorter[a][b].len() > 0);
                } else {
                    assert(view[g as int][b].len() > 0);
                }
            }
            assert forall|a: int, b: int, c: int|
                0 <= a < longer.len() && 0 <= b < longer[a].len() && 0 <= c
                    < longer[a][b].len() implies 0 <= (#[trigger] longer[a][b][c]) < height by {
                if a < g {
                    assert(longer[a] == shorter[a]);
                    assert(0 <= shorter[a][b][c] < height);
                } else {
                    assert(0 <= view[g as int][b][c] < height);
                }
            }
        }
        g = g + 1;
    }
    assert(view.take(g as int) =~= view);
    true
}

/// The point that a row stands for.
pub fn point_of(table: &Table, row: u64) -> (point: Point)
    ensures
        point@ == spec_point_of(table@, row as int),
{
    let point = Point {
        position: Some(
            Vector3D {
                x: Double::or_nan(table.double_cell(ColumnId::PositionX, row)),
                y: Double::or_nan(table.double_cell(ColumnId::PositionY, row)),
                z: Double::or_nan(table.double_cell(ColumnId::PositionZ, row)),
            },
        ),
        direction: Some(
            Vector3D {
                x: Double::or_nan(table.double_cell(ColumnId::DirectionX, row)),
                y: Double::or_nan(table.double_cell(ColumnId::DirectionY, row)),
                z: Double::or_nan(table.double_cell(ColumnId::DirectionZ, row)),
            },
        ),
        orientation: Some(
            Quaternion {
                x: Double::or_nan(table.double_cell(ColumnId::OrientationX, row)),
                y: Double::or_nan(table.double_cell(ColumnId::OrientationY, row)),
                z: Double::or_nan(table.double_cell(ColumnId::OrientationZ, row)),
                w: Double::or_nan(table.double_cell(ColumnId::OrientationW, row)),
            },
        ),
        external_axes: Vec::new(),
        deposition: Double::or_nan(table.double_cell(ColumnId::Deposition, row)),
        speed: Double::or_nan(table.double_cell(ColumnId::Speed, row)),
        fans: Vec::new(),
        user_events: Vec::new(),
    };
    assert(point@.external_axes =~= Seq::empty());
    assert(point@.fans =~= Seq::empty());
    assert(point@.user_events =~= Seq::empty());
    point
}

/// The segment that a run of rows stands for.
pub fn segment_of(table: &Table, rows: &Vec<u64>) -> (segment: Segment)
    requires
        rows@.len() > 0,
    ensures
        segment@ == spec_segment_of(table@, rows_of(rows@)),
{
    let first = rows[0];
    let mut points: Vec<Point> = Vec::new();
    let mut k: usize = 0;
    while k < rows.len()
        invariant
            k <= rows@.len(),
            points@.len() == k,
            forall|j: int|
                0 <= j < k ==> (#[trigger] points@[j])@ == spec_point_of(table@, rows@[j] as int),
        decreases rows@.len() - k,
    {
        points.push(point_of(table, rows[k]));
        k = k + 1;
    }
    let segment = Segment {
        points,
        process_on: false,
        segment_type: int_or_zero(table.int_cell(ColumnId::SegmentType, first)),
        process_on_delay: Single::or_zero(table.single_cell(ColumnId::ProcessOnDelay, first)),
        process_off_delay: Single::or_zero(table.single_cell(ColumnId::ProcessOffDelay, first)),
        start_delay: Single::or_zero(table.single_cell(ColumnId::StartDelay, first)),
        end_delay: Single::zero(),
        speed_tcp: int_or_zero(table.int_cell(ColumnId::SpeedTcp, first)),
        equipment_id: int_or_zero(table.int_cell(ColumnId::EquipmentId, first)),
        tool_id: int_or_zero(table.int_cell(ColumnId::ToolId, first)),
        material_id: int_or_zero(table.int_cell(ColumnId::MaterialId, first)),
    };
    assert(segment@.points =~= spec_segment_of(table@, rows_of(rows@)).points);
    segment
}

/// The layer that a run of segments stands for.
pub fn group_of(table: &Table, segments: &Vec<Vec<u64>>) -> (group: Group)
    requires
        segments@.len() > 0,
        forall|s: int| 0 <= s < segments@.len() ==> (#[trigger] segments@[s])@.len() > 0,
    ensures
        group@ == spec_group_of(table@, segments_view(segments@)),
{
    let first = segments[0][0];
    let mut built: Vec<Segment> = Vec::new();
    let mut s: usize = 0;
    while s < segments.len()
        invariant
            s <= segments@.len(),
            built@.len() == s,
            forall|a: int| 0 <= a < segments@.len() ==> (#[trigger] segments@[a])@.len() > 0,
            forall|a: int|
                0 <= a < s ==> (#[trigger] built@[a])@ == spec_segment_of(
                    table@,
                    rows_of(segments@[a]@),
                ),
        decreases segments@.len() - s,
    {
        built.push(segment_of(table, &segments[s]));
        s = s + 1;
    }
    let group = Group {
        layer_index: int_or_zero(table.int_cell(ColumnId::LayerIndex, first)),
        segments: built,
    };
    assert(group@.segments =~= spec_group_of(table@, segments_view(segments@)).segments);
    group
}

/// Assembles a document from a table and a grouping of its rows: for each
/// layer, for each of its segments, the rows of the segment. Each layer of
/// the grouping becomes a layer of the document, each of its parts a segment,
/// each row a point.
///
/// Without a layer the document is empty and no column is read. Else the
/// answer is the first fault among the columns read, if one has a fault; else
/// `InvalidGrouping`, if a layer has no segment, a segment no row, or the
/// table no such row; else the document.
pub fn assemble(table: &Table, grouping: &Vec<Vec<Vec<u64>>>) -> (result: Result<
    Document,
    RebuildError,
>)
    ensures
        result_view(result) == spec_assemble(table@, grouping_view(grouping@)),
{
    let ghost view = grouping_view(grouping@);
    if grouping.len() != 0 {
        match first_fault(table) {
            Some(e) => {
                return Err(e);
            },
            None => {},
        }
        if !valid_grouping(grouping, table.height()) {
            return Err(RebuildError::InvalidGrouping);
        }
    }
    let mut groups: Vec<Group> = Vec::new();
    let mut g: usize = 0;
    while g < grouping.len()
        invariant
            g <= grouping@.len(),
            groups@.len() == g,
            view == grouping_view(grouping@),
            spec_valid_grouping(view, table@.height),
            forall|a: int|
                0 <= a < g ==> (#[trigger] groups@[a])@ == spec_group_of(
                    table@,
                    segments_view(grouping@[a]@),
                ),
        decreases grouping@.len() - g,
    {
        proof {
            assert(view[g as int].len() > 0);
            assert forall|s: int| 0 <= s < grouping@[g as int]@.len() implies (
            #[trigger] grouping@[g as int]@[s])@.len() > 0 by {
                assert(view[g as int][s].len() > 0);
            }
        }
        groups.push(group_of(table, &grouping[g]));
        g = g + 1;
    }
    let mut parameters: Vec<Parameters> = Vec::new();
    parameters.push(Parameters::zeroed());
    let doc = Document { parameters, groups };
    assert(doc@.parameters =~= spec_document_of(table@, view).parameters);
    assert(doc@.groups =~= spec_document_of(table@, view).groups);
    Ok(doc)
}

/// The segments of one layer: the stable partition of the layer's rows by
/// their segment numbers; or, where the table has no column of segment
/// numbers, the whole layer as one segment.
pub open spec fn spec_split_layer(segment_keys: Option<Seq<Option<i32>>>, layer: Seq<int>) -> Seq<
    Seq<int>,
> {
    match segment_keys {
        None => seq![layer],
        Some(keys) => {
            let local = Seq::new(layer.len(), |j: int| keys[layer[j]]);
            let parts = stable_partition(local);
            Seq::new(parts.len(), |s: int| Seq::new(parts[s].len(), |k: int| layer[parts[s][k]]))
        },
    }
}

/// The grouping of the rows that stand beside the given keys: the stable
/// partition by layer index, each layer split into its segments.
pub open spec fn spec_grouping_of(
    layer_keys: Seq<Option<i32>>,
    segment_keys: Option<Seq<Option<i32>>>,
) -> Seq<Seq<Seq<int>>> {
    let layers = stable_partition(layer_keys);
    Seq::new(layers.len(), |g: int| spec_split_layer(segment_keys, layers[g]))
}

/// The grouping of a table's rows.
pub open spec fn spec_grouping(t: TableView) -> Seq<Seq<Seq<int>>> {
    spec_grouping_of(
        t.int_column(ColumnId::LayerIndex)->0,
        t.int_column(ColumnId::SegmentId),
    )
}

/// What the rebuild answers.
///
/// A table without the column of layer indices is refused. A table without
/// rows gives the empty document, whatever else it lacks. A table of more
/// rows than the table engine can number is refused. Else the column of layer
/// indices must hold integers, and so must the column of segment numbers if
/// the table has one; without one, each layer is one segment. The rest is the
/// assembly of the table's grouping.
pub open spec fn spec_rebuild(t: TableView) -> Result<DocumentView, RebuildError> {
    if !t.columns.contains_key(ColumnId::LayerIndex) {
        Err(RebuildError::MissingColumn(ColumnId::LayerIndex))
    } else if t.height == 0 {
        Ok(spec_document_of(t, Seq::empty()))
    } else if t.height >= ROW_LIMIT {
        Err(RebuildError::TooManyRows)
    } else if t.int_column(ColumnId::LayerIndex) is None {
        Err(RebuildError::WrongKind(ColumnId::LayerIndex))
    } else if t.columns.contains_key(ColumnId::SegmentId) && t.int_column(ColumnId::SegmentId)
        is None {
        Err(RebuildError::WrongKind(ColumnId::SegmentId))
    } else {
        spec_assemble(t, spec_grouping(t))
    }
}

/// Mathematical value of a column of keys that may be lacking.
pub open spec fn keys_view(keys: Option<&Vec<Option<i32>>>) -> Option<Seq<Option<i32>>> {
    match keys {
        Some(cells) => Some(cells@),
        None => None,
    }
}

/// The grouping of a table's rows can be assembled, and has a layer if the
/// table has a row.
pub proof fn lemma_grouping_valid(
    layer_keys: Seq<Option<i32>>,
    segment_keys: Option<Seq<Option<i32>>>,
)
    requires
        segment_keys matches Some(keys) ==> keys.len() == layer_keys.len(),
    ensures
        spec_valid_grouping(spec_grouping_of(layer_keys, segment_keys), layer_keys.len()),
        layer_keys.len() > 0 ==> spec_grouping_of(layer_keys, segment_keys).len() > 0,
{
    let layers = stable_partition(layer_keys);
    let grouping = spec_grouping_of(layer_keys, segment_keys);
    lemma_stable_partition(layer_keys);
    assert forall|g: int| 0 <= g < grouping.len() implies {
        &&& (#[trigger] grouping[g]).len() > 0
        &&& forall|s: int| 0 <= s < grouping[g].len() ==> (#[trigger] grouping[g][s]).len() > 0
        &&& forall|s: int, k: int|
            0 <= s < grouping[g].len() && 0 <= k < grouping[g][s].len() ==> 0 <= (
            #[trigger] grouping[g][s][k]) < layer_keys.len()
    } by {
        let layer = layers[g];
        assert(layer.len() > 0);
        assert forall|j: int| 0 <= j < layer.len() implies 0 <= #[trigger] layer[j]
            < layer_keys.len() by {
            assert(0 <= layers[g][j] < layer_keys.len());
        }
        match segment_keys {
            None => {},
            Some(keys) => {
                let local = Seq::new(layer.len(), |j: int| keys[layer[j]]);
                lemma_stable_partition(local);
                let parts = stable_partition(local);
                assert forall|s: int, k: int|
                    0 <= s < grouping[g].len() && 0 <= k < grouping[g][s].len() implies 0 <= (
                #[trigger] grouping[g][s][k]) < layer_keys.len() by {
                    assert(0 <= parts[s][k] < local.len());
                }
                assert forall|s: int| 0 <= s < grouping[g].len() implies (
                #[trigger] grouping[g][s]).len() > 0 by {
                    assert(parts[s].len() > 0);
                }
            },
        }
    }
}

/// The rows `0 .. height`.
fn all_rows(height: usize) -> (rows: Vec<u64>)
    ensures
        rows@.len() == height,
        forall|i: int| 0 <= i < height ==> #[trigger] rows@[i] == i,
{
    let mut rows: Vec<u64> = Vec::new();
    let mut i: usize = 0;
    while i < height
        invariant
            i <= height,
            rows@.len() == i,
            forall|j: int| 0 <= j < i ==> #[trigger] rows@[j] == j,
        decreases height - i,
    {
        rows.push(i as u64);
        i = i + 1;
    }
    rows
}

/// The keys that stand beside the given rows.
fn keys_of(keys: &Vec<Option<i32>>, rows: &Vec<u64>) -> (local: Vec<Option<i32>>)
    requires
        forall|j: int| 0 <= j < rows@.len() ==> #[trigger] rows@[j] < keys@.len(),
    ensures
        local@ == Seq::new(rows@.len(), |j: int| keys@[rows@[j] as int]),
{
    let mut local: Vec<Option<i32>> = Vec::new();
    let mut j: usize = 0;
    while j < rows.len()
        invariant
            j <= rows@.len(),
            forall|a: int| 0 <= a < rows@.len() ==> #[trigger] rows@[a] < keys@.len(),
            local@ == Seq::new(j as nat, |a: int| keys@[rows@[a] as int]),
        decreases rows@.len() - j,
    {
        let row = rows[j];
        let count = keys.len();
        assert(row < count);
        local.push(keys[row as usize]);
        j = j + 1;
    }
    local
}

/// A copy of a run of rows.
fn copy_rows(rows: &Vec<u64>) -> (copy: Vec<u64>)
    ensures
        copy@ == rows@,
{
    let mut copy: Vec<u64> = Vec::new();
    let mut i: usize = 0;
    while i < rows.len()
        invariant
            i <= rows@.len(),
            copy@ == rows@.take(i as int),
        decreases rows@.len() - i,
    {
        copy.push(rows[i]);
        i = i + 1;
    }
    copy
}

/// Splits the rows of one layer into its segments.
fn split_layer(segment_keys: Option<&Vec<Option<i32>>>, layer: &Vec<u64>) -> (result: Result<
    Vec<Vec<u64>>,
    RebuildError,
>)
    requires
        layer@.len() < ROW_LIMIT,
        segment_keys matches Some(keys) ==> forall|j: int|
            0 <= j < layer@.len() ==> #[trigger] layer@[j] < keys@.len(),
    ensures
        result matches Ok(segments) && segments_view(segments@) == spec_split_layer(
            keys_view(segment_keys),
            rows_of(layer@),
        ),
{
    match segment_keys {
        None => {
            let mut segments: Vec<Vec<u64>> = Vec::new();
            segments.push(copy_rows(layer));
            assert(segments_view(segments@) =~~= spec_split_layer(None, rows_of(layer@)));
            Ok(segments)
        },
        Some(keys) => {
            let local = keys_of(keys, layer);
            match partition_by_stable(&local, layer) {
                Ok(segments) => {
                    proof {
                        let spec_local = Seq::new(
                            rows_of(layer@).len(),
                            |j: int| keys@[rows_of(layer@)[j]],
                        );
                        assert(local@ =~= spec_local);
                        lemma_stable_partition(local@);
                        let parts = stable_partition(local@);
                        let target = spec_split_layer(Some(keys@), rows_of(layer@));
                        assert(parts_view(segments@).len() == parts.len());
                        assert forall|s: int| 0 <= s < parts.len() implies segments_view(
                            segments@,
                        )[s] =~= target[s] by {
                            assert(parts_view(segments@)[s] == spec_partition_rows(
                                local@,
                                layer@,
                            )[s]);
                            assert forall|k: int| 0 <= k < parts[s].len() implies rows_of(
                                segments@[s]@,
                            )[k] == target[s][k] by {
                                assert(0 <= parts[s][k] < local@.len());
                                assert(segments@[s]@[k] == spec_partition_rows(
                                    local@,
                                    layer@,
                                )[s][k]);
                            }
                        }
                        assert(segments_view(segments@) =~= target);
                    }
                    Ok(segments)
                },
                Err(_) => Err(RebuildError::Grouping(ColumnId::SegmentId)),
            }
        },
    }
}

/// Groups the rows that stand beside the given keys: by layer index, and
/// each layer by segment number.
fn group_rows(layer_keys: &Vec<Option<i32>>, segment_keys: Option<&Vec<Option<i32>>>) -> (result:
    Result<Vec<Vec<Vec<u64>>>, RebuildError>)
    requires
        layer_keys@.len() < ROW_LIMIT,
        segment_keys matches Some(keys) ==> keys@.len() == layer_keys@.len(),
    ensures
        result matches Ok(grouping) && grouping_view(grouping@) == spec_grouping_of(
            layer_keys@,
            keys_view(segment_keys),
        ),
{
    let rows = all_rows(layer_keys.len());
    let layers = match partition_by_stable(layer_keys, &rows) {
        Ok(layers) => layers,
        Err(_) => {
            return Err(RebuildError::Grouping(ColumnId::LayerIndex));
        },
    };
    let ghost parts = stable_partition(layer_keys@);
    proof {
        lemma_stable_partition(layer_keys@);
        assert(parts_view(layers@).len() == parts.len());
        assert forall|g: int| 0 <= g < parts.len() implies rows_of(layers@[g]@) =~= parts[g] by {
            assert(parts_view(layers@)[g] == spec_partition_rows(layer_keys@, rows@)[g]);
            assert forall|j: int| 0 <= j < parts[g].len() implies rows_of(layers@[g]@)[j]
                == parts[g][j] by {
                assert(0 <= parts[g][j] < layer_keys@.len());
                assert(layers@[g]@[j] == spec_partition_rows(layer_keys@, rows@)[g][j]);
            }
        }
    }
    let mut grouping: Vec<Vec<Vec<u64>>> = Vec::new();
    let mut g: usize = 0;
    while g < layers.len()
        invariant
            g <= layers@.len(),
            layers@.len() == parts.len(),
            parts == stable_partition(layer_keys@),
            segment_keys matches Some(keys) ==> keys@.len() == layer_keys@.len(),
            forall|a: int| 0 <= a < parts.len() ==> rows_of(layers@[a]@) == #[trigger] parts[a],
            forall|a: int, j: int|
                0 <= a < parts.len() && 0 <= j < parts[a].len() ==> 0 <= (#[trigger] parts[a][j])
                    < layer_keys@.len(),
            forall|a: int| 0 <= a < parts.len() ==> (#[trigger] parts[a]).len() <= layer_keys@.len(),
            layer_keys@.len() < ROW_LIMIT,
            grouping@.len() == g,
            forall|a: int|
                0 <= a < g ==> segments_view((#[trigger] grouping@[a])@) == spec_split_layer(
                    keys_view(segment_keys),
                    parts[a],
                ),
        decreases layers@.len() - g,
    {
        let layer = &layers[g];
        proof {
            assert(rows_of(layer@) == parts[g as int]);
            assert forall|j: int| 0 <= j < layer@.len() implies #[trigger] layer@[j]
                < layer_keys@.len() by {
                assert(rows_of(layer@)[j] == parts[g as int][j]);
                assert(0 <= parts[g as int][j] < layer_keys@.len());
            }
        }
        match split_layer(segment_keys, layer) {
            Ok(segments) => {
                grouping.push(segments);
            },
            Err(e) => {
                return Err(e);
            },
        }
        g = g + 1;
    }
    assert(grouping_view(grouping@) =~= spec_grouping_of(layer_keys@, keys_view(segment_keys)));
    Ok(grouping)
}

/// Rebuilds a document from a table.
///
/// The rows are parted by layer index, stably: rows that share a layer index
/// form one layer, also where other rows stand between them, and the layers
/// come in the order in which their indices first occur. Each layer's rows
/// are parted in the same way by segment number; where the table has no
/// column of segment numbers, each layer is one segment. A segment's settings
/// are read in its first row, and each of its rows becomes a point.
///
/// A table without the column of layer indices is refused; a table without
/// rows gives the empty document; a table of `ROW_LIMIT` rows or more is
/// refused; else the first column that is missing or of the wrong kind is
/// named. The partition is the table engine's work.
pub fn rebuild(table: &Table) -> (result: Result<Document, RebuildError>)
    ensures
        result_view(result) == spec_rebuild(table@),
{
    let empty: Vec<Vec<Vec<u64>>> = Vec::new();
    assert(grouping_view(empty@) =~= Seq::empty());
    let layer_column = match table.column(ColumnId::LayerIndex) {
        Some(data) => data,
        None => {
            return Err(RebuildError::MissingColumn(ColumnId::LayerIndex));
        },
    };
    if table.height() == 0 {
        return assemble(table, &empty);
    }
    if table.height() >= ROW_LIMIT {
        return Err(RebuildError::TooManyRows);
    }
    let layer_keys = match layer_column {
        ColumnData::Int32(cells) => cells,
        _ => {
            return Err(RebuildError::WrongKind(ColumnId::LayerIndex));
        },
    };
    let segment_keys = match table.column(ColumnId::SegmentId) {
        None => None,
        Some(ColumnData::Int32(cells)) => Some(cells),
        Some(_) => {
            return Err(RebuildError::WrongKind(ColumnId::SegmentId));
        },
    };
    match first_fault(table) {
        Some(e) => {
            proof {
                lemma_grouping_valid(layer_keys@, keys_view(segment_keys));
                crate::rebuild_laws::lemma_first_fault(table@, spec_required_columns());
            }
            return Err(e);
        },
        None => {},
    }
    let grouping = match group_rows(layer_keys, segment_keys) {
        Ok(grouping) => grouping,
        Err(e) => {
            proof {
                lemma_grouping_valid(layer_keys@, keys_view(segment_keys));
            }
            return Err(e);
        },
    };
    proof {
        lemma_grouping_valid(layer_keys@, keys_view(segment_keys));
    }
    assemble(table, &grouping)
}

} // verus!
