//! What holds of the rebuild, stated over the mathematical values and
//! proved.

use vstd::prelude::*;
use crate::catalog::ColumnId;
use crate::error::RebuildError;
use crate::partition::{
    first_seen, in_some_part, lemma_parts_in_first_seen_order, lemma_stable_partition,
    stable_partition, ROW_LIMIT,
};
use crate::rebuild::{
    lemma_grouping_valid, spec_assemble, spec_column_fault, spec_document_of, spec_first_fault,
    spec_grouping, spec_point_of, spec_rebuild, spec_required_columns, spec_split_layer,
    spec_valid_grouping,
};
use crate::scalar::{lemma_marker_is_nan, spec_int_or_zero, Double, Single};
use crate::schema::DocumentView;
use crate::table::TableView;

verus! {

/// The grouping that a rebuild assembles: none for a table without rows,
/// else the table's grouping.
pub open spec fn spec_rebuilt_grouping(t: TableView) -> Seq<Seq<Seq<int>>> {
    if t.height == 0 {
        Seq::empty()
    } else {
        spec_grouping(t)
    }
}

/// The first fault named is a fault of one of the columns asked for: a
/// column that is missing or of the wrong kind. Where none of them has a
/// fault, none is named.
pub proof fn lemma_first_fault(t: TableView, ids: Seq<ColumnId>)
    ensures
        spec_first_fault(t, ids) matches Some(e) ==> e.spec_is_schema() && exists|k: int|
            0 <= k < ids.len() && spec_column_fault(t, #[trigger] ids[k]) == Some(e),
        spec_first_fault(t, ids) is None <==> forall|k: int|
            0 <= k < ids.len() ==> spec_column_fault(t, #[trigger] ids[k]) is None,
    decreases ids.len(),
{
    if ids.len() > 0 {
        let rest = ids.drop_first();
        lemma_first_fault(t, rest);
        match spec_column_fault(t, ids[0]) {
            Some(e) => {},
            None => {
                if spec_first_fault(t, rest) is Some {
                    let e = spec_first_fault(t, rest)->0;
                    let k = choose|k: int|
                        0 <= k < rest.len() && spec_column_fault(t, #[trigger] rest[k]) == Some(e);
                    assert(ids[k + 1] == rest[k]);
                } else {
                    assert forall|k: int| 0 <= k < ids.len() implies spec_column_fault(
                        t,
                        #[trigger] ids[k],
                    ) is None by {
                        if k > 0 {
                            assert(ids[k] == rest[k - 1]);
                        }
                    }
                }
            },
        }
        if spec_first_fault(t, ids) is None {
        } else if forall|k: int|
            0 <= k < ids.len() ==> spec_column_fault(t, #[trigger] ids[k]) is None {
            assert(spec_column_fault(t, ids[0]) is None);
            assert forall|k: int| 0 <= k < rest.len() implies spec_column_fault(
                t,
                #[trigger] rest[k],
            ) is None by {
                assert(rest[k] == ids[k + 1]);
            }
        }
    }
}

/// Where a rebuild succeeds, its document is the one that the table's
/// grouping stands for, and that grouping can be assembled.
pub proof fn lemma_rebuild_ok(t: TableView)
    requires
        t.wf(),
        spec_rebuild(t) is Ok,
    ensures
        spec_rebuild(t) == Ok::<DocumentView, RebuildError>(
            spec_document_of(t, spec_rebuilt_grouping(t)),
        ),
        spec_valid_grouping(spec_rebuilt_grouping(t), t.height),
        t.columns.contains_key(ColumnId::LayerIndex),
        t.height < ROW_LIMIT,
        t.height > 0 ==> t.int_column(ColumnId::LayerIndex) is Some && spec_first_fault(
            t,
            spec_required_columns(),
        ) is None,
{
    if t.height > 0 {
        assert(t.columns.contains_key(ColumnId::LayerIndex));
        assert(t.columns[ColumnId::LayerIndex].len() == t.height);
        let layer_keys = t.int_column(ColumnId::LayerIndex)->0;
        let segment_keys = t.int_column(ColumnId::SegmentId);
        if segment_keys is Some {
            assert(t.columns.contains_key(ColumnId::SegmentId));
            assert(t.columns[ColumnId::SegmentId].len() == t.height);
        }
        lemma_grouping_valid(layer_keys, segment_keys);
    }
}

/// A rebuild fails for two reasons only: the table has too many rows, or
/// its schema has a fault, and the error names the column that the table
/// lacks or that holds cells of another kind.
pub proof fn lemma_rebuild_failures(t: TableView)
    requires
        t.wf(),
    ensures
        spec_rebuild(t) matches Err(e) ==> (e == RebuildError::TooManyRows && t.height
            >= ROW_LIMIT) || (e.spec_is_schema() && e.spec_column() is Some),
{
    if t.columns.contains_key(ColumnId::LayerIndex) && t.height > 0 && t.int_column(
        ColumnId::LayerIndex,
    ) is Some && !(t.columns.contains_key(ColumnId::SegmentId) && t.int_column(
        ColumnId::SegmentId,
    ) is None) {
        assert(t.columns[ColumnId::LayerIndex].len() == t.height);
        let layer_keys = t.int_column(ColumnId::LayerIndex)->0;
        let segment_keys = t.int_column(ColumnId::SegmentId);
        if segment_keys is Some {
            assert(t.columns.contains_key(ColumnId::SegmentId));
            assert(t.columns[ColumnId::SegmentId].len() == t.height);
        }
        lemma_grouping_valid(layer_keys, segment_keys);
        lemma_first_fault(t, spec_required_columns());
    }
}

/// A rebuild succeeds on every table that has the column of layer indices
/// and either no row, or fewer rows than the limit and no fault in its
/// schema: integers for layer indices, integers for segment numbers if that
/// column is there, and each column that the assembly reads, of its kind.
pub proof fn lemma_rebuild_succeeds(t: TableView)
    requires
        t.wf(),
        t.columns.contains_key(ColumnId::LayerIndex),
        t.height == 0 || ({
            &&& t.height < ROW_LIMIT
            &&& t.int_column(ColumnId::LayerIndex) is Some
            &&& t.columns.contains_key(ColumnId::SegmentId) ==> t.int_column(ColumnId::SegmentId)
                is Some
            &&& spec_first_fault(t, spec_required_columns()) is None
        }),
    ensures
        spec_rebuild(t) == Ok::<DocumentView, RebuildError>(
            spec_document_of(t, spec_rebuilt_grouping(t)),
        ),
{
    if t.height > 0 {
        assert(t.columns[ColumnId::LayerIndex].len() == t.height);
        let segment_keys = t.int_column(ColumnId::SegmentId);
        if segment_keys is Some {
            assert(t.columns.contains_key(ColumnId::SegmentId));
            assert(t.columns[ColumnId::SegmentId].len() == t.height);
        }
        lemma_grouping_valid(t.int_column(ColumnId::LayerIndex)->0, segment_keys);
    }
}

/// A table that lacks the column of layer indices is refused, with an error
/// that names the column.
pub proof fn lemma_missing_layer_index(t: TableView)
    requires
        !t.columns.contains_key(ColumnId::LayerIndex),
    ensures
        spec_rebuild(t) == Err::<DocumentView, RebuildError>(
            RebuildError::MissingColumn(ColumnId::LayerIndex),
        ),
        RebuildError::MissingColumn(ColumnId::LayerIndex).spec_is_schema(),
        RebuildError::MissingColumn(ColumnId::LayerIndex).spec_column() == Some(
            ColumnId::LayerIndex,
        ),
{
}

/// Each segment of an assembled document has the process off and an end
/// delay of zero, whatever the table holds.
pub proof fn lemma_assembled_segments_are_lossy(
    t: TableView,
    grouping: Seq<Seq<Seq<int>>>,
    g: int,
    s: int,
)
    requires
        spec_assemble(t, grouping) is Ok,
        0 <= g < grouping.len(),
        0 <= s < grouping[g].len(),
    ensures
        ({
            let doc = spec_assemble(t, grouping)->Ok_0;
            &&& doc.groups.len() == grouping.len()
            &&& doc.groups[g].segments.len() == grouping[g].len()
            &&& !doc.groups[g].segments[s].process_on
            &&& doc.groups[g].segments[s].end_delay == Single::spec_zero()
        }),
{
}

/// Each segment of a rebuilt document has the process off and an end delay
/// of zero, whatever the table holds.
pub proof fn lemma_rebuilt_segments_are_lossy(t: TableView, g: int, s: int)
    requires
        spec_rebuild(t) is Ok,
        0 <= g < spec_rebuild(t)->Ok_0.groups.len(),
        0 <= s < spec_rebuild(t)->Ok_0.groups[g].segments.len(),
    ensures
        !spec_rebuild(t)->Ok_0.groups[g].segments[s].process_on,
        spec_rebuild(t)->Ok_0.groups[g].segments[s].end_delay == Single::spec_zero(),
        spec_rebuild(t)->Ok_0.groups[g].segments[s].end_delay.bits == 0,
{
}

/// The point at a place of a rebuilt document is the point of the row that
/// the grouping has at that place. Its orientation is present; a component is
/// a not-a-number wherever the row's cell is null or holds the marker.
pub proof fn lemma_rebuilt_point(t: TableView, g: int, s: int, p: int)
    requires
        spec_rebuild(t) is Ok,
        0 <= g < spec_rebuilt_grouping(t).len(),
        0 <= s < spec_rebuilt_grouping(t)[g].len(),
        0 <= p < spec_rebuilt_grouping(t)[g][s].len(),
    ensures
        ({
            let doc = spec_rebuild(t)->Ok_0;
            let row = spec_rebuilt_grouping(t)[g][s][p];
            let point = doc.groups[g].segments[s].points[p];
            &&& doc.groups.len() == spec_rebuilt_grouping(t).len()
            &&& doc.groups[g].segments.len() == spec_rebuilt_grouping(t)[g].len()
            &&& doc.groups[g].segments[s].points.len() == spec_rebuilt_grouping(t)[g][s].len()
            &&& point == spec_point_of(t, row)
            &&& point.position is Some
            &&& point.direction is Some
            &&& point.orientation matches Some(q)
            &&& (t.double_cell(ColumnId::OrientationX, row) is None || t.double_cell(
                ColumnId::OrientationX,
                row,
            ) == Some(Double::spec_nan()) ==> q.x.spec_is_nan())
            &&& (t.double_cell(ColumnId::OrientationY, row) is None || t.double_cell(
                ColumnId::OrientationY,
                row,
            ) == Some(Double::spec_nan()) ==> q.y.spec_is_nan())
            &&& (t.double_cell(ColumnId::OrientationZ, row) is None || t.double_cell(
                ColumnId::OrientationZ,
                row,
            ) == Some(Double::spec_nan()) ==> q.z.spec_is_nan())
            &&& (t.double_cell(ColumnId::OrientationW, row) is None || t.double_cell(
                ColumnId::OrientationW,
                row,
            ) == Some(Double::spec_nan()) ==> q.w.spec_is_nan())
        }),
{
    lemma_marker_is_nan();
}

/// Whether a row stands in one of the given segments.
pub open spec fn holds_row(segments: Seq<Seq<int>>, row: int) -> bool {
    exists|s: int, k: int|
        0 <= s < segments.len() && 0 <= k < segments[s].len() && #[trigger] segments[s][k] == row
}

/// Whether a row stands in a layer of a grouping.
pub open spec fn row_in_layer(grouping: Seq<Seq<Seq<int>>>, g: int, row: int) -> bool {
    holds_row(grouping[g], row)
}

/// The segments of a layer hold the rows of the layer, each of them, and no
/// others; and the first row of the first segment is the first row of the
/// layer.
pub proof fn lemma_split_layer_rows(segment_keys: Option<Seq<Option<i32>>>, layer: Seq<int>)
    requires
        layer.len() > 0,
    ensures
        forall|s: int, k: int|
            0 <= s < spec_split_layer(segment_keys, layer).len() && 0 <= k < spec_split_layer(
                segment_keys,
                layer,
            )[s].len() ==> layer.contains(#[trigger] spec_split_layer(segment_keys, layer)[s][k]),
        forall|j: int|
            0 <= j < layer.len() ==> holds_row(
                spec_split_layer(segment_keys, layer),
                #[trigger] layer[j],
            ),
        spec_split_layer(segment_keys, layer).len() > 0,
        spec_split_layer(segment_keys, layer)[0].len() > 0,
        spec_split_layer(segment_keys, layer)[0][0] == layer[0],
{
    let split = spec_split_layer(segment_keys, layer);
    match segment_keys {
        None => {
            assert forall|j: int| 0 <= j < layer.len() implies holds_row(
                split,
                #[trigger] layer[j],
            ) by {
                assert(split[0][j] == layer[j]);
            }
        },
        Some(keys) => {
            let local = Seq::new(layer.len(), |j: int| keys[layer[j]]);
            let parts = stable_partition(local);
            lemma_stable_partition(local);
            assert forall|s: int, k: int|
                0 <= s < split.len() && 0 <= k < split[s].len() implies layer.contains(
                #[trigger] split[s][k],
            ) by {
                assert(0 <= parts[s][k] < local.len());
            }
            assert forall|j: int| 0 <= j < layer.len() implies holds_row(
                split,
                #[trigger] layer[j],
            ) by {
                assert(in_some_part(local, j));
                let s = choose|s: int| 0 <= s < parts.len() && (#[trigger] parts[s]).contains(j);
                let k = choose|k: int| 0 <= k < parts[s].len() && parts[s][k] == j;
                assert(split[s][k] == layer[j]);
            }
            // The place zero stands in a part, as its first member; were
            // that part not the first, the first part would begin before it.
            assert(in_some_part(local, 0));
            let s = choose|s: int| 0 <= s < parts.len() && (#[trigger] parts[s]).contains(0);
            let k = choose|k: int| 0 <= k < parts[s].len() && parts[s][k] == 0;
            if k > 0 {
                assert(0 <= parts[s][0]);
                assert(parts[s][0] < parts[s][k]);
            }
            if s > 0 {
                lemma_parts_in_first_seen_order(local, 0, s);
                assert(0 <= parts[0][0]);
            }
            assert(parts[0][0] == 0);
        },
    }
}

/// Rows that share a layer index form one layer, wherever they stand. Each
/// row of the table stands in a layer of the rebuilt document; two rows stand
/// in the same layer exactly if their cells of layer index are equal.
pub proof fn lemma_layers_are_merged(t: TableView, i: int, j: int)
    requires
        t.wf(),
        spec_rebuild(t) is Ok,
        0 <= i < t.height,
        0 <= j < t.height,
    ensures
        ({
            let keys = t.int_column(ColumnId::LayerIndex)->0;
            let grouping = spec_rebuilt_grouping(t);
            &&& spec_rebuild(t)->Ok_0.groups.len() == grouping.len()
            &&& exists|g: int| 0 <= g < grouping.len() && #[trigger] row_in_layer(grouping, g, i)
            &&& forall|g: int, h: int|
                0 <= g < grouping.len() && 0 <= h < grouping.len() && #[trigger] row_in_layer(
                    grouping,
                    g,
                    i,
                ) && #[trigger] row_in_layer(grouping, h, j) ==> (g == h <==> keys[i] == keys[j])
        }),
{
    lemma_rebuild_ok(t);
    assert(t.columns[ColumnId::LayerIndex].len() == t.height);
    let keys = t.int_column(ColumnId::LayerIndex)->0;
    let segment_keys = t.int_column(ColumnId::SegmentId);
    let grouping = spec_rebuilt_grouping(t);
    let layers = stable_partition(keys);
    lemma_stable_partition(keys);
    assert(in_some_part(keys, i));
    let g0 = choose|g: int| 0 <= g < layers.len() && (#[trigger] layers[g]).contains(i);
    let j0 = choose|j0: int| 0 <= j0 < layers[g0].len() && layers[g0][j0] == i;
    lemma_split_layer_rows(segment_keys, layers[g0]);
    assert(row_in_layer(grouping, g0, i));
    assert forall|g: int, h: int|
        0 <= g < grouping.len() && 0 <= h < grouping.len() && #[trigger] row_in_layer(
            grouping,
            g,
            i,
        ) && #[trigger] row_in_layer(grouping, h, j) implies (g == h <==> keys[i] == keys[j]) by {
        lemma_split_layer_rows(segment_keys, layers[g]);
        lemma_split_layer_rows(segment_keys, layers[h]);
        let (s, k) = choose|s: int, k: int|
            0 <= s < grouping[g].len() && 0 <= k < grouping[g][s].len()
                && #[trigger] grouping[g][s][k] == i;
        assert(layers[g].contains(grouping[g][s][k]));
        let a = choose|a: int| 0 <= a < layers[g].len() && layers[g][a] == i;
        assert(keys[layers[g][a]] == first_seen(keys)[g]);
        let (s2, k2) = choose|s: int, k: int|
            0 <= s < grouping[h].len() && 0 <= k < grouping[h][s].len()
                && #[trigger] grouping[h][s][k] == j;
        assert(layers[h].contains(grouping[h][s2][k2]));
        let b = choose|b: int| 0 <= b < layers[h].len() && layers[h][b] == j;
        assert(keys[layers[h][b]] == first_seen(keys)[h]);
        if g < h {
            assert(first_seen(keys)[g] != first_seen(keys)[h]);
        } else if h < g {
            assert(first_seen(keys)[h] != first_seen(keys)[g]);
        }
    }
}

/// The layer index of a rebuilt layer is the one that its rows share, a null
/// cell read as zero.
pub proof fn lemma_layer_index_of_rows(t: TableView, g: int, row: int)
    requires
        t.wf(),
        spec_rebuild(t) is Ok,
        0 <= g < spec_rebuilt_grouping(t).len(),
        row_in_layer(spec_rebuilt_grouping(t), g, row),
    ensures
        0 <= row < t.height,
        spec_rebuild(t)->Ok_0.groups[g].layer_index == spec_int_or_zero(
            t.int_column(ColumnId::LayerIndex)->0[row],
        ),
        t.int_column(ColumnId::LayerIndex)->0[row] == first_seen(
            t.int_column(ColumnId::LayerIndex)->0,
        )[g],
{
    lemma_rebuild_ok(t);
    assert(t.columns[ColumnId::LayerIndex].len() == t.height);
    let keys = t.int_column(ColumnId::LayerIndex)->0;
    let segment_keys = t.int_column(ColumnId::SegmentId);
    let grouping = spec_rebuilt_grouping(t);
    let layers = stable_partition(keys);
    lemma_stable_partition(keys);
    lemma_split_layer_rows(segment_keys, layers[g]);
    let (s, k) = choose|s: int, k: int|
        0 <= s < grouping[g].len() && 0 <= k < grouping[g][s].len() && #[trigger] grouping[g][s][k]
            == row;
    assert(layers[g].contains(grouping[g][s][k]));
    let a = choose|a: int| 0 <= a < layers[g].len() && layers[g][a] == row;
    assert(keys[layers[g][a]] == first_seen(keys)[g]);
    assert(layers[g].contains(grouping[g][0][0]));
    let b = choose|b: int| 0 <= b < layers[g].len() && layers[g][b] == grouping[g][0][0];
    assert(keys[layers[g][b]] == first_seen(keys)[g]);
    assert(0 <= layers[g][b] < keys.len());
}

/// Whether a column of layer indices holds both a null cell and a zero.
pub open spec fn null_beside_zero(keys: Seq<Option<i32>>) -> bool {
    keys.contains(None) && keys.contains(Some(0))
}

/// No two layers of a rebuilt document have the same layer index, provided
/// that the column of layer indices does not hold both a null cell and a
/// zero. (A null cell is a key of its own and reads as zero.)
pub proof fn lemma_layer_indices_distinct(t: TableView, g: int, h: int)
    requires
        t.wf(),
        spec_rebuild(t) is Ok,
        0 <= g < h < spec_rebuild(t)->Ok_0.groups.len(),
        !null_beside_zero(t.int_column(ColumnId::LayerIndex)->0),
    ensures
        spec_rebuild(t)->Ok_0.groups[g].layer_index != spec_rebuild(t)->Ok_0.groups[h].layer_index,
{
    lemma_rebuild_ok(t);
    assert(t.columns[ColumnId::LayerIndex].len() == t.height);
    let keys = t.int_column(ColumnId::LayerIndex)->0;
    let segment_keys = t.int_column(ColumnId::SegmentId);
    let grouping = spec_rebuilt_grouping(t);
    let layers = stable_partition(keys);
    lemma_stable_partition(keys);
    lemma_split_layer_rows(segment_keys, layers[g]);
    lemma_split_layer_rows(segment_keys, layers[h]);
    assert(row_in_layer(grouping, g, grouping[g][0][0]));
    assert(row_in_layer(grouping, h, grouping[h][0][0]));
    lemma_layer_index_of_rows(t, g, grouping[g][0][0]);
    lemma_layer_index_of_rows(t, h, grouping[h][0][0]);
    assert(first_seen(keys)[g] != first_seen(keys)[h]);
    assert(keys.contains(keys[grouping[g][0][0]]));
    assert(keys.contains(keys[grouping[h][0][0]]));
}

/// The layers of a rebuilt document come in the order in which their layer
/// indices first occur in the table: the first row of an earlier layer stands
/// before the first row of a later one.
pub proof fn lemma_layers_in_first_seen_order(t: TableView, g: int, h: int)
    requires
        t.wf(),
        spec_rebuild(t) is Ok,
        0 <= g < h < spec_rebuild(t)->Ok_0.groups.len(),
    ensures
        spec_rebuilt_grouping(t)[g][0][0] < spec_rebuilt_grouping(t)[h][0][0],
        forall|s: int, k: int|
            0 <= s < spec_rebuilt_grouping(t)[g].len() && 0 <= k < spec_rebuilt_grouping(
                t,
            )[g][s].len() ==> spec_rebuilt_grouping(t)[g][0][0] <= #[trigger] spec_rebuilt_grouping(
                t,
            )[g][s][k],
{
    lemma_rebuild_ok(t);
    assert(t.columns[ColumnId::LayerIndex].len() == t.height);
    let keys = t.int_column(ColumnId::LayerIndex)->0;
    let segment_keys = t.int_column(ColumnId::SegmentId);
    let grouping = spec_rebuilt_grouping(t);
    let layers = stable_partition(keys);
    lemma_stable_partition(keys);
    lemma_split_layer_rows(segment_keys, layers[g]);
    lemma_split_layer_rows(segment_keys, layers[h]);
    lemma_parts_in_first_seen_order(keys, g, h);
    assert forall|s: int, k: int|
        0 <= s < grouping[g].len() && 0 <= k < grouping[g][s].len() implies grouping[g][0][0]
        <= #[trigger] grouping[g][s][k] by {
        assert(layers[g].contains(grouping[g][s][k]));
        let a = choose|a: int| 0 <= a < layers[g].len() && layers[g][a] == grouping[g][s][k];
        if a > 0 {
            assert(layers[g][0] < layers[g][a]);
        }
    }
}

/// Where the column of layer indices does hold both a null cell and a zero,
/// two layers of the rebuilt document have the layer index zero.
pub proof fn lemma_null_beside_zero_repeats_an_index(t: TableView) -> (pair: (int, int))
    requires
        t.wf(),
        spec_rebuild(t) is Ok,
        t.int_column(ColumnId::LayerIndex) is Some,
        null_beside_zero(t.int_column(ColumnId::LayerIndex)->0),
    ensures
        0 <= pair.0 < spec_rebuild(t)->Ok_0.groups.len(),
        0 <= pair.1 < spec_rebuild(t)->Ok_0.groups.len(),
        pair.0 != pair.1,
        spec_rebuild(t)->Ok_0.groups[pair.0].layer_index == 0,
        spec_rebuild(t)->Ok_0.groups[pair.1].layer_index == 0,
{
    let keys = t.int_column(ColumnId::LayerIndex)->0;
    assert(t.columns.contains_key(ColumnId::LayerIndex));
    assert(t.columns[ColumnId::LayerIndex].len() == t.height);
    let i = choose|i: int| 0 <= i < keys.len() && keys[i] == None::<i32>;
    let j = choose|j: int| 0 <= j < keys.len() && keys[j] == Some(0i32);
    lemma_rebuild_ok(t);
    lemma_layers_are_merged(t, i, j);
    let grouping = spec_rebuilt_grouping(t);
    let g = choose|g: int| 0 <= g < grouping.len() && #[trigger] row_in_layer(grouping, g, i);
    lemma_layers_are_merged(t, j, i);
    let h = choose|h: int| 0 <= h < grouping.len() && #[trigger] row_in_layer(grouping, h, j);
    lemma_layer_index_of_rows(t, g, i);
    lemma_layer_index_of_rows(t, h, j);
    (g, h)
}

/// How a layer whose rows ascend is split: within a segment the rows ascend,
/// an earlier segment begins before a later one, and where there is a column
/// of segment numbers, two rows stand in one segment exactly if their segment
/// numbers are equal.
pub proof fn lemma_split_layer_order(segment_keys: Option<Seq<Option<i32>>>, layer: Seq<int>)
    requires
        layer.len() > 0,
        forall|a: int, b: int| 0 <= a < b < layer.len() ==> layer[a] < layer[b],
    ensures
        forall|s: int, j: int, k: int|
            0 <= s < spec_split_layer(segment_keys, layer).len() && 0 <= j < k < spec_split_layer(
                segment_keys,
                layer,
            )[s].len() ==> #[trigger] spec_split_layer(segment_keys, layer)[s][j]
                < #[trigger] spec_split_layer(segment_keys, layer)[s][k],
        forall|s: int|
            0 <= s < spec_split_layer(segment_keys, layer).len() ==> (#[trigger] spec_split_layer(
                segment_keys,
                layer,
            )[s]).len() > 0,
        forall|r: int, s: int|
            0 <= r < s < spec_split_layer(segment_keys, layer).len() ==> (
            #[trigger] spec_split_layer(segment_keys, layer)[r])[0] < (#[trigger] spec_split_layer(
                segment_keys,
                layer,
            )[s])[0],
        segment_keys matches Some(keys) ==> forall|r: int, j: int, s: int, k: int|
            0 <= r < spec_split_layer(segment_keys, layer).len() && 0 <= j < spec_split_layer(
                segment_keys,
                layer,
            )[r].len() && 0 <= s < spec_split_layer(segment_keys, layer).len() && 0 <= k
                < spec_split_layer(segment_keys, layer)[s].len() ==> (r == s
                <==> keys[#[trigger] spec_split_layer(segment_keys, layer)[r][j]]
                == keys[#[trigger] spec_split_layer(segment_keys, layer)[s][k]]),
{
    let split = spec_split_layer(segment_keys, layer);
    match segment_keys {
        None => {},
        Some(keys) => {
            let local = Seq::new(layer.len(), |j: int| keys[layer[j]]);
            let parts = stable_partition(local);
            lemma_stable_partition(local);
            assert forall|s: int, j: int, k: int|
                0 <= s < split.len() && 0 <= j < k < split[s].len() implies #[trigger] split[s][j]
                < #[trigger] split[s][k] by {
                assert(parts[s][j] < parts[s][k]);
                assert(0 <= parts[s][j] && parts[s][k] < layer.len());
            }
            assert forall|s: int| 0 <= s < split.len() implies (#[trigger] split[s]).len() > 0 by {
                assert(parts[s].len() > 0);
            }
            assert forall|r: int, s: int| 0 <= r < s < split.len() implies (#[trigger] split[r])[0]
                < (#[trigger] split[s])[0] by {
                lemma_parts_in_first_seen_order(local, r, s);
                assert(0 <= parts[r][0] && parts[s][0] < layer.len());
            }
            assert forall|r: int, j: int, s: int, k: int|
                0 <= r < split.len() && 0 <= j < split[r].len() && 0 <= s < split.len() && 0 <= k
                    < split[s].len() implies (r == s <==> keys[#[trigger] split[r][j]]
                == keys[#[trigger] split[s][k]]) by {
                assert(0 <= parts[r][j] < local.len());
                assert(0 <= parts[s][k] < local.len());
                assert(local[parts[r][j]] == first_seen(local)[r]);
                assert(local[parts[s][k]] == first_seen(local)[s]);
                if r < s {
                    assert(first_seen(local)[r] != first_seen(local)[s]);
                } else if s < r {
                    assert(first_seen(local)[s] != first_seen(local)[r]);
                }
            }
        },
    }
}

/// The layers of a table's grouping are the parts of the stable partition
/// by layer index, each split into its segments; the rows of a layer ascend.
pub proof fn lemma_rebuilt_layer(t: TableView, g: int)
    requires
        t.wf(),
        spec_rebuild(t) is Ok,
        0 <= g < spec_rebuilt_grouping(t).len(),
    ensures
        t.height > 0,
        t.int_column(ColumnId::LayerIndex) is Some,
        stable_partition(t.int_column(ColumnId::LayerIndex)->0).len() == spec_rebuilt_grouping(
            t,
        ).len(),
        spec_rebuilt_grouping(t)[g] == spec_split_layer(
            t.int_column(ColumnId::SegmentId),
            stable_partition(t.int_column(ColumnId::LayerIndex)->0)[g],
        ),
        stable_partition(t.int_column(ColumnId::LayerIndex)->0)[g].len() > 0,
        forall|a: int, b: int|
            0 <= a < b < stable_partition(t.int_column(ColumnId::LayerIndex)->0)[g].len()
                ==> stable_partition(t.int_column(ColumnId::LayerIndex)->0)[g][a]
                < stable_partition(t.int_column(ColumnId::LayerIndex)->0)[g][b],
        t.columns.contains_key(ColumnId::SegmentId) ==> t.int_column(ColumnId::SegmentId) is Some,
{
    lemma_rebuild_ok(t);
    lemma_stable_partition(t.int_column(ColumnId::LayerIndex)->0);
}

/// Within a layer of a rebuilt document, rows that share a segment number
/// form one segment, wherever they stand in the layer: two rows of the layer
/// stand in the same segment exactly if their cells of segment number are
/// equal.
pub proof fn lemma_segments_are_merged(t: TableView, g: int, r: int, j: int, s: int, k: int)
    requires
        t.wf(),
        spec_rebuild(t) is Ok,
        t.columns.contains_key(ColumnId::SegmentId),
        0 <= g < spec_rebuilt_grouping(t).len(),
        0 <= r < spec_rebuilt_grouping(t)[g].len(),
        0 <= j < spec_rebuilt_grouping(t)[g][r].len(),
        0 <= s < spec_rebuilt_grouping(t)[g].len(),
        0 <= k < spec_rebuilt_grouping(t)[g][s].len(),
    ensures
        t.int_column(ColumnId::SegmentId) is Some,
        r == s <==> t.int_column(ColumnId::SegmentId)->0[spec_rebuilt_grouping(t)[g][r][j]]
            == t.int_column(ColumnId::SegmentId)->0[spec_rebuilt_grouping(t)[g][s][k]],
{
    lemma_rebuilt_layer(t, g);
    let layer = stable_partition(t.int_column(ColumnId::LayerIndex)->0)[g];
    let split = spec_split_layer(t.int_column(ColumnId::SegmentId), layer);
    lemma_split_layer_order(t.int_column(ColumnId::SegmentId), layer);
    assert(split[r][j] == spec_rebuilt_grouping(t)[g][r][j]);
    assert(split[s][k] == spec_rebuilt_grouping(t)[g][s][k]);
}

/// The points of a rebuilt segment keep the order of their rows in the
/// table.
pub proof fn lemma_points_keep_table_order(t: TableView, g: int, s: int, j: int, k: int)
    requires
        t.wf(),
        spec_rebuild(t) is Ok,
        0 <= g < spec_rebuilt_grouping(t).len(),
        0 <= s < spec_rebuilt_grouping(t)[g].len(),
        0 <= j < k < spec_rebuilt_grouping(t)[g][s].len(),
    ensures
        spec_rebuilt_grouping(t)[g][s][j] < spec_rebuilt_grouping(t)[g][s][k],
{
    lemma_rebuilt_layer(t, g);
    let layer = stable_partition(t.int_column(ColumnId::LayerIndex)->0)[g];
    lemma_split_layer_order(t.int_column(ColumnId::SegmentId), layer);
}

/// The segments of a rebuilt layer come in the order in which their segment
/// numbers first occur among the layer's rows: an earlier segment begins
/// before a later one.
pub proof fn lemma_segments_in_first_seen_order(t: TableView, g: int, r: int, s: int)
    requires
        t.wf(),
        spec_rebuild(t) is Ok,
        0 <= g < spec_rebuilt_grouping(t).len(),
        0 <= r < s < spec_rebuilt_grouping(t)[g].len(),
    ensures
        spec_rebuilt_grouping(t)[g][r].len() > 0,
        spec_rebuilt_grouping(t)[g][s].len() > 0,
        spec_rebuilt_grouping(t)[g][r][0] < spec_rebuilt_grouping(t)[g][s][0],
{
    lemma_rebuilt_layer(t, g);
    let layer = stable_partition(t.int_column(ColumnId::LayerIndex)->0)[g];
    let split = spec_split_layer(t.int_column(ColumnId::SegmentId), layer);
    lemma_split_layer_order(t.int_column(ColumnId::SegmentId), layer);
    assert(split[r][0] < split[s][0]);
}

/// Each row of the table is made into one point and no more: a row stands at
/// one place of the rebuilt document only.
pub proof fn lemma_each_row_once(
    t: TableView,
    g: int,
    s: int,
    k: int,
    g2: int,
    s2: int,
    k2: int,
)
    requires
        t.wf(),
        spec_rebuild(t) is Ok,
        0 <= g < spec_rebuilt_grouping(t).len(),
        0 <= s < spec_rebuilt_grouping(t)[g].len(),
        0 <= k < spec_rebuilt_grouping(t)[g][s].len(),
        0 <= g2 < spec_rebuilt_grouping(t).len(),
        0 <= s2 < spec_rebuilt_grouping(t)[g2].len(),
        0 <= k2 < spec_rebuilt_grouping(t)[g2][s2].len(),
        spec_rebuilt_grouping(t)[g][s][k] == spec_rebuilt_grouping(t)[g2][s2][k2],
    ensures
        g == g2,
        s == s2,
        k == k2,
{
    let grouping = spec_rebuilt_grouping(t);
    let row = grouping[g][s][k];
    lemma_rebuild_ok(t);
    assert(0 <= row < t.height);
    assert(row_in_layer(grouping, g, row));
    assert(row_in_layer(grouping, g2, row));
    lemma_layers_are_merged(t, row, row);
    assert(g == g2);
    lemma_rebuilt_layer(t, g);
    let layer = stable_partition(t.int_column(ColumnId::LayerIndex)->0)[g];
    lemma_split_layer_order(t.int_column(ColumnId::SegmentId), layer);
    if t.int_column(ColumnId::SegmentId) is Some {
        assert(s == s2);
    }
    if k < k2 {
        assert(grouping[g][s][k] < grouping[g][s][k2]);
    } else if k2 < k {
        assert(grouping[g][s][k2] < grouping[g][s][k]);
    }
}

} // verus!
