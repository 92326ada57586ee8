//! What holds of the transform, stated over the mathematical values and
//! proved.

use vstd::prelude::*;
use crate::catalog::ColumnId;
use crate::flatten::{
    spec_column_of, spec_document_rows, spec_flatten, spec_point_row, spec_rows_before,
};
use crate::scalar::{lemma_marker_is_nan, Double};
use crate::schema::{
    group_points_before, lemma_placed_segment_at, lemma_placed_segments_len, placed_segments,
    placed_segments_before, point_count, points_before, segment_count, segments_before,
    DocumentView, PlacedSegment,
};

verus! {

/// Number of points in the first `m` of the given segments.
pub open spec fn placed_points_before(segments: Seq<PlacedSegment>, m: nat) -> nat
    decreases m,
{
    if m == 0 {
        0
    } else {
        placed_points_before(segments, (m - 1) as nat) + segments[m - 1].segment.points.len()
    }
}

/// The rows of the first `m` segments are as many as their points.
pub proof fn lemma_rows_before_len(segments: Seq<PlacedSegment>, m: nat)
    ensures
        spec_rows_before(segments, m).len() == placed_points_before(segments, m),
    decreases m,
{
    if m > 0 {
        lemma_rows_before_len(segments, (m - 1) as nat);
    }
}

/// The points of the segments that stand before a segment in document order
/// are those of the layers before its own and those of the segments before it
/// in its layer.
pub proof fn lemma_points_before_segment(doc: DocumentView, g: int, s: int)
    requires
        0 <= g < doc.groups.len(),
        0 <= s <= doc.groups[g].segments.len(),
    ensures
        placed_points_before(placed_segments(doc), segments_before(doc, g as nat) + s as nat)
            == points_before(doc, g as nat) + group_points_before(doc.groups[g], s as nat),
    decreases g, s,
{
    let placed = placed_segments(doc);
    if s > 0 {
        lemma_points_before_segment(doc, g, s - 1);
        lemma_placed_segment_at(doc, g, s - 1);
    } else if g > 0 {
        lemma_points_before_segment(doc, g - 1, doc.groups[g - 1].segments.len() as int);
    }
}

/// A flattened document has one row for each of its points: the table is as
/// high as the points of all segments of all layers are many.
pub proof fn lemma_row_count(doc: DocumentView, with_lists: bool)
    ensures
        spec_document_rows(doc).len() == point_count(doc),
        spec_flatten(doc, with_lists).height == point_count(doc),
{
    let placed = placed_segments(doc);
    lemma_placed_segments_len(doc, doc.groups.len());
    lemma_rows_before_len(placed, placed.len());
    if doc.groups.len() > 0 {
        let last = doc.groups.len() - 1;
        lemma_points_before_segment(doc, last, doc.groups[last].segments.len() as int);
    }
}

/// Whether the segment at a place has a point.
pub open spec fn has_points(segments: Seq<PlacedSegment>, j: int) -> bool {
    segments[j].segment.points.len() > 0
}

/// No segment without points stands between two segments with points, in
/// document order.
pub open spec fn no_empty_segment_between(segments: Seq<PlacedSegment>) -> bool {
    forall|a: int, b: int, c: int|
        0 <= a < b < c < segments.len() && #[trigger] has_points(segments, a) && #[trigger] has_points(
            segments,
            c,
        ) ==> #[trigger] has_points(segments, b)
}

/// The segment number of a row names a segment that has points, among the
/// segments flattened so far.
pub proof fn lemma_segment_id_of_row(segments: Seq<PlacedSegment>, m: nat, i: int)
    requires
        m <= segments.len(),
        m <= i32::MAX + 1,
        0 <= i < spec_rows_before(segments, m).len(),
    ensures
        0 <= spec_rows_before(segments, m)[i].segment_id < m,
        has_points(segments, spec_rows_before(segments, m)[i].segment_id as int),
    decreases m,
{
    if m > 0 {
        if i < spec_rows_before(segments, (m - 1) as nat).len() {
            lemma_segment_id_of_row(segments, (m - 1) as nat, i);
        }
    }
}

/// Segment numbers never decrease down the rows.
pub proof fn lemma_segment_ids_ascend(segments: Seq<PlacedSegment>, m: nat, i: int, j: int)
    requires
        m <= segments.len(),
        m <= i32::MAX + 1,
        0 <= i <= j < spec_rows_before(segments, m).len(),
    ensures
        spec_rows_before(segments, m)[i].segment_id <= spec_rows_before(segments, m)[j].segment_id,
    decreases m,
{
    if m > 0 {
        let before = spec_rows_before(segments, (m - 1) as nat);
        if j < before.len() {
            lemma_segment_ids_ascend(segments, (m - 1) as nat, i, j);
        } else if i < before.len() {
            lemma_segment_id_of_row(segments, (m - 1) as nat, i);
        }
    }
}

/// From a row to the next the segment number stays or grows by one, where no
/// segment without points stands between two with points.
pub proof fn lemma_segment_ids_step_before(segments: Seq<PlacedSegment>, m: nat, i: int)
    requires
        m <= segments.len(),
        m <= i32::MAX + 1,
        no_empty_segment_between(segments),
        0 <= i,
        i + 1 < spec_rows_before(segments, m).len(),
    ensures
        spec_rows_before(segments, m)[i + 1].segment_id == spec_rows_before(
            segments,
            m,
        )[i].segment_id || spec_rows_before(segments, m)[i + 1].segment_id == spec_rows_before(
            segments,
            m,
        )[i].segment_id + 1,
    decreases m,
{
    if m > 0 {
        let before = spec_rows_before(segments, (m - 1) as nat);
        if i + 1 < before.len() {
            lemma_segment_ids_step_before(segments, (m - 1) as nat, i);
        } else if i + 1 == before.len() {
            // The row is the last of the segments before, the next the first
            // of this one.
            lemma_segment_id_of_row(segments, (m - 1) as nat, i);
            let q = before[i].segment_id as int;
            assert(has_points(segments, m - 1));
            if q < m - 2 {
                assert(has_points(segments, m - 2));
                let earlier = spec_rows_before(segments, (m - 2) as nat);
                assert(before[before.len() - 1].segment_id == m - 2);
            }
        }
    }
}

/// Down the rows of a flattened document the segment number never
/// decreases.
pub proof fn lemma_segment_ids_never_decrease(doc: DocumentView, with_lists: bool, i: int, j: int)
    requires
        segment_count(doc) <= i32::MAX,
        0 <= i <= j < spec_flatten(doc, with_lists).height,
    ensures
        ({
            let cells = spec_flatten(doc, with_lists).int_column(ColumnId::SegmentId);
            &&& cells matches Some(ids)
            &&& ids[i] matches Some(a)
            &&& ids[j] matches Some(b)
            &&& a <= b
        }),
{
    let placed = placed_segments(doc);
    lemma_placed_segments_len(doc, doc.groups.len());
    lemma_segment_ids_ascend(placed, placed.len(), i, j);
}

/// From each row of a flattened document to the next the segment number
/// stays or grows by exactly one, provided that no segment without points
/// stands between two segments with points. (A segment without points uses up
/// a number and has no row to show it.)
pub proof fn lemma_segment_ids_step(doc: DocumentView, with_lists: bool, i: int)
    requires
        segment_count(doc) <= i32::MAX,
        no_empty_segment_between(placed_segments(doc)),
        0 <= i,
        i + 1 < spec_flatten(doc, with_lists).height,
    ensures
        ({
            let cells = spec_flatten(doc, with_lists).int_column(ColumnId::SegmentId);
            &&& cells matches Some(ids)
            &&& ids[i] matches Some(a)
            &&& ids[i + 1] matches Some(b)
            &&& (b == a || b == a + 1)
        }),
{
    let placed = placed_segments(doc);
    lemma_placed_segments_len(doc, doc.groups.len());
    lemma_segment_ids_step_before(placed, placed.len(), i);
}

/// Where the rows of a segment stand among the rows of the segments
/// flattened so far: after the rows of the segments before it, point by
/// point.
pub proof fn lemma_row_of_point(segments: Seq<PlacedSegment>, m: nat, j: int, p: int)
    requires
        0 <= j < m <= segments.len(),
        0 <= p < segments[j].segment.points.len(),
    ensures
        spec_rows_before(segments, j as nat).len() + p < spec_rows_before(segments, m).len(),
        spec_rows_before(segments, m)[spec_rows_before(segments, j as nat).len() + p]
            == spec_point_row(
            segments[j].layer_index,
            j as i32,
            segments[j].segment,
            segments[j].segment.points[p],
        ),
    decreases m,
{
    if j < m - 1 {
        lemma_row_of_point(segments, (m - 1) as nat, j, p);
    }
}

/// The row of a point: as many rows stand before it as points come before
/// the point in the walk.
pub open spec fn spec_row_index(doc: DocumentView, g: int, s: int, p: int) -> int {
    points_before(doc, g as nat) + group_points_before(doc.groups[g], s as nat) + p
}

/// The row of a point of a document holds the point's values, the settings
/// of its segment, the index of its layer and the number of its segment in
/// document order.
pub proof fn lemma_document_row(doc: DocumentView, g: int, s: int, p: int)
    requires
        0 <= g < doc.groups.len(),
        0 <= s < doc.groups[g].segments.len(),
        0 <= p < doc.groups[g].segments[s].points.len(),
    ensures
        0 <= spec_row_index(doc, g, s, p) < spec_document_rows(doc).len(),
        spec_document_rows(doc)[spec_row_index(doc, g, s, p)] == spec_point_row(
            doc.groups[g].layer_index,
            (segments_before(doc, g as nat) + s) as i32,
            doc.groups[g].segments[s],
            doc.groups[g].segments[s].points[p],
        ),
{
    let placed = placed_segments(doc);
    let j = segments_before(doc, g as nat) + s;
    lemma_placed_segment_at(doc, g, s);
    lemma_points_before_segment(doc, g, s);
    lemma_rows_before_len(placed, j as nat);
    lemma_row_of_point(placed, placed.len(), j, p);
}

/// A point without an orientation flattens to the marker, a not-a-number, in
/// each of the four orientation columns of its row.
pub proof fn lemma_absent_orientation_flattens_to_nan(
    doc: DocumentView,
    with_lists: bool,
    g: int,
    s: int,
    p: int,
)
    requires
        0 <= g < doc.groups.len(),
        0 <= s < doc.groups[g].segments.len(),
        0 <= p < doc.groups[g].segments[s].points.len(),
        doc.groups[g].segments[s].points[p].orientation is None,
    ensures
        ({
            let table = spec_flatten(doc, with_lists);
            let row = spec_row_index(doc, g, s, p);
            &&& 0 <= row < table.height
            &&& table.double_cell(ColumnId::OrientationX, row) == Some(Double::spec_nan())
            &&& table.double_cell(ColumnId::OrientationY, row) == Some(Double::spec_nan())
            &&& table.double_cell(ColumnId::OrientationZ, row) == Some(Double::spec_nan())
            &&& table.double_cell(ColumnId::OrientationW, row) == Some(Double::spec_nan())
            &&& Double::spec_nan().spec_is_nan()
        }),
{
    lemma_document_row(doc, g, s, p);
    lemma_marker_is_nan();
}

/// Between a row whose segment number is below a bound and a later row whose
/// segment number is above it, where no row has the bound for its number, two
/// neighbours stand on either side of the bound.
pub proof fn lemma_rows_cross_a_number(
    segments: Seq<PlacedSegment>,
    m: nat,
    lo: int,
    hi: int,
    b: int,
) -> (i: int)
    requires
        m <= segments.len(),
        m <= i32::MAX + 1,
        0 <= lo < hi < spec_rows_before(segments, m).len(),
        spec_rows_before(segments, m)[lo].segment_id < b,
        b < spec_rows_before(segments, m)[hi].segment_id,
        0 <= b < segments.len(),
        !has_points(segments, b),
    ensures
        lo <= i < hi,
        spec_rows_before(segments, m)[i].segment_id < b,
        b < spec_rows_before(segments, m)[i + 1].segment_id,
    decreases hi - lo,
{
    let rows = spec_rows_before(segments, m);
    lemma_segment_id_of_row(segments, m, lo + 1);
    if rows[lo + 1].segment_id > b {
        lo
    } else {
        lemma_rows_cross_a_number(segments, m, lo + 1, hi, b)
    }
}

/// Where a segment without points does stand between two segments with
/// points, the segment number skips: some row's number is more than one above
/// that of the row before it.
pub proof fn lemma_segment_ids_skip(doc: DocumentView, with_lists: bool) -> (i: int)
    requires
        segment_count(doc) <= i32::MAX,
        !no_empty_segment_between(placed_segments(doc)),
    ensures
        0 <= i,
        i + 1 < spec_flatten(doc, with_lists).height,
        ({
            let cells = spec_flatten(doc, with_lists).int_column(ColumnId::SegmentId);
            &&& cells matches Some(ids)
            &&& ids[i] matches Some(a)
            &&& ids[i + 1] matches Some(b)
            &&& b > a + 1
        }),
{
    let placed = placed_segments(doc);
    lemma_placed_segments_len(doc, doc.groups.len());
    let (a, b, c) = choose|a: int, b: int, c: int|
        0 <= a < b < c < placed.len() && #[trigger] has_points(placed, a) && #[trigger] has_points(
            placed,
            c,
        ) && !#[trigger] has_points(placed, b);
    lemma_row_of_point(placed, placed.len(), a, 0);
    lemma_row_of_point(placed, placed.len(), c, 0);
    let lo = spec_rows_before(placed, a as nat).len() as int;
    let hi = spec_rows_before(placed, c as nat).len() as int;
    if hi <= lo {
        lemma_segment_ids_ascend(placed, placed.len(), hi, lo);
    }
    lemma_rows_cross_a_number(placed, placed.len(), lo, hi, b)
}

/// The cells of a row of a flattened document are the row's values.
pub proof fn lemma_flattened_cells(doc: DocumentView, with_lists: bool, i: int)
    requires
        0 <= i < spec_document_rows(doc).len(),
    ensures
        forall|id: ColumnId|
            id.spec_kind() == crate::catalog::ColumnKind::Int32 ==> #[trigger] spec_flatten(
                doc,
                with_lists,
            ).int_cell(id, i) == Some(spec_document_rows(doc)[i].int_cell(id)),
        forall|id: ColumnId|
            id.spec_kind() == crate::catalog::ColumnKind::Float32 ==> #[trigger] spec_flatten(
                doc,
                with_lists,
            ).single_cell(id, i) == Some(spec_document_rows(doc)[i].single_cell(id)),
        forall|id: ColumnId|
            id.spec_kind() == crate::catalog::ColumnKind::Float64 ==> #[trigger] spec_flatten(
                doc,
                with_lists,
            ).double_cell(id, i) == Some(spec_document_rows(doc)[i].double_cell(id)),
{
    let t = spec_flatten(doc, with_lists);
    let rows = spec_document_rows(doc);
    assert forall|id: ColumnId| !id.spec_is_list() implies #[trigger] t.columns[id]
        == spec_column_of(rows, id) && t.columns.contains_key(id) by {}
    assert forall|id: ColumnId|
        id.spec_kind() == crate::catalog::ColumnKind::Int32 implies #[trigger] t.int_cell(id, i)
        == Some(rows[i].int_cell(id)) by {
        assert(!id.spec_is_list());
        assert(t.columns[id] == spec_column_of(rows, id));
    }
    assert forall|id: ColumnId|
        id.spec_kind() == crate::catalog::ColumnKind::Float32 implies #[trigger] t.single_cell(
            id,
            i,
        ) == Some(rows[i].single_cell(id)) by {
        assert(!id.spec_is_list());
        assert(t.columns[id] == spec_column_of(rows, id));
    }
    assert forall|id: ColumnId|
        id.spec_kind() == crate::catalog::ColumnKind::Float64 implies #[trigger] t.double_cell(
            id,
            i,
        ) == Some(rows[i].double_cell(id)) by {
        assert(!id.spec_is_list());
        assert(t.columns[id] == spec_column_of(rows, id));
    }
}

/// The row of a point holds, in the two key columns, the index of the
/// point's layer and the number of its segment in document order: as many
/// segments stand before it in the whole document, whichever layer holds
/// them.
pub proof fn lemma_keys_of_point(doc: DocumentView, with_lists: bool, g: int, s: int, p: int)
    requires
        segment_count(doc) <= i32::MAX,
        0 <= g < doc.groups.len(),
        0 <= s < doc.groups[g].segments.len(),
        0 <= p < doc.groups[g].segments[s].points.len(),
    ensures
        ({
            let table = spec_flatten(doc, with_lists);
            let row = spec_row_index(doc, g, s, p);
            &&& 0 <= row < table.height
            &&& table.int_cell(ColumnId::LayerIndex, row) == Some(doc.groups[g].layer_index)
            &&& table.int_cell(ColumnId::SegmentId, row) matches Some(id)
            &&& id == segments_before(doc, g as nat) + s
        }),
{
    lemma_document_row(doc, g, s, p);
    lemma_flattened_cells(doc, with_lists, spec_row_index(doc, g, s, p));
    lemma_placed_segment_at(doc, g, s);
}

/// A point with an orientation flattens to the components of the
/// orientation as they are.
pub proof fn lemma_present_orientation_flattens_verbatim(
    doc: DocumentView,
    with_lists: bool,
    g: int,
    s: int,
    p: int,
)
    requires
        0 <= g < doc.groups.len(),
        0 <= s < doc.groups[g].segments.len(),
        0 <= p < doc.groups[g].segments[s].points.len(),
        doc.groups[g].segments[s].points[p].orientation is Some,
    ensures
        ({
            let table = spec_flatten(doc, with_lists);
            let row = spec_row_index(doc, g, s, p);
            let q = doc.groups[g].segments[s].points[p].orientation->0;
            &&& 0 <= row < table.height
            &&& table.double_cell(ColumnId::OrientationX, row) == Some(q.x)
            &&& table.double_cell(ColumnId::OrientationY, row) == Some(q.y)
            &&& table.double_cell(ColumnId::OrientationZ, row) == Some(q.z)
            &&& table.double_cell(ColumnId::OrientationW, row) == Some(q.w)
        }),
{
    lemma_document_row(doc, g, s, p);
    lemma_flattened_cells(doc, with_lists, spec_row_index(doc, g, s, p));
}

/// Whether each segment of a document has a point.
pub open spec fn spec_segments_have_points(doc: DocumentView) -> bool {
    forall|g: int, s: int|
        0 <= g < doc.groups.len() && 0 <= s < doc.groups[g].segments.len() ==> (
        #[trigger] doc.groups[g].segments[s]).points.len() > 0
}

/// Where each segment of a document has a point, so has each segment in
/// document order.
pub proof fn lemma_placed_segments_have_points(doc: DocumentView, n: nat, j: int)
    requires
        spec_segments_have_points(doc),
        n <= doc.groups.len(),
        0 <= j < placed_segments_before(doc, n).len(),
    ensures
        has_points(placed_segments_before(doc, n), j),
    decreases n,
{
    if n > 0 {
        let before = placed_segments_before(doc, (n - 1) as nat);
        if j < before.len() {
            lemma_placed_segments_have_points(doc, (n - 1) as nat, j);
        } else {
            let group = doc.groups[n - 1];
            assert(group.segments[j - before.len()].points.len() > 0);
        }
    }
}

/// In a document of which each segment has a point, the first row has the
/// segment number zero, and from each row to the next the segment number
/// stays, within a segment, or grows by exactly one, where the next segment
/// begins, in the same layer or in the next.
pub proof fn lemma_segment_ids_count_up(doc: DocumentView, with_lists: bool, i: int)
    requires
        segment_count(doc) <= i32::MAX,
        spec_segments_have_points(doc),
        0 <= i,
        i + 1 < spec_flatten(doc, with_lists).height,
    ensures
        ({
            let cells = spec_flatten(doc, with_lists).int_column(ColumnId::SegmentId);
            &&& cells matches Some(ids)
            &&& ids[0] == Some(0i32)
            &&& ids[i] matches Some(a)
            &&& ids[i + 1] matches Some(b)
            &&& (b == a || b == a + 1)
        }),
{
    let placed = placed_segments(doc);
    lemma_placed_segments_len(doc, doc.groups.len());
    assert forall|a: int, b: int, c: int|
        0 <= a < b < c < placed.len() && #[trigger] has_points(placed, a) && #[trigger] has_points(
            placed,
            c,
        ) implies #[trigger] has_points(placed, b) by {
        lemma_placed_segments_have_points(doc, doc.groups.len(), b);
    }
    lemma_segment_ids_step(doc, with_lists, i);
    lemma_segment_id_of_row(placed, placed.len(), 0);
    lemma_placed_segments_have_points(doc, doc.groups.len(), 0);
    lemma_row_of_point(placed, placed.len(), 0, 0);
}

} // verus!
