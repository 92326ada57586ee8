//! What holds of a document that is flattened and rebuilt.

use vstd::prelude::*;
use crate::catalog::ColumnId;
use crate::error::RebuildError;
use crate::flatten::{
    spec_column_of, spec_document_rows, spec_flatten, spec_quaternion_or_nan, spec_vector_or_nan,
};
use crate::flatten_laws::{
    lemma_absent_orientation_flattens_to_nan, lemma_document_row, lemma_flattened_cells,
    lemma_row_count, spec_row_index,
};
use crate::partition::{
    first_seen, lemma_rows_with_unseen, rows_with, stable_partition, ROW_LIMIT,
};
use crate::rebuild::{
    lemma_grouping_valid, spec_column_fault, spec_document_of, spec_first_fault, spec_group_of,
    spec_grouping, spec_point_of, spec_rebuild, spec_required_columns, spec_segment_of,
    spec_split_layer,
};
use crate::rebuild_laws::{
    lemma_first_fault, lemma_rebuild_ok, lemma_rebuilt_point, spec_rebuilt_grouping,
};
use crate::scalar::{Double, Single};
use crate::schema::{
    group_point_count, group_points_before, point_count, points_before, segment_count,
    segments_before, DocumentView, GroupView, Parameters, PointView, Quaternion, SegmentView,
};

verus! {

/// A flattened document is a table that the rebuild accepts: each column is
/// as long as the table is high, each column that the rebuild reads is there
/// and of its kind.
pub proof fn lemma_flattened_table_rebuilds(doc: DocumentView, with_lists: bool)
    ensures
        spec_flatten(doc, with_lists).wf(),
        forall|id: ColumnId|
            with_lists || !id.spec_is_list() ==> #[trigger] spec_column_fault(
                spec_flatten(doc, with_lists),
                id,
            ) is None,
        spec_first_fault(spec_flatten(doc, with_lists), spec_required_columns()) is None,
        spec_flatten(doc, with_lists).height < ROW_LIMIT ==> spec_rebuild(
            spec_flatten(doc, with_lists),
        ) is Ok,
{
    let t = spec_flatten(doc, with_lists);
    let rows = spec_document_rows(doc);
    assert forall|id: ColumnId| #[trigger] t.columns.contains_key(id) implies t.columns[id].len()
        == t.height by {
        assert(t.columns[id] == spec_column_of(rows, id));
    }
    assert forall|id: ColumnId| with_lists || !id.spec_is_list() implies #[trigger] spec_column_fault(
        t,
        id,
    ) is None by {
        assert(t.columns[id] == spec_column_of(rows, id));
    }
    let required = spec_required_columns();
    assert forall|k: int| 0 <= k < required.len() implies spec_column_fault(
        t,
        #[trigger] required[k],
    ) is None by {
        assert(!required[k].spec_is_list());
    }
    lemma_first_fault(t, required);
    assert(spec_column_fault(t, ColumnId::LayerIndex) is None);
    assert(spec_column_fault(t, ColumnId::SegmentId) is None);
    if t.height > 0 {
        lemma_grouping_valid(
            t.int_column(ColumnId::LayerIndex)->0,
            t.int_column(ColumnId::SegmentId),
        );
    }
}

/// A point without an orientation comes back from the table with an
/// orientation whose four components are the marker, a not-a-number: at the
/// place of the rebuilt document that is made from the point's row.
pub proof fn lemma_absent_orientation_round_trip(
    doc: DocumentView,
    with_lists: bool,
    g: int,
    s: int,
    p: int,
    a: int,
    b: int,
    c: int,
)
    requires
        0 <= g < doc.groups.len(),
        0 <= s < doc.groups[g].segments.len(),
        0 <= p < doc.groups[g].segments[s].points.len(),
        doc.groups[g].segments[s].points[p].orientation is None,
        spec_flatten(doc, with_lists).height < ROW_LIMIT,
        0 <= a < spec_rebuilt_grouping(spec_flatten(doc, with_lists)).len(),
        0 <= b < spec_rebuilt_grouping(spec_flatten(doc, with_lists))[a].len(),
        0 <= c < spec_rebuilt_grouping(spec_flatten(doc, with_lists))[a][b].len(),
        spec_rebuilt_grouping(spec_flatten(doc, with_lists))[a][b][c] == spec_row_index(
            doc,
            g,
            s,
            p,
        ),
    ensures
        spec_rebuild(spec_flatten(doc, with_lists)) is Ok,
        spec_rebuild(spec_flatten(doc, with_lists))->Ok_0.groups[a].segments[b].points[c].orientation
            == Some(
            Quaternion {
                x: Double::spec_nan(),
                y: Double::spec_nan(),
                z: Double::spec_nan(),
                w: Double::spec_nan(),
            },
        ),
        Double::spec_nan().spec_is_nan(),
{
    lemma_flattened_table_rebuilds(doc, with_lists);
    lemma_absent_orientation_flattens_to_nan(doc, with_lists, g, s, p);
    lemma_rebuilt_point(spec_flatten(doc, with_lists), a, b, c);
}

/// The places `start .. start + len`.
pub open spec fn range(start: int, len: nat) -> Seq<int> {
    Seq::new(len, |k: int| start + k)
}

/// What one more run of equal keys does to the partition: the key joins the
/// distinct keys unless it stood among them, its places grow by the places
/// of the run, and the places of every other key stay.
pub proof fn lemma_run(keys: Seq<Option<i32>>, a: int, c: nat, x: Option<i32>)
    requires
        0 <= a,
        a + c <= keys.len(),
        forall|p: int| a <= p < a + c ==> keys[p] == x,
    ensures
        first_seen(keys.take(a + c)) == (if c == 0 || first_seen(keys.take(a)).contains(x) {
            first_seen(keys.take(a))
        } else {
            first_seen(keys.take(a)).push(x)
        }),
        rows_with(keys.take(a + c), x) == rows_with(keys.take(a), x) + range(a, c),
        forall|k: Option<i32>|
            k != x ==> #[trigger] rows_with(keys.take(a + c), k) == rows_with(keys.take(a), k),
    decreases c,
{
    if c == 0 {
        assert(rows_with(keys.take(a), x) + range(a, 0) =~= rows_with(keys.take(a), x));
    } else {
        lemma_run(keys, a, (c - 1) as nat, x);
        let longer = keys.take(a + c);
        let shorter = keys.take(a + c - 1);
        let start = first_seen(keys.take(a));
        assert(longer.drop_last() =~= shorter);
        assert(longer.last() == x);
        if c > 1 {
            if !start.contains(x) {
                assert(start.push(x)[start.len() as int] == x);
            }
            assert(first_seen(shorter).contains(x));
        }
        assert(rows_with(longer, x) =~= rows_with(keys.take(a), x) + range(a, c));
        assert forall|k: Option<i32>| k != x implies #[trigger] rows_with(longer, k) == rows_with(
            keys.take(a),
            k,
        ) by {
            assert(rows_with(shorter, k) == rows_with(keys.take(a), k));
        }
    }
}

/// Whether a document comes back from the table with the layers, segments
/// and points it had: its segments and its points can be numbered, no layer
/// is without a segment, no segment without a point, and no two layers share
/// a layer index.
pub open spec fn spec_keeps_its_shape(doc: DocumentView) -> bool {
    &&& segment_count(doc) <= i32::MAX
    &&& point_count(doc) < ROW_LIMIT
    &&& forall|g: int| 0 <= g < doc.groups.len() ==> (#[trigger] doc.groups[g]).segments.len() > 0
    &&& forall|g: int, s: int|
        0 <= g < doc.groups.len() && 0 <= s < doc.groups[g].segments.len() ==> (
        #[trigger] doc.groups[g].segments[s]).points.len() > 0
    &&& forall|g: int, h: int|
        0 <= g < h < doc.groups.len() ==> (#[trigger] doc.groups[g]).layer_index != (
        #[trigger] doc.groups[h]).layer_index
}

/// What the table keeps of a point: its vectors, each present and with the
/// marker where it was absent, its deposition and speed, and no list.
pub open spec fn spec_kept_point(p: PointView) -> PointView {
    PointView {
        position: Some(spec_vector_or_nan(p.position)),
        direction: Some(spec_vector_or_nan(p.direction)),
        orientation: Some(spec_quaternion_or_nan(p.orientation)),
        external_axes: Seq::empty(),
        deposition: p.deposition,
        speed: p.speed,
        fans: Seq::empty(),
        user_events: Seq::empty(),
    }
}

/// What the table keeps of a segment: all but the process flag and the end
/// delay.
pub open spec fn spec_kept_segment(s: SegmentView) -> SegmentView {
    SegmentView {
        points: Seq::new(s.points.len(), |k: int| spec_kept_point(s.points[k])),
        process_on: false,
        segment_type: s.segment_type,
        process_on_delay: s.process_on_delay,
        process_off_delay: s.process_off_delay,
        start_delay: s.start_delay,
        end_delay: Single::spec_zero(),
        speed_tcp: s.speed_tcp,
        equipment_id: s.equipment_id,
        tool_id: s.tool_id,
        material_id: s.material_id,
    }
}

/// What the table keeps of a layer.
pub open spec fn spec_kept_group(g: GroupView) -> GroupView {
    GroupView {
        layer_index: g.layer_index,
        segments: Seq::new(g.segments.len(), |s: int| spec_kept_segment(g.segments[s])),
    }
}

/// What the table keeps of a document: its layers, and a configuration of
/// zeros.
pub open spec fn spec_kept(doc: DocumentView) -> DocumentView {
    DocumentView {
        parameters: seq![Parameters::spec_zeroed()],
        groups: Seq::new(doc.groups.len(), |g: int| spec_kept_group(doc.groups[g])),
    }
}

/// The layer indices down the rows of a flattened document.
pub open spec fn spec_layer_keys(doc: DocumentView) -> Seq<Option<i32>> {
    Seq::new(
        spec_document_rows(doc).len(),
        |i: int| Some(spec_document_rows(doc)[i].layer_index),
    )
}

/// The segment numbers down the rows of a flattened document.
pub open spec fn spec_segment_keys(doc: DocumentView) -> Seq<Option<i32>> {
    Seq::new(
        spec_document_rows(doc).len(),
        |i: int| Some(spec_document_rows(doc)[i].segment_id),
    )
}

/// The points of the segments before a segment of a layer, and with them
/// the segment's own, are among the points of the layer.
pub proof fn lemma_group_points_monotonic(group: GroupView, a: nat, b: nat)
    requires
        a <= b,
    ensures
        group_points_before(group, a) <= group_points_before(group, b),
    decreases b,
{
    if a < b {
        lemma_group_points_monotonic(group, a, (b - 1) as nat);
    }
}

/// The key of a layer in the column of layer indices.
pub open spec fn spec_layer_key(doc: DocumentView, g: int) -> Option<i32> {
    Some(doc.groups[g].layer_index)
}

/// The key of a segment of a layer in the column of segment numbers.
pub open spec fn spec_segment_key(doc: DocumentView, g: int, s: int) -> Option<i32> {
    Some((segments_before(doc, g as nat) + s) as i32)
}

/// The rows of a layer.
pub open spec fn spec_layer_rows(doc: DocumentView, g: int) -> Seq<int> {
    range(points_before(doc, g as nat) as int, group_point_count(doc.groups[g]))
}

/// The rows of a segment, counted from the first row of its layer.
pub open spec fn spec_segment_places(doc: DocumentView, g: int, s: int) -> Seq<int> {
    range(
        group_points_before(doc.groups[g], s as nat) as int,
        doc.groups[g].segments[s].points.len(),
    )
}

/// The keys by which a layer of a flattened document is split: the segment
/// numbers down the layer's rows.
pub open spec fn spec_local_keys(doc: DocumentView, g: int) -> Seq<Option<i32>> {
    Seq::new(
        group_point_count(doc.groups[g]),
        |j: int| spec_segment_keys(doc)[points_before(doc, g as nat) + j],
    )
}

/// The rows of a segment stand together: each holds the key of the
/// segment's layer and the key of the segment.
pub proof fn lemma_segment_block(doc: DocumentView, g: int, s: int)
    requires
        0 <= g < doc.groups.len(),
        0 <= s < doc.groups[g].segments.len(),
    ensures
        spec_row_index(doc, g, s, 0) + doc.groups[g].segments[s].points.len() <= spec_layer_keys(
            doc,
        ).len(),
        group_points_before(doc.groups[g], s as nat) + doc.groups[g].segments[s].points.len()
            <= group_point_count(doc.groups[g]),
        forall|i: int|
            spec_row_index(doc, g, s, 0) <= i < spec_row_index(doc, g, s, 0)
                + doc.groups[g].segments[s].points.len() ==> #[trigger] spec_layer_keys(doc)[i]
                == spec_layer_key(doc, g),
        forall|j: int|
            group_points_before(doc.groups[g], s as nat) <= j < group_points_before(
                doc.groups[g],
                s as nat,
            ) + doc.groups[g].segments[s].points.len() ==> #[trigger] spec_local_keys(doc, g)[j]
                == spec_segment_key(doc, g, s),
{
    let count = doc.groups[g].segments[s].points.len() as int;
    let first = spec_row_index(doc, g, s, 0);
    lemma_group_points_monotonic(doc.groups[g], (s + 1) as nat, doc.groups[g].segments.len());
    if count > 0 {
        lemma_document_row(doc, g, s, count - 1);
    } else {
        lemma_row_count(doc, false);
        lemma_points_monotonic(doc, (g + 1) as nat, doc.groups.len());
    }
    assert forall|i: int| first <= i < first + count implies #[trigger] spec_layer_keys(doc)[i]
        == spec_layer_key(doc, g) by {
        lemma_document_row(doc, g, s, i - first);
    }
    let inner = group_points_before(doc.groups[g], s as nat) as int;
    assert forall|j: int| inner <= j < inner + count implies #[trigger] spec_local_keys(doc, g)[j]
        == spec_segment_key(doc, g, s) by {
        lemma_document_row(doc, g, s, j - inner);
    }
}

/// The count of points only grows along the layers.
pub proof fn lemma_points_monotonic(doc: DocumentView, a: nat, b: nat)
    requires
        a <= b,
    ensures
        points_before(doc, a) <= points_before(doc, b),
    decreases b,
{
    if a < b {
        lemma_points_monotonic(doc, a, (b - 1) as nat);
    }
}

/// How far the rows of a document have run layer by layer, down to a
/// segment of a layer: the distinct layer indices are those of the layers
/// begun, each earlier layer has its rows in one run, and the layer of the
/// segment has its rows so far in one run.
pub open spec fn spec_layer_runs(doc: DocumentView, g: int, s: int) -> bool {
    let keys = spec_layer_keys(doc);
    let upto = points_before(doc, g as nat) + group_points_before(doc.groups[g], s as nat);
    let begun = if s > 0 {
        g + 1
    } else {
        g
    };
    &&& upto <= keys.len()
    &&& first_seen(keys.take(upto as int)) == Seq::new(
        begun as nat,
        |h: int| spec_layer_key(doc, h),
    )
    &&& forall|h: int|
        0 <= h < g ==> #[trigger] rows_with(keys.take(upto as int), spec_layer_key(doc, h))
            == spec_layer_rows(doc, h)
    &&& s > 0 ==> rows_with(keys.take(upto as int), spec_layer_key(doc, g)) == range(
        points_before(doc, g as nat) as int,
        group_points_before(doc.groups[g], s as nat),
    )
}

/// The key of a layer differs from the keys of the layers before it.
pub proof fn lemma_layer_key_is_new(doc: DocumentView, g: int)
    requires
        spec_keeps_its_shape(doc),
        0 <= g < doc.groups.len(),
    ensures
        !Seq::new(g as nat, |h: int| spec_layer_key(doc, h)).contains(spec_layer_key(doc, g)),
        forall|h: int| 0 <= h < g ==> spec_layer_key(doc, h) != spec_layer_key(doc, g),
{
    assert forall|h: int| 0 <= h < g implies spec_layer_key(doc, h) != spec_layer_key(doc, g) by {
        assert(doc.groups[h].layer_index != doc.groups[g].layer_index);
    }
    let earlier = Seq::new(g as nat, |h: int| spec_layer_key(doc, h));
    if earlier.contains(spec_layer_key(doc, g)) {
        let h = choose|h: int| 0 <= h < earlier.len() && earlier[h] == spec_layer_key(doc, g);
        assert(spec_layer_key(doc, h) != spec_layer_key(doc, g));
    }
}

/// The rows of the first segment of a layer begin the layer's run.
#[verifier::rlimit(40)]
pub proof fn lemma_layer_runs_begin(doc: DocumentView, g: int)
    requires
        spec_keeps_its_shape(doc),
        0 <= g < doc.groups.len(),
        spec_layer_runs(doc, g, 0),
    ensures
        spec_layer_runs(doc, g, 1),
{
    let keys = spec_layer_keys(doc);
    let x = spec_layer_key(doc, g);
    let a: int = points_before(doc, g as nat) as int;
    assert(doc.groups[g].segments.len() > 0);
    let c = doc.groups[g].segments[0].points.len();
    lemma_segment_block(doc, g, 0);
    lemma_run(keys, a, c, x);
    lemma_layer_key_is_new(doc, g);
    lemma_rows_with_unseen(keys.take(a), x);
    assert(doc.groups[g].segments[0].points.len() > 0);
    let before = first_seen(keys.take(a));
    assert(first_seen(keys.take(a + c)) == before.push(x));
    assert(before.push(x) =~= Seq::new((g + 1) as nat, |h: int| spec_layer_key(doc, h)));
    assert(rows_with(keys.take(a + c), x) =~= range(a, c));
    assert forall|h: int| 0 <= h < g implies #[trigger] rows_with(
        keys.take(a + c),
        spec_layer_key(doc, h),
    ) == spec_layer_rows(doc, h) by {
        assert(rows_with(keys.take(a), spec_layer_key(doc, h)) == spec_layer_rows(doc, h));
    }
}

/// The rows of a later segment of a layer lengthen the layer's run.
#[verifier::rlimit(40)]
pub proof fn lemma_layer_runs_go_on(doc: DocumentView, g: int, s: int)
    requires
        spec_keeps_its_shape(doc),
        0 <= g < doc.groups.len(),
        1 <= s < doc.groups[g].segments.len(),
        spec_layer_runs(doc, g, s),
    ensures
        spec_layer_runs(doc, g, s + 1),
{
    let keys = spec_layer_keys(doc);
    let x = spec_layer_key(doc, g);
    let start: int = points_before(doc, g as nat) as int;
    let sofar = group_points_before(doc.groups[g], s as nat);
    let a: int = start + sofar;
    let c = doc.groups[g].segments[s].points.len();
    lemma_segment_block(doc, g, s);
    lemma_run(keys, a, c, x);
    lemma_layer_key_is_new(doc, g);
    let before = first_seen(keys.take(a));
    assert(before[g] == x);
    assert(before.contains(x));
    assert(first_seen(keys.take(a + c)) == before);
    assert(range(start, sofar) + range(a, c) =~= range(start, sofar + c));
    assert forall|h: int| 0 <= h < g implies #[trigger] rows_with(
        keys.take(a + c),
        spec_layer_key(doc, h),
    ) == spec_layer_rows(doc, h) by {
        assert(rows_with(keys.take(a), spec_layer_key(doc, h)) == spec_layer_rows(doc, h));
    }
}

/// Where a layer ends, the next begins.
pub proof fn lemma_layer_runs_next(doc: DocumentView, g: int)
    requires
        spec_keeps_its_shape(doc),
        0 < g < doc.groups.len(),
        spec_layer_runs(doc, g - 1, doc.groups[g - 1].segments.len() as int),
    ensures
        spec_layer_runs(doc, g, 0),
{
    let keys = spec_layer_keys(doc);
    assert(doc.groups[g - 1].segments.len() > 0);
    let upto = points_before(doc, g as nat) as int;
    assert(upto == points_before(doc, (g - 1) as nat) + group_points_before(
        doc.groups[g - 1],
        doc.groups[g - 1].segments.len(),
    ));
    assert forall|h: int| 0 <= h < g implies #[trigger] rows_with(
        keys.take(upto),
        spec_layer_key(doc, h),
    ) == spec_layer_rows(doc, h) by {
        if h < g - 1 {
            assert(rows_with(keys.take(upto), spec_layer_key(doc, h)) == spec_layer_rows(doc, h));
        }
    }
}

/// The rows of a document that keeps its shape run layer by layer.
pub proof fn lemma_layer_runs(doc: DocumentView, g: int, s: int)
    requires
        spec_keeps_its_shape(doc),
        0 <= g < doc.groups.len(),
        0 <= s <= doc.groups[g].segments.len(),
    ensures
        spec_layer_runs(doc, g, s),
    decreases g, s,
{
    if s > 1 {
        lemma_layer_runs(doc, g, s - 1);
        lemma_layer_runs_go_on(doc, g, s - 1);
    } else if s == 1 {
        lemma_layer_runs(doc, g, 0);
        lemma_layer_runs_begin(doc, g);
    } else if g > 0 {
        lemma_layer_runs(doc, g - 1, doc.groups[g - 1].segments.len() as int);
        lemma_layer_runs_next(doc, g);
    } else {
        let keys = spec_layer_keys(doc);
        assert(first_seen(keys.take(0)) =~= Seq::new(0, |h: int| spec_layer_key(doc, h)));
    }
}

/// How far the rows of a layer have run segment by segment, down to a
/// segment: the distinct segment numbers are those of the segments before it,
/// and each of them has its rows in one run.
pub open spec fn spec_segment_runs(doc: DocumentView, g: int, s: int) -> bool {
    let keys = spec_local_keys(doc, g);
    let upto = group_points_before(doc.groups[g], s as nat);
    &&& upto <= keys.len()
    &&& first_seen(keys.take(upto as int)) == Seq::new(
        s as nat,
        |q: int| spec_segment_key(doc, g, q),
    )
    &&& forall|q: int|
        0 <= q < s ==> #[trigger] rows_with(keys.take(upto as int), spec_segment_key(doc, g, q))
            == spec_segment_places(doc, g, q)
}

/// The key of a segment differs from the keys of the segments before it in
/// its layer.
pub proof fn lemma_segment_key_is_new(doc: DocumentView, g: int, s: int)
    requires
        segment_count(doc) <= i32::MAX,
        0 <= g < doc.groups.len(),
        0 <= s < doc.groups[g].segments.len(),
    ensures
        !Seq::new(s as nat, |q: int| spec_segment_key(doc, g, q)).contains(
            spec_segment_key(doc, g, s),
        ),
        forall|q: int| 0 <= q < s ==> spec_segment_key(doc, g, q) != spec_segment_key(doc, g, s),
{
    crate::schema::lemma_placed_segment_at(doc, g, s);
    let earlier = Seq::new(s as nat, |q: int| spec_segment_key(doc, g, q));
    if earlier.contains(spec_segment_key(doc, g, s)) {
        let q = choose|q: int| 0 <= q < earlier.len() && earlier[q] == spec_segment_key(doc, g, s);
        assert(spec_segment_key(doc, g, q) != spec_segment_key(doc, g, s));
    }
}

/// The rows of one more segment are one more run of the layer.
#[verifier::rlimit(40)]
pub proof fn lemma_segment_runs_go_on(doc: DocumentView, g: int, s: int)
    requires
        spec_keeps_its_shape(doc),
        0 <= g < doc.groups.len(),
        0 <= s < doc.groups[g].segments.len(),
        spec_segment_runs(doc, g, s),
    ensures
        spec_segment_runs(doc, g, s + 1),
{
    let keys = spec_local_keys(doc, g);
    let x = spec_segment_key(doc, g, s);
    let a: int = group_points_before(doc.groups[g], s as nat) as int;
    let c = doc.groups[g].segments[s].points.len();
    lemma_segment_block(doc, g, s);
    lemma_run(keys, a, c, x);
    lemma_segment_key_is_new(doc, g, s);
    lemma_rows_with_unseen(keys.take(a), x);
    assert(doc.groups[g].segments[s].points.len() > 0);
    let before = first_seen(keys.take(a));
    assert(first_seen(keys.take(a + c)) == before.push(x));
    assert(before.push(x) =~= Seq::new((s + 1) as nat, |q: int| spec_segment_key(doc, g, q)));
    assert(rows_with(keys.take(a + c), x) =~= range(a, c));
    assert forall|q: int| 0 <= q < s + 1 implies #[trigger] rows_with(
        keys.take(a + c),
        spec_segment_key(doc, g, q),
    ) == spec_segment_places(doc, g, q) by {
        if q < s {
            assert(rows_with(keys.take(a), spec_segment_key(doc, g, q)) == spec_segment_places(
                doc,
                g,
                q,
            ));
        }
    }
}

/// The rows of a layer of a document that keeps its shape run segment by
/// segment.
pub proof fn lemma_segment_runs(doc: DocumentView, g: int, s: int)
    requires
        spec_keeps_its_shape(doc),
        0 <= g < doc.groups.len(),
        0 <= s <= doc.groups[g].segments.len(),
    ensures
        spec_segment_runs(doc, g, s),
    decreases s,
{
    if s > 0 {
        lemma_segment_runs(doc, g, s - 1);
        lemma_segment_runs_go_on(doc, g, s - 1);
    } else {
        let keys = spec_local_keys(doc, g);
        assert(first_seen(keys.take(0)) =~= Seq::new(0, |q: int| spec_segment_key(doc, g, q)));
    }
}

/// The grouping of a flattened document that keeps its shape: layer by
/// layer and segment by segment, the rows of the segment's points.
pub open spec fn spec_shape_grouping(doc: DocumentView) -> Seq<Seq<Seq<int>>> {
    Seq::new(
        doc.groups.len(),
        |g: int|
            Seq::new(
                doc.groups[g].segments.len(),
                |s: int|
                    range(spec_row_index(doc, g, s, 0), doc.groups[g].segments[s].points.len()),
            ),
    )
}

/// The key columns of a flattened document hold the layer indices and the
/// segment numbers of its rows.
pub proof fn lemma_flattened_keys(doc: DocumentView, with_lists: bool)
    ensures
        spec_flatten(doc, with_lists).int_column(ColumnId::LayerIndex) == Some(
            spec_layer_keys(doc),
        ),
        spec_flatten(doc, with_lists).int_column(ColumnId::SegmentId) == Some(
            spec_segment_keys(doc),
        ),
{
    let t = spec_flatten(doc, with_lists);
    let rows = spec_document_rows(doc);
    assert(t.columns[ColumnId::LayerIndex] == spec_column_of(rows, ColumnId::LayerIndex));
    assert(t.columns[ColumnId::SegmentId] == spec_column_of(rows, ColumnId::SegmentId));
    assert(t.int_column(ColumnId::LayerIndex)->0 =~= spec_layer_keys(doc));
    assert(t.int_column(ColumnId::SegmentId)->0 =~= spec_segment_keys(doc));
}

/// The rows of a document that keeps its shape part by layer index into the
/// rows of its layers, in order.
pub proof fn lemma_flattened_layers(doc: DocumentView)
    requires
        spec_keeps_its_shape(doc),
        doc.groups.len() > 0,
    ensures
        stable_partition(spec_layer_keys(doc)).len() == doc.groups.len(),
        forall|g: int|
            0 <= g < doc.groups.len() ==> #[trigger] stable_partition(spec_layer_keys(doc))[g]
                == spec_layer_rows(doc, g),
{
    let keys = spec_layer_keys(doc);
    let last = doc.groups.len() - 1;
    lemma_row_count(doc, false);
    assert(doc.groups[last].segments.len() > 0);
    lemma_layer_runs(doc, last, doc.groups[last].segments.len() as int);
    assert(keys.take(keys.len() as int) =~= keys);
    assert(first_seen(keys).len() == doc.groups.len());
    assert forall|g: int| 0 <= g < doc.groups.len() implies #[trigger] stable_partition(keys)[g]
        == spec_layer_rows(doc, g) by {
        assert(first_seen(keys)[g] == spec_layer_key(doc, g));
        assert(stable_partition(keys)[g] == rows_with(keys, spec_layer_key(doc, g)));
    }
}

/// The rows of a layer of a document that keeps its shape part by segment
/// number into the rows of the layer's segments, in order.
pub proof fn lemma_flattened_segments(doc: DocumentView, g: int)
    requires
        spec_keeps_its_shape(doc),
        0 <= g < doc.groups.len(),
    ensures
        stable_partition(spec_local_keys(doc, g)).len() == doc.groups[g].segments.len(),
        forall|s: int|
            0 <= s < doc.groups[g].segments.len() ==> #[trigger] stable_partition(
                spec_local_keys(doc, g),
            )[s] == spec_segment_places(doc, g, s),
{
    let group = doc.groups[g];
    let local = spec_local_keys(doc, g);
    lemma_segment_runs(doc, g, group.segments.len() as int);
    assert(local.take(local.len() as int) =~= local);
    assert(first_seen(local).len() == group.segments.len());
    assert forall|s: int| 0 <= s < group.segments.len() implies #[trigger] stable_partition(
        local,
    )[s] == spec_segment_places(doc, g, s) by {
        assert(first_seen(local)[s] == spec_segment_key(doc, g, s));
        assert(stable_partition(local)[s] == rows_with(local, spec_segment_key(doc, g, s)));
    }
}

/// A layer of a document that keeps its shape is split into the rows of its
/// segments.
pub proof fn lemma_flattened_split(doc: DocumentView, g: int)
    requires
        spec_keeps_its_shape(doc),
        0 <= g < doc.groups.len(),
    ensures
        spec_split_layer(
            Some(spec_segment_keys(doc)),
            range(points_before(doc, g as nat) as int, group_point_count(doc.groups[g])),
        ) == spec_shape_grouping(doc)[g],
{
    let group = doc.groups[g];
    let layer = range(points_before(doc, g as nat) as int, group_point_count(group));
    let segment_keys = spec_segment_keys(doc);
    let local = Seq::new(layer.len(), |j: int| segment_keys[layer[j]]);
    assert(local =~= spec_local_keys(doc, g));
    lemma_flattened_segments(doc, g);
    let parts = stable_partition(local);
    let split = spec_split_layer(Some(segment_keys), layer);
    let target = spec_shape_grouping(doc)[g];
    assert(split.len() == target.len());
    assert forall|s: int| 0 <= s < group.segments.len() implies #[trigger] split[s]
        =~= target[s] by {
        let count = group.segments[s].points.len();
        assert(parts[s] == spec_segment_places(doc, g, s));
        assert(count > 0);
        lemma_group_points_monotonic(group, (s + 1) as nat, group.segments.len());
        assert(split[s].len() == count);
        assert forall|k: int| 0 <= k < count implies split[s][k] == target[s][k] by {
            assert(parts[s][k] == group_points_before(group, s as nat) + k);
            assert(layer[parts[s][k]] == points_before(doc, g as nat) + parts[s][k]);
        }
    }
    assert(split =~= target);
}

/// The table of a document that keeps its shape is grouped as the document
/// is: one layer of the grouping for each layer, in order, one part for each
/// segment, in order, with the rows of the segment's points, in order.
pub proof fn lemma_round_trip_grouping(doc: DocumentView, with_lists: bool)
    requires
        spec_keeps_its_shape(doc),
        doc.groups.len() > 0,
    ensures
        spec_flatten(doc, with_lists).height > 0,
        spec_grouping(spec_flatten(doc, with_lists)) == spec_shape_grouping(doc),
{
    let t = spec_flatten(doc, with_lists);
    lemma_flattened_keys(doc, with_lists);
    lemma_flattened_layers(doc);
    assert(doc.groups[0].segments.len() > 0);
    assert(doc.groups[0].segments[0].points.len() > 0);
    lemma_document_row(doc, 0, 0, 0);
    let grouping = spec_grouping(t);
    let target = spec_shape_grouping(doc);
    assert(grouping.len() == target.len());
    assert forall|g: int| 0 <= g < doc.groups.len() implies #[trigger] grouping[g]
        == target[g] by {
        lemma_flattened_split(doc, g);
    }
    assert(grouping =~= target);
}

/// The point made from the row of a point is what the table keeps of the
/// point.
pub proof fn lemma_point_round_trip(doc: DocumentView, with_lists: bool, g: int, s: int, p: int)
    requires
        0 <= g < doc.groups.len(),
        0 <= s < doc.groups[g].segments.len(),
        0 <= p < doc.groups[g].segments[s].points.len(),
    ensures
        spec_point_of(spec_flatten(doc, with_lists), spec_row_index(doc, g, s, p))
            == spec_kept_point(doc.groups[g].segments[s].points[p]),
{
    lemma_document_row(doc, g, s, p);
    lemma_flattened_cells(doc, with_lists, spec_row_index(doc, g, s, p));
}

/// The segment made from the rows of a segment's points is what the table
/// keeps of the segment.
pub proof fn lemma_segment_round_trip(doc: DocumentView, with_lists: bool, g: int, s: int)
    requires
        0 <= g < doc.groups.len(),
        0 <= s < doc.groups[g].segments.len(),
        doc.groups[g].segments[s].points.len() > 0,
    ensures
        spec_segment_of(
            spec_flatten(doc, with_lists),
            range(spec_row_index(doc, g, s, 0), doc.groups[g].segments[s].points.len()),
        ) == spec_kept_segment(doc.groups[g].segments[s]),
{
    let t = spec_flatten(doc, with_lists);
    let segment = doc.groups[g].segments[s];
    let rows = range(spec_row_index(doc, g, s, 0), segment.points.len());
    let made = spec_segment_of(t, rows);
    let kept = spec_kept_segment(segment);
    lemma_document_row(doc, g, s, 0);
    lemma_flattened_cells(doc, with_lists, spec_row_index(doc, g, s, 0));
    assert forall|k: int| 0 <= k < segment.points.len() implies made.points[k]
        == kept.points[k] by {
        lemma_point_round_trip(doc, with_lists, g, s, k);
        assert(rows[k] == spec_row_index(doc, g, s, k));
    }
    assert(made.points =~= kept.points);
}

/// A document that keeps its shape comes back from its table as it went in,
/// but for what the table does not hold: each layer with its index, each
/// segment with its settings, each point with its values, all in their order;
/// the process flag off, the end delay zero, the lists empty, an absent vector
/// present with the marker in its components, and the configuration zeroed.
pub proof fn lemma_round_trip(doc: DocumentView, with_lists: bool)
    requires
        spec_keeps_its_shape(doc),
    ensures
        spec_rebuild(spec_flatten(doc, with_lists)) == Ok::<DocumentView, RebuildError>(
            spec_kept(doc),
        ),
{
    let t = spec_flatten(doc, with_lists);
    lemma_row_count(doc, with_lists);
    lemma_flattened_table_rebuilds(doc, with_lists);
    lemma_rebuild_ok(t);
    let made = spec_document_of(t, spec_rebuilt_grouping(t));
    let kept = spec_kept(doc);
    if doc.groups.len() == 0 {
        assert(made.groups =~= kept.groups);
    } else {
        lemma_round_trip_grouping(doc, with_lists);
        let grouping = spec_shape_grouping(doc);
        assert forall|g: int| 0 <= g < doc.groups.len() implies made.groups[g]
            == kept.groups[g] by {
            let group = doc.groups[g];
            let built = spec_group_of(t, grouping[g]);
            assert(group.segments.len() > 0);
            assert(group.segments[0].points.len() > 0);
            lemma_document_row(doc, g, 0, 0);
            lemma_flattened_cells(doc, with_lists, spec_row_index(doc, g, 0, 0));
            assert(grouping[g][0][0] == spec_row_index(doc, g, 0, 0));
            assert forall|s: int| 0 <= s < group.segments.len() implies built.segments[s]
                == spec_kept_group(group).segments[s] by {
                assert(group.segments[s].points.len() > 0);
                lemma_segment_round_trip(doc, with_lists, g, s);
            }
            assert(built.segments =~= spec_kept_group(group).segments);
        }
        assert(made.groups =~= kept.groups);
    }
    assert(made.parameters =~= kept.parameters);
}

} // verus!
