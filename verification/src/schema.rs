//! The record tree of a toolpath: a document of layers, each layer a run of
//! segments, each segment a run of points.
//!
//! Every record has a view, its mathematical value: the same fields with each
//! vector replaced by the sequence of the views of its items. Contracts speak
//! of views only.

use vstd::prelude::*;
use crate::scalar::{Double, Single};

verus! {

/// A vector of three reals.
#[derive(Clone, Copy, Debug, PartialEq, Eq, Structural)]
pub struct Vector3D {
    pub x: Double,
    pub y: Double,
    pub z: Double,
}

/// A rotation as a quaternion.
#[derive(Clone, Copy, Debug, PartialEq, Eq, Structural)]
pub struct Quaternion {
    pub x: Double,
    pub y: Double,
    pub z: Double,
    pub w: Double,
}

/// Setting of one fan at a point.
#[derive(Clone, Copy, Debug, PartialEq, Eq, Structural)]
pub struct FanData {
    pub num: i32,
    pub speed: Double,
}

/// A user event raised at a point.
#[derive(Clone, Copy, Debug, PartialEq, Eq, Structural)]
pub struct EventData {
    pub num: i32,
}

/// Process configuration of a document. The table has no column for any of
/// it.
#[derive(Clone, Copy, Debug, PartialEq, Eq, Structural)]
pub struct Parameters {
    pub deposition_width: Double,
    pub layer_height: Double,
    pub path_planning_strategy: i32,
    pub posi_axis1_val: Double,
    pub posi_axis2_val: Double,
    pub posi_axis1_dynamic: bool,
    pub posi_axis2_dynamic: bool,
}

/// One sample of motion and process state.
#[derive(Clone, Debug, PartialEq, Eq)]
pub struct Point {
    pub position: Option<Vector3D>,
    pub direction: Option<Vector3D>,
    pub orientation: Option<Quaternion>,
    pub external_axes: Vec<Double>,
    pub deposition: Double,
    pub speed: Double,
    pub fans: Vec<FanData>,
    pub user_events: Vec<EventData>,
}

/// A span of motion whose settings hold for each of its points.
#[derive(Clone, Debug, PartialEq, Eq)]
pub struct Segment {
    pub points: Vec<Point>,
    pub process_on: bool,
    pub segment_type: i32,
    pub process_on_delay: Single,
    pub process_off_delay: Single,
    pub start_delay: Single,
    pub end_delay: Single,
    pub speed_tcp: i32,
    pub equipment_id: i32,
    pub tool_id: i32,
    pub material_id: i32,
}

/// One layer of the toolpath.
#[derive(Clone, Debug, PartialEq, Eq)]
pub struct Group {
    pub layer_index: i32,
    pub segments: Vec<Segment>,
}

/// A whole toolpath.
#[derive(Clone, Debug, PartialEq, Eq)]
pub struct Document {
    pub parameters: Vec<Parameters>,
    pub groups: Vec<Group>,
}

/// Mathematical value of a [`Point`].
pub ghost struct PointView {
    pub position: Option<Vector3D>,
    pub direction: Option<Vector3D>,
    pub orientation: Option<Quaternion>,
    pub external_axes: Seq<Double>,
    pub deposition: Double,
    pub speed: Double,
    pub fans: Seq<FanData>,
    pub user_events: Seq<EventData>,
}

/// Mathematical value of a [`Segment`].
pub ghost struct SegmentView {
    pub points: Seq<PointView>,
    pub process_on: bool,
    pub segment_type: i32,
    pub process_on_delay: Single,
    pub process_off_delay: Single,
    pub start_delay: Single,
    pub end_delay: Single,
    pub speed_tcp: i32,
    pub equipment_id: i32,
    pub tool_id: i32,
    pub material_id: i32,
}

/// Mathematical value of a [`Group`].
pub ghost struct GroupView {
    pub layer_index: i32,
    pub segments: Seq<SegmentView>,
}

/// Mathematical value of a [`Document`].
pub ghost struct DocumentView {
    pub parameters: Seq<Parameters>,
    pub groups: Seq<GroupView>,
}

impl View for Point {
    type V = PointView;

    open spec fn view(&self) -> PointView {
        PointView {
            position: self.position,
            direction: self.direction,
            orientation: self.orientation,
            external_axes: self.external_axes@,
            deposition: self.deposition,
            speed: self.speed,
            fans: self.fans@,
            user_events: self.user_events@,
        }
    }
}

impl View for Segment {
    type V = SegmentView;

    open spec fn view(&self) -> SegmentView {
        SegmentView {
            points: self.points@.map_values(|p: Point| p@),
            process_on: self.process_on,
            segment_type: self.segment_type,
            process_on_delay: self.process_on_delay,
            process_off_delay: self.process_off_delay,
            start_delay: self.start_delay,
            end_delay: self.end_delay,
            speed_tcp: self.speed_tcp,
            equipment_id: self.equipment_id,
            tool_id: self.tool_id,
            material_id: self.material_id,
        }
    }
}

impl View for Group {
    type V = GroupView;

    open spec fn view(&self) -> GroupView {
        GroupView {
            layer_index: self.layer_index,
            segments: self.segments@.map_values(|s: Segment| s@),
        }
    }
}

impl View for Document {
    type V = DocumentView;

    open spec fn view(&self) -> DocumentView {
        DocumentView {
            parameters: self.parameters@,
            groups: self.groups@.map_values(|g: Group| g@),
        }
    }
}

impl Parameters {
    /// The configuration with every value zero and every flag off.
    pub open spec fn spec_zeroed() -> Parameters {
        Parameters {
            deposition_width: Double::spec_zero(),
            layer_height: Double::spec_zero(),
            path_planning_strategy: 0,
            posi_axis1_val: Double::spec_zero(),
            posi_axis2_val: Double::spec_zero(),
            posi_axis1_dynamic: false,
            posi_axis2_dynamic: false,
        }
    }

    #[verifier::when_used_as_spec(spec_zeroed)]
    pub fn zeroed() -> (p: Parameters)
        ensures
            p == Parameters::spec_zeroed(),
    {
        Parameters {
            deposition_width: Double::zero(),
            layer_height: Double::zero(),
            path_planning_strategy: 0,
            posi_axis1_val: Double::zero(),
            posi_axis2_val: Double::zero(),
            posi_axis1_dynamic: false,
            posi_axis2_dynamic: false,
        }
    }
}

/// Number of segments in the first `n` layers of a document.
pub open spec fn segments_before(doc: DocumentView, n: nat) -> nat
    decreases n,
{
    if n == 0 {
        0
    } else {
        segments_before(doc, (n - 1) as nat) + doc.groups[n - 1].segments.len()
    }
}

/// Number of segments in a document.
pub open spec fn segment_count(doc: DocumentView) -> nat {
    segments_before(doc, doc.groups.len())
}

/// Number of points in the first `n` segments of a layer.
pub open spec fn group_points_before(group: GroupView, n: nat) -> nat
    decreases n,
{
    if n == 0 {
        0
    } else {
        group_points_before(group, (n - 1) as nat) + group.segments[n - 1].points.len()
    }
}

/// Number of points in a layer.
pub open spec fn group_point_count(group: GroupView) -> nat {
    group_points_before(group, group.segments.len())
}

/// Number of points in the first `n` layers of a document.
pub open spec fn points_before(doc: DocumentView, n: nat) -> nat
    decreases n,
{
    if n == 0 {
        0
    } else {
        points_before(doc, (n - 1) as nat) + group_point_count(doc.groups[n - 1])
    }
}

/// Number of points in a document.
pub open spec fn point_count(doc: DocumentView) -> nat {
    points_before(doc, doc.groups.len())
}

/// A segment together with the index of the layer that holds it.
pub ghost struct PlacedSegment {
    pub layer_index: i32,
    pub segment: SegmentView,
}

/// The segments of the first `n` layers of a document, in document order.
pub open spec fn placed_segments_before(doc: DocumentView, n: nat) -> Seq<PlacedSegment>
    decreases n,
{
    if n == 0 {
        Seq::empty()
    } else {
        let group = doc.groups[n - 1];
        placed_segments_before(doc, (n - 1) as nat) + Seq::new(
            group.segments.len(),
            |s: int| PlacedSegment { layer_index: group.layer_index, segment: group.segments[s] },
        )
    }
}

/// The segments of a document in document order: those of the first layer,
/// those of the second, and so on.
pub open spec fn placed_segments(doc: DocumentView) -> Seq<PlacedSegment> {
    placed_segments_before(doc, doc.groups.len())
}

/// There are as many placed segments as segments.
pub proof fn lemma_placed_segments_len(doc: DocumentView, n: nat)
    ensures
        placed_segments_before(doc, n).len() == segments_before(doc, n),
    decreases n,
{
    if n > 0 {
        lemma_placed_segments_len(doc, (n - 1) as nat);
    }
}

/// The placed segments of the first layers stay where they are when more
/// layers follow.
pub proof fn lemma_placed_segments_prefix(doc: DocumentView, a: nat, b: nat, j: int)
    requires
        a <= b,
        0 <= j < placed_segments_before(doc, a).len(),
    ensures
        j < placed_segments_before(doc, b).len(),
        placed_segments_before(doc, b)[j] == placed_segments_before(doc, a)[j],
    decreases b,
{
    if a < b {
        lemma_placed_segments_prefix(doc, a, (b - 1) as nat, j);
    }
}

/// Where a segment stands in document order: after all segments of the
/// layers before its own, at its place within its layer.
pub proof fn lemma_placed_segment_at(doc: DocumentView, g: int, s: int)
    requires
        0 <= g < doc.groups.len(),
        0 <= s < doc.groups[g].segments.len(),
    ensures
        segments_before(doc, g as nat) + s < segment_count(doc),
        placed_segments(doc).len() == segment_count(doc),
        placed_segments(doc)[segments_before(doc, g as nat) + s] == (PlacedSegment {
            layer_index: doc.groups[g].layer_index,
            segment: doc.groups[g].segments[s],
        }),
{
    lemma_placed_segments_len(doc, g as nat);
    lemma_placed_segments_len(doc, (g + 1) as nat);
    lemma_placed_segments_len(doc, doc.groups.len());
    let j = segments_before(doc, g as nat) + s;
    assert(placed_segments_before(doc, (g + 1) as nat)[j] == (PlacedSegment {
        layer_index: doc.groups[g].layer_index,
        segment: doc.groups[g].segments[s],
    }));
    lemma_placed_segments_prefix(doc, (g + 1) as nat, doc.groups.len(), j);
}

/// The count of segments only grows along the layers.
pub proof fn lemma_segments_before_monotonic(doc: DocumentView, a: nat, b: nat)
    requires
        a <= b,
    ensures
        segments_before(doc, a) <= segments_before(doc, b),
    decreases b,
{
    if a < b {
        lemma_segments_before_monotonic(doc, a, (b - 1) as nat);
    }
}

} // verus!
