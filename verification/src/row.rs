//! One row of the table: what the table says of one point.

use vstd::prelude::*;
use crate::catalog::ColumnId;
use crate::scalar::{Double, Single};

verus! {

/// A row, with one field for each column of the catalog.
#[derive(Clone, Debug, PartialEq, Eq)]
pub struct Row {
    pub position_x: Double,
    pub position_y: Double,
    pub position_z: Double,
    pub direction_x: Double,
    pub direction_y: Double,
    pub direction_z: Double,
    pub orientation_x: Double,
    pub orientation_y: Double,
    pub orientation_z: Double,
    pub orientation_w: Double,
    pub deposition: Double,
    pub speed: Double,
    pub speed_tcp: i32,
    pub segment_type: i32,
    pub layer_index: i32,
    pub process_on_delay: Single,
    pub process_off_delay: Single,
    pub start_delay: Single,
    pub equipment_id: i32,
    pub tool_id: i32,
    pub material_id: i32,
    pub segment_id: i32,
    pub fans_num: Vec<i32>,
    pub fans_speed: Vec<Double>,
    pub user_events_num: Vec<i32>,
    pub external_axes: Vec<Double>,
}

/// Mathematical value of a [`Row`].
pub ghost struct RowView {
    pub position_x: Double,
    pub position_y: Double,
    pub position_z: Double,
    pub direction_x: Double,
    pub direction_y: Double,
    pub direction_z: Double,
    pub orientation_x: Double,
    pub orientation_y: Double,
    pub orientation_z: Double,
    pub orientation_w: Double,
    pub deposition: Double,
    pub speed: Double,
    pub speed_tcp: i32,
    pub segment_type: i32,
    pub layer_index: i32,
    pub process_on_delay: Single,
    pub process_off_delay: Single,
    pub start_delay: Single,
    pub equipment_id: i32,
    pub tool_id: i32,
    pub material_id: i32,
    pub segment_id: i32,
    pub fans_num: Seq<i32>,
    pub fans_speed: Seq<Double>,
    pub user_events_num: Seq<i32>,
    pub external_axes: Seq<Double>,
}

impl View for Row {
    type V = RowView;

    open spec fn view(&self) -> RowView {
        RowView {
            position_x: self.position_x,
            position_y: self.position_y,
            position_z: self.position_z,
            direction_x: self.direction_x,
            direction_y: self.direction_y,
            direction_z: self.direction_z,
            orientation_x: self.orientation_x,
            orientation_y: self.orientation_y,
            orientation_z: self.orientation_z,
            orientation_w: self.orientation_w,
            deposition: self.deposition,
            speed: self.speed,
            speed_tcp: self.speed_tcp,
            segment_type: self.segment_type,
            layer_index: self.layer_index,
            process_on_delay: self.process_on_delay,
            process_off_delay: self.process_off_delay,
            start_delay: self.start_delay,
            equipment_id: self.equipment_id,
            tool_id: self.tool_id,
            material_id: self.material_id,
            segment_id: self.segment_id,
            fans_num: self.fans_num@,
            fans_speed: self.fans_speed@,
            user_events_num: self.user_events_num@,
            external_axes: self.external_axes@,
        }
    }
}

/// Mathematical value of a run of rows.
pub open spec fn rows_view(rows: Seq<Row>) -> Seq<RowView> {
    rows.map_values(|r: Row| r@)
}

impl RowView {
    /// The row's cell in an integer column; zero for any other column.
    pub open spec fn int_cell(self, id: ColumnId) -> i32 {
        match id {
            ColumnId::SpeedTcp => self.speed_tcp,
            ColumnId::SegmentType => self.segment_type,
            ColumnId::LayerIndex => self.layer_index,
            ColumnId::EquipmentId => self.equipment_id,
            ColumnId::ToolId => self.tool_id,
            ColumnId::MaterialId => self.material_id,
            ColumnId::SegmentId => self.segment_id,
            _ => 0,
        }
    }

    /// The row's cell in a binary32 column; zero for any other column.
    pub open spec fn single_cell(self, id: ColumnId) -> Single {
        match id {
            ColumnId::ProcessOnDelay => self.process_on_delay,
            ColumnId::ProcessOffDelay => self.process_off_delay,
            ColumnId::StartDelay => self.start_delay,
            _ => Single::spec_zero(),
        }
    }

    /// The row's cell in a binary64 column; zero for any other column.
    pub open spec fn double_cell(self, id: ColumnId) -> Double {
        match id {
            ColumnId::PositionX => self.position_x,
            ColumnId::PositionY => self.position_y,
            ColumnId::PositionZ => self.position_z,
            ColumnId::DirectionX => self.direction_x,
            ColumnId::DirectionY => self.direction_y,
            ColumnId::DirectionZ => self.direction_z,
            ColumnId::OrientationX => self.orientation_x,
            ColumnId::OrientationY => self.orientation_y,
            ColumnId::OrientationZ => self.orientation_z,
            ColumnId::OrientationW => self.orientation_w,
            ColumnId::Deposition => self.deposition,
            ColumnId::Speed => self.speed,
            _ => Double::spec_zero(),
        }
    }

    /// The row's cell in a column of integer lists; the empty list for any
    /// other column.
    pub open spec fn int_list(self, id: ColumnId) -> Seq<i32> {
        match id {
            ColumnId::FansNum => self.fans_num,
            ColumnId::UserEventsNum => self.user_events_num,
            _ => Seq::empty(),
        }
    }

    /// The row's cell in a column of binary64 lists; the empty list for
    /// any other column.
    pub open spec fn double_list(self, id: ColumnId) -> Seq<Double> {
        match id {
            ColumnId::FansSpeed => self.fans_speed,
            ColumnId::ExternalAxes => self.external_axes,
            _ => Seq::empty(),
        }
    }

}

impl Row {
    pub fn int_cell(&self, id: ColumnId) -> (cell: i32)
        ensures
            cell == self@.int_cell(id),
    {
        match id {
            ColumnId::SpeedTcp => self.speed_tcp,
            ColumnId::SegmentType => self.segment_type,
            ColumnId::LayerIndex => self.layer_index,
            ColumnId::EquipmentId => self.equipment_id,
            ColumnId::ToolId => self.tool_id,
            ColumnId::MaterialId => self.material_id,
            ColumnId::SegmentId => self.segment_id,
            _ => 0,
        }
    }

    pub fn single_cell(&self, id: ColumnId) -> (cell: Single)
        ensures
            cell == self@.single_cell(id),
    {
        match id {
            ColumnId::ProcessOnDelay => self.process_on_delay,
            ColumnId::ProcessOffDelay => self.process_off_delay,
            ColumnId::StartDelay => self.start_delay,
            _ => Single::zero(),
        }
    }

    pub fn double_cell(&self, id: ColumnId) -> (cell: Double)
        ensures
            cell == self@.double_cell(id),
    {
        match id {
            ColumnId::PositionX => self.position_x,
            ColumnId::PositionY => self.position_y,
            ColumnId::PositionZ => self.position_z,
            ColumnId::DirectionX => self.direction_x,
            ColumnId::DirectionY => self.direction_y,
            ColumnId::DirectionZ => self.direction_z,
            ColumnId::OrientationX => self.orientation_x,
            ColumnId::OrientationY => self.orientation_y,
            ColumnId::OrientationZ => self.orientation_z,
            ColumnId::OrientationW => self.orientation_w,
            ColumnId::Deposition => self.deposition,
            ColumnId::Speed => self.speed,
            _ => Double::zero(),
        }
    }

    /// A copy of the row's cell in a column of integer lists.
    pub fn int_list(&self, id: ColumnId) -> (cell: Vec<i32>)
        ensures
            cell@ == self@.int_list(id),
    {
        match id {
            ColumnId::FansNum => copy_ints(&self.fans_num),
            ColumnId::UserEventsNum => copy_ints(&self.user_events_num),
            _ => Vec::new(),
        }
    }

    /// A copy of the row's cell in a column of binary64 lists.
    pub fn double_list(&self, id: ColumnId) -> (cell: Vec<Double>)
        ensures
            cell@ == self@.double_list(id),
    {
        match id {
            ColumnId::FansSpeed => copy_doubles(&self.fans_speed),
            ColumnId::ExternalAxes => copy_doubles(&self.external_axes),
            _ => Vec::new(),
        }
    }
}

/// A copy of a list of integers.
pub fn copy_ints(list: &Vec<i32>) -> (copy: Vec<i32>)
    ensures
        copy@ == list@,
{
    let mut copy: Vec<i32> = Vec::new();
    let mut i: usize = 0;
    while i < list.len()
        invariant
            i <= list@.len(),
            copy@ == list@.take(i as int),
        decreases list@.len() - i,
    {
        copy.push(list[i]);
        i = i + 1;
    }
    copy
}

/// A copy of a list of reals.
pub fn copy_doubles(list: &Vec<Double>) -> (copy: Vec<Double>)
    ensures
        copy@ == list@,
{
    let mut copy: Vec<Double> = Vec::new();
    let mut i: usize = 0;
    while i < list.len()
        invariant
            i <= list@.len(),
            copy@ == list@.take(i as int),
        decreases list@.len() - i,
    {
        copy.push(list[i]);
        i = i + 1;
    }
    copy
}

} // verus!
