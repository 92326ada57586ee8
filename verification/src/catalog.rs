//! The column catalog: which columns a table has, what each is called and
//! what kind of cell it holds. Both directions of the transform go by it.

use vstd::prelude::*;

verus! {

/// How many columns the catalog lists.
pub const COLUMN_COUNT: usize = 26;

/// How many of them hold one scalar per row; the list columns follow them.
pub const SCALAR_COLUMN_COUNT: usize = 22;

/// What the cells of a column hold.
#[derive(Clone, Copy, Debug, PartialEq, Eq, Structural)]
pub enum ColumnKind {
    /// A 32-bit signed integer, or null.
    Int32,
    /// A binary32 real, or null.
    Float32,
    /// A binary64 real, or null.
    Float64,
    /// A list of 32-bit signed integers.
    Int32List,
    /// A list of binary64 reals.
    Float64List,
}

/// A column of the catalog. The variants stand in the order in which a
/// flattened table lists its columns.
#[derive(Clone, Copy, Debug, PartialEq, Eq, Hash, Structural)]
pub enum ColumnId {
    /// The column `position.x`.
    PositionX,
    /// The column `position.y`.
    PositionY,
    /// The column `position.z`.
    PositionZ,
    /// The column `direction.x`.
    DirectionX,
    /// The column `direction.y`.
    DirectionY,
    /// The column `direction.z`.
    DirectionZ,
    /// The column `orientation.x`.
    OrientationX,
    /// The column `orientation.y`.
    OrientationY,
    /// The column `orientation.z`.
    OrientationZ,
    /// The column `orientation.w`.
    OrientationW,
    /// The column `deposition`.
    Deposition,
    /// The column `speed`.
    Speed,
    /// The column `speedTCP`.
    SpeedTcp,
    /// The column `type`.
    SegmentType,
    /// The column `layerIndex`.
    LayerIndex,
    /// The column `processOnDelay`.
    ProcessOnDelay,
    /// The column `processOffDelay`.
    ProcessOffDelay,
    /// The column `startDelay`.
    StartDelay,
    /// The column `equipmentID`.
    EquipmentId,
    /// The column `toolID`.
    ToolId,
    /// The column `materialID`.
    MaterialId,
    /// The column `segmentID`.
    SegmentId,
    /// The column `fans.num`.
    FansNum,
    /// The column `fans.speed`.
    FansSpeed,
    /// The column `userEvents.num`.
    UserEventsNum,
    /// The column `externalAxes`.
    ExternalAxes,
}

impl ColumnId {
    /// Place of the column in the catalog.
    pub open spec fn spec_index(self) -> nat {
        match self {
            ColumnId::PositionX => 0,
            ColumnId::PositionY => 1,
            ColumnId::PositionZ => 2,
            ColumnId::DirectionX => 3,
            ColumnId::DirectionY => 4,
            ColumnId::DirectionZ => 5,
            ColumnId::OrientationX => 6,
            ColumnId::OrientationY => 7,
            ColumnId::OrientationZ => 8,
            ColumnId::OrientationW => 9,
            ColumnId::Deposition => 10,
            ColumnId::Speed => 11,
            ColumnId::SpeedTcp => 12,
            ColumnId::SegmentType => 13,
            ColumnId::LayerIndex => 14,
            ColumnId::ProcessOnDelay => 15,
            ColumnId::ProcessOffDelay => 16,
            ColumnId::StartDelay => 17,
            ColumnId::EquipmentId => 18,
            ColumnId::ToolId => 19,
            ColumnId::MaterialId => 20,
            ColumnId::SegmentId => 21,
            ColumnId::FansNum => 22,
            ColumnId::FansSpeed => 23,
            ColumnId::UserEventsNum => 24,
            ColumnId::ExternalAxes => 25,
        }
    }

    /// The column at a place of the catalog.
    pub open spec fn spec_at(i: int) -> ColumnId {
        if i == 0 {
            ColumnId::PositionX
        } else if i == 1 {
            ColumnId::PositionY
        } else if i == 2 {
            ColumnId::PositionZ
        } else if i == 3 {
            ColumnId::DirectionX
        } else if i == 4 {
            ColumnId::DirectionY
        } else if i == 5 {
            ColumnId::DirectionZ
        } else if i == 6 {
            ColumnId::OrientationX
        } else if i == 7 {
            ColumnId::OrientationY
        } else if i == 8 {
            ColumnId::OrientationZ
        } else if i == 9 {
            ColumnId::OrientationW
        } else if i == 10 {
            ColumnId::Deposition
        } else if i == 11 {
            ColumnId::Speed
        } else if i == 12 {
            ColumnId::SpeedTcp
        } else if i == 13 {
            ColumnId::SegmentType
        } else if i == 14 {
            ColumnId::LayerIndex
        } else if i == 15 {
            ColumnId::ProcessOnDelay
        } else if i == 16 {
            ColumnId::ProcessOffDelay
        } else if i == 17 {
            ColumnId::StartDelay
        } else if i == 18 {
            ColumnId::EquipmentId
        } else if i == 19 {
            ColumnId::ToolId
        } else if i == 20 {
            ColumnId::MaterialId
        } else if i == 21 {
            ColumnId::SegmentId
        } else if i == 22 {
            ColumnId::FansNum
        } else if i == 23 {
            ColumnId::FansSpeed
        } else if i == 24 {
            ColumnId::UserEventsNum
        } else {
            ColumnId::ExternalAxes
        }
    }

    /// Name of the column in a table.
    pub open spec fn spec_name(self) -> Seq<char> {
        match self {
            ColumnId::PositionX => "position.x"@,
            ColumnId::PositionY => "position.y"@,
            ColumnId::PositionZ => "position.z"@,
            ColumnId::DirectionX => "direction.x"@,
            ColumnId::DirectionY => "direction.y"@,
            ColumnId::DirectionZ => "direction.z"@,
            ColumnId::OrientationX => "orientation.x"@,
            ColumnId::OrientationY => "orientation.y"@,
            ColumnId::OrientationZ => "orientation.z"@,
            ColumnId::OrientationW => "orientation.w"@,
            ColumnId::Deposition => "deposition"@,
            ColumnId::Speed => "speed"@,
            ColumnId::SpeedTcp => "speedTCP"@,
            ColumnId::SegmentType => "type"@,
            ColumnId::LayerIndex => "layerIndex"@,
            ColumnId::ProcessOnDelay => "processOnDelay"@,
            ColumnId::ProcessOffDelay => "processOffDelay"@,
            ColumnId::StartDelay => "startDelay"@,
            ColumnId::EquipmentId => "equipmentID"@,
            ColumnId::ToolId => "toolID"@,
            ColumnId::MaterialId => "materialID"@,
            ColumnId::SegmentId => "segmentID"@,
            ColumnId::FansNum => "fans.num"@,
            ColumnId::FansSpeed => "fans.speed"@,
            ColumnId::UserEventsNum => "userEvents.num"@,
            ColumnId::ExternalAxes => "externalAxes"@,
        }
    }

    /// Kind of the column's cells.
    pub open spec fn spec_kind(self) -> ColumnKind {
        match self {
            ColumnId::PositionX
            | ColumnId::PositionY
            | ColumnId::PositionZ
            | ColumnId::DirectionX
            | ColumnId::DirectionY
            | ColumnId::DirectionZ
            | ColumnId::OrientationX
            | ColumnId::OrientationY
            | ColumnId::OrientationZ
            | ColumnId::OrientationW
            | ColumnId::Deposition
            | ColumnId::Speed => ColumnKind::Float64,
            ColumnId::SpeedTcp
            | ColumnId::SegmentType
            | ColumnId::LayerIndex
            | ColumnId::EquipmentId
            | ColumnId::ToolId
            | ColumnId::MaterialId
            | ColumnId::SegmentId => ColumnKind::Int32,
            ColumnId::ProcessOnDelay
            | ColumnId::ProcessOffDelay
            | ColumnId::StartDelay => ColumnKind::Float32,
            ColumnId::FansNum
            | ColumnId::UserEventsNum => ColumnKind::Int32List,
            ColumnId::FansSpeed
            | ColumnId::ExternalAxes => ColumnKind::Float64List,
        }
    }

    /// Whether the column holds a list per row.
    pub open spec fn spec_is_list(self) -> bool {
        self.spec_index() >= SCALAR_COLUMN_COUNT
    }

    pub fn index(self) -> (i: usize)
        ensures
            i == self.spec_index(),
            i < COLUMN_COUNT,
            ColumnId::spec_at(i as int) == self,
    {
        match self {
            ColumnId::PositionX => 0,
            ColumnId::PositionY => 1,
            ColumnId::PositionZ => 2,
            ColumnId::DirectionX => 3,
            ColumnId::DirectionY => 4,
            ColumnId::DirectionZ => 5,
            ColumnId::OrientationX => 6,
            ColumnId::OrientationY => 7,
            ColumnId::OrientationZ => 8,
            ColumnId::OrientationW => 9,
            ColumnId::Deposition => 10,
            ColumnId::Speed => 11,
            ColumnId::SpeedTcp => 12,
            ColumnId::SegmentType => 13,
            ColumnId::LayerIndex => 14,
            ColumnId::ProcessOnDelay => 15,
            ColumnId::ProcessOffDelay => 16,
            ColumnId::StartDelay => 17,
            ColumnId::EquipmentId => 18,
            ColumnId::ToolId => 19,
            ColumnId::MaterialId => 20,
            ColumnId::SegmentId => 21,
            ColumnId::FansNum => 22,
            ColumnId::FansSpeed => 23,
            ColumnId::UserEventsNum => 24,
            ColumnId::ExternalAxes => 25,
        }
    }

    /// The column at place `i` of the catalog, if the catalog is that long.
    pub fn at(i: usize) -> (id: Option<ColumnId>)
        ensures
            i < COLUMN_COUNT ==> id == Some(ColumnId::spec_at(i as int)),
            i >= COLUMN_COUNT ==> id is None,
            id matches Some(c) ==> c.spec_index() == i,
    {
        if i == 0 {
            Some(ColumnId::PositionX)
        } else if i == 1 {
            Some(ColumnId::PositionY)
        } else if i == 2 {
            Some(ColumnId::PositionZ)
        } else if i == 3 {
            Some(ColumnId::DirectionX)
        } else if i == 4 {
            Some(ColumnId::DirectionY)
        } else if i == 5 {
            Some(ColumnId::DirectionZ)
        } else if i == 6 {
            Some(ColumnId::OrientationX)
        } else if i == 7 {
            Some(ColumnId::OrientationY)
        } else if i == 8 {
            Some(ColumnId::OrientationZ)
        } else if i == 9 {
            Some(ColumnId::OrientationW)
        } else if i == 10 {
            Some(ColumnId::Deposition)
        } else if i == 11 {
            Some(ColumnId::Speed)
        } else if i == 12 {
            Some(ColumnId::SpeedTcp)
        } else if i == 13 {
            Some(ColumnId::SegmentType)
        } else if i == 14 {
            Some(ColumnId::LayerIndex)
        } else if i == 15 {
            Some(ColumnId::ProcessOnDelay)
        } else if i == 16 {
            Some(ColumnId::ProcessOffDelay)
        } else if i == 17 {
            Some(ColumnId::StartDelay)
        } else if i == 18 {
            Some(ColumnId::EquipmentId)
        } else if i == 19 {
            Some(ColumnId::ToolId)
        } else if i == 20 {
            Some(ColumnId::MaterialId)
        } else if i == 21 {
            Some(ColumnId::SegmentId)
        } else if i == 22 {
            Some(ColumnId::FansNum)
        } else if i == 23 {
            Some(ColumnId::FansSpeed)
        } else if i == 24 {
            Some(ColumnId::UserEventsNum)
        } else if i == 25 {
            Some(ColumnId::ExternalAxes)
        } else {
            None
        }
    }

    pub fn name(self) -> (s: &'static str)
        ensures
            s@ == self.spec_name(),
    {
        match self {
            ColumnId::PositionX => "position.x",
            ColumnId::PositionY => "position.y",
            ColumnId::PositionZ => "position.z",
            ColumnId::DirectionX => "direction.x",
            ColumnId::DirectionY => "direction.y",
            ColumnId::DirectionZ => "direction.z",
            ColumnId::OrientationX => "orientation.x",
            ColumnId::OrientationY => "orientation.y",
            ColumnId::OrientationZ => "orientation.z",
            ColumnId::OrientationW => "orientation.w",
            ColumnId::Deposition => "deposition",
            ColumnId::Speed => "speed",
            ColumnId::SpeedTcp => "speedTCP",
            ColumnId::SegmentType => "type",
            ColumnId::LayerIndex => "layerIndex",
            ColumnId::ProcessOnDelay => "processOnDelay",
            ColumnId::ProcessOffDelay => "processOffDelay",
            ColumnId::StartDelay => "startDelay",
            ColumnId::EquipmentId => "equipmentID",
            ColumnId::ToolId => "toolID",
            ColumnId::MaterialId => "materialID",
            ColumnId::SegmentId => "segmentID",
            ColumnId::FansNum => "fans.num",
            ColumnId::FansSpeed => "fans.speed",
            ColumnId::UserEventsNum => "userEvents.num",
            ColumnId::ExternalAxes => "externalAxes",
        }
    }

    #[verifier::when_used_as_spec(spec_kind)]
    pub fn kind(self) -> (k: ColumnKind)
        ensures
            k == self.spec_kind(),
    {
        match self {
            ColumnId::PositionX
            | ColumnId::PositionY
            | ColumnId::PositionZ
            | ColumnId::DirectionX
            | ColumnId::DirectionY
            | ColumnId::DirectionZ
            | ColumnId::OrientationX
            | ColumnId::OrientationY
            | ColumnId::OrientationZ
            | ColumnId::OrientationW
            | ColumnId::Deposition
            | ColumnId::Speed => ColumnKind::Float64,
            ColumnId::SpeedTcp
            | ColumnId::SegmentType
            | ColumnId::LayerIndex
            | ColumnId::EquipmentId
            | ColumnId::ToolId
            | ColumnId::MaterialId
            | ColumnId::SegmentId => ColumnKind::Int32,
            ColumnId::ProcessOnDelay
            | ColumnId::ProcessOffDelay
            | ColumnId::StartDelay => ColumnKind::Float32,
            ColumnId::FansNum
            | ColumnId::UserEventsNum => ColumnKind::Int32List,
            ColumnId::FansSpeed
            | ColumnId::ExternalAxes => ColumnKind::Float64List,
        }
    }

    #[verifier::when_used_as_spec(spec_is_list)]
    pub fn is_list(self) -> (b: bool)
        ensures
            b == self.spec_is_list(),
    {
        self.index() >= SCALAR_COLUMN_COUNT
    }
}

/// The columns of a table in catalog order: the scalar columns alone, or the
/// list columns after them.
pub open spec fn spec_catalog(with_lists: bool) -> Seq<ColumnId> {
    Seq::new(
        if with_lists {
            COLUMN_COUNT as nat
        } else {
            SCALAR_COLUMN_COUNT as nat
        },
        |i: int| ColumnId::spec_at(i),
    )
}

pub fn catalog(with_lists: bool) -> (ids: Vec<ColumnId>)
    ensures
        ids@ == spec_catalog(with_lists),
{
    let count: usize = if with_lists {
        COLUMN_COUNT
    } else {
        SCALAR_COLUMN_COUNT
    };
    let mut ids: Vec<ColumnId> = Vec::new();
    let mut i: usize = 0;
    while i < count
        invariant
            i <= count <= COLUMN_COUNT,
            ids@ == Seq::new(i as nat, |j: int| ColumnId::spec_at(j)),
        decreases count - i,
    {
        match ColumnId::at(i) {
            Some(id) => {
                ids.push(id);
            },
            None => {},
        }
        i = i + 1;
    }
    ids
}

/// A place of the catalog and the column at it name each other.
pub proof fn lemma_index_round_trip(id: ColumnId, i: int)
    ensures
        ColumnId::spec_at(id.spec_index() as int) == id,
        id.spec_index() < COLUMN_COUNT,
        0 <= i < COLUMN_COUNT ==> ColumnId::spec_at(i).spec_index() == i,
{
}

/// A list column holds lists, a scalar column does not.
pub proof fn lemma_list_columns(id: ColumnId)
    ensures
        id.spec_is_list() <==> (id.spec_kind() == ColumnKind::Int32List || id.spec_kind()
            == ColumnKind::Float64List),
{
}

/// No two columns of the catalog share a name.
pub proof fn lemma_names_distinct(a: ColumnId, b: ColumnId)
    requires
        a != b,
    ensures
        a.spec_name() != b.spec_name(),
{
    reveal_strlit("position.x");
    reveal_strlit("position.y");
    reveal_strlit("position.z");
    reveal_strlit("direction.x");
    reveal_strlit("direction.y");
    reveal_strlit("direction.z");
    reveal_strlit("orientation.x");
    reveal_strlit("orientation.y");
    reveal_strlit("orientation.z");
    reveal_strlit("orientation.w");
    reveal_strlit("deposition");
    reveal_strlit("speed");
    reveal_strlit("speedTCP");
    reveal_strlit("type");
    reveal_strlit("layerIndex");
    reveal_strlit("processOnDelay");
    reveal_strlit("processOffDelay");
    reveal_strlit("startDelay");
    reveal_strlit("equipmentID");
    reveal_strlit("toolID");
    reveal_strlit("materialID");
    reveal_strlit("segmentID");
    reveal_strlit("fans.num");
    reveal_strlit("fans.speed");
    reveal_strlit("userEvents.num");
    reveal_strlit("externalAxes");
    let x = a.spec_name();
    let y = b.spec_name();
    if x.len() == y.len() {
        assert(x[0] != y[0] || x[1] != y[1] || x[x.len() - 1] != y[y.len() - 1] || x[x.len() - 2]
            != y[y.len() - 2]);
    }
}

} // verus!
