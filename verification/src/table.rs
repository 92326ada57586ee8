//! The table: a height and, for each column of the catalog, the column's
//! cells or nothing where the table lacks the column.

use vstd::prelude::*;
use crate::catalog::{ColumnId, ColumnKind, COLUMN_COUNT};
use crate::scalar::{Double, Single};

verus! {

/// The cells of one column, top row first.
#[derive(Clone, Debug, PartialEq, Eq)]
pub enum ColumnData {
    /// Integers; `None` is a null cell.
    Int32(Vec<Option<i32>>),
    /// Binary32 reals; `None` is a null cell.
    Float32(Vec<Option<Single>>),
    /// Binary64 reals; `None` is a null cell.
    Float64(Vec<Option<Double>>),
    /// Lists of integers.
    Int32List(Vec<Vec<i32>>),
    /// Lists of binary64 reals.
    Float64List(Vec<Vec<Double>>),
    /// Cells of a kind that the transform does not read; only their number is
    /// kept.
    Unsupported(usize),
}

/// Mathematical value of a [`ColumnData`].
pub ghost enum ColumnView {
    Int32(Seq<Option<i32>>),
    Float32(Seq<Option<Single>>),
    Float64(Seq<Option<Double>>),
    Int32List(Seq<Seq<i32>>),
    Float64List(Seq<Seq<Double>>),
    Unsupported(nat),
}

impl ColumnView {
    /// Number of cells.
    pub open spec fn len(self) -> nat {
        match self {
            ColumnView::Int32(cells) => cells.len(),
            ColumnView::Float32(cells) => cells.len(),
            ColumnView::Float64(cells) => cells.len(),
            ColumnView::Int32List(cells) => cells.len(),
            ColumnView::Float64List(cells) => cells.len(),
            ColumnView::Unsupported(n) => n,
        }
    }

    /// Kind of the cells, where the transform knows it.
    pub open spec fn kind(self) -> Option<ColumnKind> {
        match self {
            ColumnView::Int32(_) => Some(ColumnKind::Int32),
            ColumnView::Float32(_) => Some(ColumnKind::Float32),
            ColumnView::Float64(_) => Some(ColumnKind::Float64),
            ColumnView::Int32List(_) => Some(ColumnKind::Int32List),
            ColumnView::Float64List(_) => Some(ColumnKind::Float64List),
            ColumnView::Unsupported(_) => None,
        }
    }
}

impl View for ColumnData {
    type V = ColumnView;

    open spec fn view(&self) -> ColumnView {
        match self {
            ColumnData::Int32(cells) => ColumnView::Int32(cells@),
            ColumnData::Float32(cells) => ColumnView::Float32(cells@),
            ColumnData::Float64(cells) => ColumnView::Float64(cells@),
            ColumnData::Int32List(cells) => ColumnView::Int32List(
                cells@.map_values(|list: Vec<i32>| list@),
            ),
            ColumnData::Float64List(cells) => ColumnView::Float64List(
                cells@.map_values(|list: Vec<Double>| list@),
            ),
            ColumnData::Unsupported(n) => ColumnView::Unsupported(*n as nat),
        }
    }
}

impl ColumnData {
    /// Number of cells.
    pub fn len(&self) -> (n: usize)
        ensures
            n == self@.len(),
    {
        match self {
            ColumnData::Int32(cells) => cells.len(),
            ColumnData::Float32(cells) => cells.len(),
            ColumnData::Float64(cells) => cells.len(),
            ColumnData::Int32List(cells) => cells.len(),
            ColumnData::Float64List(cells) => cells.len(),
            ColumnData::Unsupported(n) => *n,
        }
    }

    /// Kind of the cells, where the transform knows it.
    pub fn kind(&self) -> (k: Option<ColumnKind>)
        ensures
            k == self@.kind(),
    {
        match self {
            ColumnData::Int32(_) => Some(ColumnKind::Int32),
            ColumnData::Float32(_) => Some(ColumnKind::Float32),
            ColumnData::Float64(_) => Some(ColumnKind::Float64),
            ColumnData::Int32List(_) => Some(ColumnKind::Int32List),
            ColumnData::Float64List(_) => Some(ColumnKind::Float64List),
            ColumnData::Unsupported(_) => None,
        }
    }
}

/// Mathematical value of a [`Table`]: its height and the columns it has.
pub ghost struct TableView {
    pub height: nat,
    pub columns: Map<ColumnId, ColumnView>,
}

impl TableView {
    /// Every column has as many cells as the table has rows.
    pub open spec fn wf(self) -> bool {
        forall|id: ColumnId| #[trigger]
            self.columns.contains_key(id) ==> self.columns[id].len() == self.height
    }

    /// The cells of an integer column; `None` where the table lacks the
    /// column or it holds cells of another kind.
    pub open spec fn int_column(self, id: ColumnId) -> Option<Seq<Option<i32>>> {
        if self.columns.contains_key(id) {
            match self.columns[id] {
                ColumnView::Int32(cells) => Some(cells),
                _ => None,
            }
        } else {
            None
        }
    }

    /// The cells of a binary32 column; `None` where the table lacks the
    /// column or it holds cells of another kind.
    pub open spec fn single_column(self, id: ColumnId) -> Option<Seq<Option<Single>>> {
        if self.columns.contains_key(id) {
            match self.columns[id] {
                ColumnView::Float32(cells) => Some(cells),
                _ => None,
            }
        } else {
            None
        }
    }

    /// The cells of a binary64 column; `None` where the table lacks the
    /// column or it holds cells of another kind.
    pub open spec fn double_column(self, id: ColumnId) -> Option<Seq<Option<Double>>> {
        if self.columns.contains_key(id) {
            match self.columns[id] {
                ColumnView::Float64(cells) => Some(cells),
                _ => None,
            }
        } else {
            None
        }
    }

    /// The cell of an integer column in a row; null where there is no such
    /// column or no such row.
    pub open spec fn int_cell(self, id: ColumnId, row: int) -> Option<i32> {
        match self.int_column(id) {
            Some(cells) => if 0 <= row < cells.len() {
                cells[row]
            } else {
                None
            },
            None => None,
        }
    }

    /// The cell of a binary32 column in a row; null where there is no such
    /// column or no such row.
    pub open spec fn single_cell(self, id: ColumnId, row: int) -> Option<Single> {
        match self.single_column(id) {
            Some(cells) => if 0 <= row < cells.len() {
                cells[row]
            } else {
                None
            },
            None => None,
        }
    }

    /// The cell of a binary64 column in a row; null where there is no such
    /// column or no such row.
    pub open spec fn double_cell(self, id: ColumnId, row: int) -> Option<Double> {
        match self.double_column(id) {
            Some(cells) => if 0 <= row < cells.len() {
                cells[row]
            } else {
                None
            },
            None => None,
        }
    }
}

/// A table. Each column it has is as long as the table is high; this is kept
/// as the type's invariant, so every table a caller can hold is well formed.
#[derive(Debug, PartialEq, Eq)]
pub struct Table {
    height: usize,
    slots: Vec<Option<ColumnData>>,
}

impl View for Table {
    type V = TableView;

    closed spec fn view(&self) -> TableView {
        TableView {
            height: self.height as nat,
            columns: Map::new(
                |id: ColumnId| self.slots@[id.spec_index() as int] is Some,
                |id: ColumnId| self.slots@[id.spec_index() as int]->0@,
            ),
        }
    }
}

impl Table {
    #[verifier::type_invariant]
    spec fn inv(self) -> bool {
        &&& self.slots@.len() == COLUMN_COUNT
        &&& forall|i: int|
            0 <= i < self.slots@.len() && (#[trigger] self.slots@[i]) is Some
                ==> self.slots@[i]->0@.len() == self.height
    }

    /// A table of the given height that has no column yet.
    pub fn new(height: usize) -> (table: Table)
        ensures
            table@.height == height,
            table@.columns == Map::<ColumnId, ColumnView>::empty(),
            table@.wf(),
    {
        let mut slots: Vec<Option<ColumnData>> = Vec::new();
        let mut i: usize = 0;
        while i < COLUMN_COUNT
            invariant
                i <= COLUMN_COUNT,
                slots@.len() == i,
                forall|j: int| 0 <= j < i ==> slots@[j] is None,
            decreases COLUMN_COUNT - i,
        {
            slots.push(None);
            i = i + 1;
        }
        let table = Table { height, slots };
        assert(table@.columns =~= Map::<ColumnId, ColumnView>::empty());
        table
    }

    /// Number of rows.
    pub fn height(&self) -> (h: usize)
        ensures
            h == self@.height,
            self@.wf(),
    {
        proof {
            use_type_invariant(self);
        }
        self.height
    }

    /// Whether the table has the column.
    pub fn has(&self, id: ColumnId) -> (b: bool)
        ensures
            b == self@.columns.contains_key(id),
    {
        proof {
            use_type_invariant(self);
        }
        self.slots[id.index()].is_some()
    }

    /// The cells of a column, if the table has it.
    pub fn column(&self, id: ColumnId) -> (data: Option<&ColumnData>)
        ensures
            self@.wf(),
            match data {
                Some(d) => self@.columns.contains_key(id) && d@ == self@.columns[id] && d@.len()
                    == self@.height,
                None => !self@.columns.contains_key(id),
            },
    {
        proof {
            use_type_invariant(self);
        }
        self.slots[id.index()].as_ref()
    }

    /// The cell of an integer column in a row; null where there is no such
    /// column or no such row.
    pub fn int_cell(&self, id: ColumnId, row: u64) -> (cell: Option<i32>)
        ensures
            cell == self@.int_cell(id, row as int),
    {
        match self.column(id) {
            Some(ColumnData::Int32(cells)) => {
                if row < cells.len() as u64 {
                    cells[row as usize]
                } else {
                    None
                }
            },
            _ => None,
        }
    }

    /// The cell of a binary32 column in a row; null where there is no such
    /// column or no such row.
    pub fn single_cell(&self, id: ColumnId, row: u64) -> (cell: Option<Single>)
        ensures
            cell == self@.single_cell(id, row as int),
    {
        match self.column(id) {
            Some(ColumnData::Float32(cells)) => {
                if row < cells.len() as u64 {
                    cells[row as usize]
                } else {
                    None
                }
            },
            _ => None,
        }
    }

    /// The cell of a binary64 column in a row; null where there is no such
    /// column or no such row.
    pub fn double_cell(&self, id: ColumnId, row: u64) -> (cell: Option<Double>)
        ensures
            cell == self@.double_cell(id, row as int),
    {
        match self.column(id) {
            Some(ColumnData::Float64(cells)) => {
                if row < cells.len() as u64 {
                    cells[row as usize]
                } else {
                    None
                }
            },
            _ => None,
        }
    }

    /// Puts a column into the table, in place of the one it had under that
    /// name if any. A column of another length than the table's height is
    /// refused: the table stays as it was and the answer is `false`.
    pub fn set(&mut self, id: ColumnId, data: ColumnData) -> (done: bool)
        ensures
            done == (data@.len() == old(self)@.height),
            done ==> final(self)@ == (TableView {
                height: old(self)@.height,
                columns: old(self)@.columns.insert(id, data@),
            }),
            !done ==> final(self)@ == old(self)@,
            final(self)@.wf(),
    {
        proof {
            use_type_invariant(&*self);
        }
        if data.len() != self.height {
            return false;
        }
        let ghost value = data@;
        let mut taken = Table::new(0);
        core::mem::swap(self, &mut taken);
        let Table { height, mut slots } = taken;
        let ghost before = slots@;
        slots.set(id.index(), Some(data));
        *self = Table { height, slots };
        assert(self@.columns =~= old(self)@.columns.insert(id, value)) by {
            assert forall|other: ColumnId| other != id implies self.slots@[other.spec_index() as int]
                == before[other.spec_index() as int] by {
                crate::catalog::lemma_index_round_trip(other, 0);
                crate::catalog::lemma_index_round_trip(id, 0);
            }
        }
        true
    }

    /// Takes a column out of the table. The answer says whether the table had
    /// it.
    pub fn remove(&mut self, id: ColumnId) -> (had: bool)
        ensures
            had == old(self)@.columns.contains_key(id),
            final(self)@ == (TableView {
                height: old(self)@.height,
                columns: old(self)@.columns.remove(id),
            }),
            final(self)@.wf(),
    {
        proof {
            use_type_invariant(&*self);
        }
        let had = self.slots[id.index()].is_some();
        let mut taken = Table::new(0);
        core::mem::swap(self, &mut taken);
        let Table { height, mut slots } = taken;
        let ghost before = slots@;
        slots.set(id.index(), None);
        *self = Table { height, slots };
        assert(self@.columns =~= old(self)@.columns.remove(id)) by {
            assert forall|other: ColumnId| other != id implies self.slots@[other.spec_index() as int]
                == before[other.spec_index() as int] by {
                crate::catalog::lemma_index_round_trip(other, 0);
                crate::catalog::lemma_index_round_trip(id, 0);
            }
        }
        had
    }
}

} // verus!
