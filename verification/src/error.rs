//! What can go wrong in either direction of the transform.

use vstd::prelude::*;
use crate::catalog::ColumnId;

verus! {

/// Why a document cannot be flattened.
#[derive(Clone, Copy, Debug, PartialEq, Eq, Structural)]
pub enum FlattenError {
    /// The document has more segments than a 32-bit signed integer can
    /// number.
    TooManySegments,
}

/// Why a table cannot be rebuilt into a document.
#[derive(Clone, Copy, Debug, PartialEq, Eq, Structural)]
pub enum RebuildError {
    /// The table lacks a column that the rebuild reads.
    MissingColumn(ColumnId),
    /// The table has the column, with cells of another kind than the catalog
    /// gives it.
    WrongKind(ColumnId),
    /// The table has more rows than the table engine can number.
    TooManyRows,
    /// The table engine reported that it could not partition the rows by the
    /// column. What is claimed of the engine rules this out; the variant is
    /// the answer should the engine not keep to it.
    Grouping(ColumnId),
    /// A partition handed to the assembly names a row that the table does not
    /// have, or has an empty part.
    InvalidGrouping,
}

impl RebuildError {
    /// The column at fault, where the error names one.
    pub open spec fn spec_column(self) -> Option<ColumnId> {
        match self {
            RebuildError::MissingColumn(id) => Some(id),
            RebuildError::WrongKind(id) => Some(id),
            RebuildError::Grouping(id) => Some(id),
            RebuildError::TooManyRows => None,
            RebuildError::InvalidGrouping => None,
        }
    }

    #[verifier::when_used_as_spec(spec_column)]
    pub fn column(self) -> (id: Option<ColumnId>)
        ensures
            id == self.spec_column(),
    {
        match self {
            RebuildError::MissingColumn(id) => Some(id),
            RebuildError::WrongKind(id) => Some(id),
            RebuildError::Grouping(id) => Some(id),
            RebuildError::TooManyRows => None,
            RebuildError::InvalidGrouping => None,
        }
    }

    /// Whether the error is a fault of the table's schema: a column that is
    /// missing or holds cells of the wrong kind.
    pub open spec fn spec_is_schema(self) -> bool {
        self is MissingColumn || self is WrongKind
    }

    #[verifier::when_used_as_spec(spec_is_schema)]
    pub fn is_schema(self) -> (b: bool)
        ensures
            b == self.spec_is_schema(),
    {
        match self {
            RebuildError::MissingColumn(_) => true,
            RebuildError::WrongKind(_) => true,
            _ => false,
        }
    }
}

} // verus!
