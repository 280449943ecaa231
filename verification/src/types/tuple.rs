//! Rows.
use crate::catalog::ColumnRef;
use crate::types::value::ValueRef;
use vstd::prelude::*;

verus! {

/// Position of a row inside its table.
pub type TupleId = usize;

/// A row: one value for each column of the schema that produced it.
#[derive(Debug, Clone, PartialEq, Eq)]
pub struct Tuple {
    pub id: Option<TupleId>,
    pub columns: Vec<ColumnRef>,
    pub values: Vec<ValueRef>,
}

impl Tuple {
    /// A row holds exactly one value for each of its columns.
    pub open spec fn well_formed(self) -> bool {
        self.columns.len() == self.values.len()
    }
}

} // verus!
