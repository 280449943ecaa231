//! Index entries.
use crate::types::tuple::TupleId;
use crate::types::value::ValueRef;
use crate::types::ColumnId;
use vstd::prelude::*;

verus! {

/// Identifier of an index inside its table.
pub type IndexId = u32;

/// What a table records of one of its indexes.
#[derive(Debug, Clone, Eq, PartialEq)]
pub struct IndexMeta {
    pub id: IndexId,
    pub column_ids: Vec<ColumnId>,
    pub name: String,
}

/// One entry of an index: the indexed values and the rows that hold them.
pub struct Index {
    pub id: IndexId,
    pub column_values: Vec<ValueRef>,
    pub value: IndexValue,
}

/// The rows of an index entry.
#[derive(Debug, Clone, Eq, PartialEq)]
pub struct IndexValue {
    pub tuple_ids: Vec<TupleId>,
    pub is_unique: bool,
}

} // verus!
