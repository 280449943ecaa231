//! Column descriptions.
use crate::types::{ColumnId, LogicalType};
use std::sync::Arc;
use vstd::prelude::*;

verus! {

/// A shared column description.
pub type ColumnRef = Arc<ColumnCatalog>;

/// A column of a table: its identifier, once the table is stored, its name
/// and its type.
#[derive(Debug, Clone, PartialEq, Eq, Hash)]
pub struct ColumnCatalog {
    pub id: Option<ColumnId>,
    pub name: String,
    pub table_name: Option<String>,
    pub nullable: bool,
    pub desc: ColumnDesc,
}

/// The type of a column and its key properties.
#[derive(Debug, Clone, Copy, PartialEq, Eq, Hash)]
pub struct ColumnDesc {
    pub column_datatype: LogicalType,
    pub is_primary: bool,
    pub is_unique: bool,
}

impl ColumnDesc {
    /// A description of a column of the given type.
    pub fn new(column_datatype: LogicalType, is_primary: bool, is_unique: bool) -> (r: ColumnDesc)
        ensures
            r.column_datatype == column_datatype,
            r.is_primary == is_primary,
            r.is_unique == is_unique,
    {
        ColumnDesc { column_datatype, is_primary, is_unique }
    }
}

impl ColumnCatalog {
    /// The column's name.
    pub fn name(&self) -> (r: &String)
        ensures
            *r == self.name,
    {
        &self.name
    }

    /// The column's type.
    pub fn datatype(&self) -> (r: LogicalType)
        ensures
            r == self.desc.column_datatype,
    {
        self.desc.column_datatype
    }
}

} // verus!
