//! The schema of a table: its name and the schemas of its columns.

use vstd::prelude::*;

use crate::write::schema::MeasurementSchema;

verus! {

/// The schema of a table.
#[derive(Debug, Clone)]
pub struct TableSchema {
    /// The table name.
    pub table_name: String,
    /// The schemas of the columns, in column order.
    pub column_schemas: Vec<MeasurementSchema>,
}

impl TableSchema {
    /// A table schema with the given name and columns.
    pub fn new(table_name: String, column_schemas: Vec<MeasurementSchema>) -> (t: Self)
        ensures
            t.table_name == table_name,
            t.column_schemas == column_schemas,
    {
        TableSchema { table_name, column_schemas }
    }
}

} // verus!
