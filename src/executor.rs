use vstd::prelude::*;
use crate::row::Row;
use crate::statement::{Statement, StatementType};
use crate::table::{Table, TableError, TABLE_MAX_ROWS};

verus! {

/// Applies one statement to the table. An insert appends its row and returns
/// no rows; a select returns every stored row in insertion order and changes
/// nothing.
pub fn execute_statement(statement: &Statement, table: &mut Table) -> (r: Result<
    Vec<Row>,
    TableError,
>)
    requires
        old(table).wf(),
        statement.stype == StatementType::Insert ==> (statement.row_to_insert matches Some(row)
            && row.wf()),
    ensures
        final(table).wf(),
        statement.stype == StatementType::Select ==> *final(table) == *old(table),
        statement.stype == StatementType::Select ==> (r matches Ok(rows)
            && rows@.len() == old(table).rows().len() && forall|i: int|
            0 <= i < rows@.len() ==> (#[trigger] rows@[i]).wf() && rows@[i]@ == old(table).rows()[i]),
        statement.stype == StatementType::Insert && old(table).num_rows == TABLE_MAX_ROWS ==> (r
            matches Err(e) && e == TableError::TableFull && *final(table) == *old(table)),
        statement.stype == StatementType::Insert && old(table).num_rows < TABLE_MAX_ROWS ==> (r
            matches Ok(rows) && rows@.len() == 0 && final(table).num_rows == old(table).num_rows
            + 1 && final(table).rows() == old(table).rows().push(statement.row_to_insert.unwrap()@)),
        old(table).lazily_filled() ==> final(table).lazily_filled(),
{
    match statement.stype {
        StatementType::Insert => {
            let row = statement.row_to_insert.as_ref().unwrap();
            match table.insert_row(row) {
                Ok(()) => Ok(Vec::new()),
                Err(e) => Err(e),
            }
        },
        StatementType::Select => Ok(table.select_rows()),
    }
}

} // verus!
