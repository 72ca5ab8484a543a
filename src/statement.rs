use vstd::prelude::*;
use crate::row::Row;

verus! {

/// What a meta command (a line that starts with '.') asks for.
#[derive(Debug, Clone, Copy, PartialEq, Eq, Structural)]
pub enum MetaCommandResult {
    Success,
    UnrecognizedCommand,
    /// The session should end.
    Exit,
}

/// How reading a statement from a line went.
#[derive(Debug, Clone, Copy, PartialEq, Eq, Structural)]
pub enum PrepareResult {
    Success,
    UnrecognizedStatement,
    SyntaxError,
}

#[derive(Debug, Clone, Copy, PartialEq, Eq, Structural)]
pub enum StatementType {
    Insert,
    Select,
}

/// A parsed command: an insert carries the row to store.
#[derive(Debug)]
pub struct Statement {
    pub stype: StatementType,
    pub row_to_insert: Option<Row>,
}

impl Statement {
    /// A select statement, the default before any line is read.
    pub fn new() -> (s: Statement)
        ensures
            s.stype == StatementType::Select,
            s.row_to_insert is None,
    {
        Statement { stype: StatementType::Select, row_to_insert: None }
    }
}

} // verus!
