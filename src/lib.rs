//! The storage core of a single-table record database: a fixed-width row
//! codec, a paged in-memory row store with lazily allocated pages, and the
//! step that applies a parsed insert or select to it.

pub mod row;
pub mod table;
pub mod statement;
pub mod executor;
pub mod input_buffer;
pub mod parser;
