//! A small in-process record store: named tables of schemaless records, a
//! positional id index, and a minimal statement language on top of it.
//!
//! - `row`, `record`: a record's columns and the record itself.
//! - `table`: records in storage order with the index from id to position.
//! - `condition`, `parser`: conditions and statements, and how text becomes them.
//! - `engine`: running a statement against one table.
//! - `database`: the tables by name, and the operations on them.
//! - `snapshot`: the whole state as plain values and as bytes.
//! - `laws`: what holds across operations.
//! - `text`: the string primitives underneath.

pub mod condition;
pub mod database;
pub mod engine;
pub mod error;
pub mod laws;
pub mod parser;
pub mod record;
pub mod row;
pub mod snapshot;
pub mod table;
pub mod text;

pub use condition::Condition;
pub use database::Database;
pub use error::DbError;
pub use parser::SqlStatement;
pub use record::Record;
pub use row::RowData;
pub use snapshot::{StoredRecord, StoredTable};
pub use table::Table;
