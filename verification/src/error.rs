//! The failures that the store reports to its caller.

use vstd::prelude::*;

verus! {

/// Why an operation on the store was refused.
#[derive(Clone, Copy, Debug, PartialEq, Eq, Structural)]
pub enum DbError {
    /// No table of that name is registered.
    TableNotFound,
    /// A table of that name is registered already.
    TableAlreadyExists,
    /// No record with that id is indexed in the table.
    RecordNotFound,
    /// A record with that id is indexed in the table already.
    RecordAlreadyExists,
    /// The statement text lacks a required keyword or is cut short.
    ParseError,
    /// The statement's leading word is none of the four verbs.
    UnsupportedStatement,
    /// Stored state could not be written, read back or made sense of.
    PersistenceError,
}

/// The sentence that describes each failure.
pub open spec fn description(e: DbError) -> Seq<char> {
    match e {
        DbError::TableNotFound => "Table not found"@,
        DbError::TableAlreadyExists => "Table already exists"@,
        DbError::RecordNotFound => "Record not found"@,
        DbError::RecordAlreadyExists => "Record already exists"@,
        DbError::ParseError => "Invalid statement"@,
        DbError::UnsupportedStatement => "Unsupported SQL statement"@,
        DbError::PersistenceError => "Stored state could not be written or read"@,
    }
}

impl DbError {
    /// A sentence that describes the failure.
    pub fn message(&self) -> (r: &'static str)
        ensures
            r@ == description(*self),
    {
        match self {
            DbError::TableNotFound => "Table not found",
            DbError::TableAlreadyExists => "Table already exists",
            DbError::RecordNotFound => "Record not found",
            DbError::RecordAlreadyExists => "Record already exists",
            DbError::ParseError => "Invalid statement",
            DbError::UnsupportedStatement => "Unsupported SQL statement",
            DbError::PersistenceError => "Stored state could not be written or read",
        }
    }
}

} // verus!
