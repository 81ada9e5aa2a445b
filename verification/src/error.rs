use vstd::prelude::*;

verus! {

/// The ways in which a database operation can fail.
#[derive(Debug, Clone, Copy, PartialEq, Eq, Structural)]
pub enum DatabaseError {
    /// The configuration forbids the operation (read-only, or table limit reached).
    DatabaseConfigError,
    /// The requested table or row does not exist.
    NotFound,
    /// No connection is active.
    NoConnection,
    /// The data is invalid (for example a table name that is already taken).
    InvalidData,
}

/// The name of an error, as `{:?}` shows it.
pub open spec fn error_name(e: DatabaseError) -> Seq<char> {
    match e {
        DatabaseError::DatabaseConfigError => "DatabaseConfigError"@,
        DatabaseError::NotFound => "NotFound"@,
        DatabaseError::NoConnection => "NoConnection"@,
        DatabaseError::InvalidData => "InvalidData"@,
    }
}

impl DatabaseError {
    /// The name of the error, as `{:?}` shows it.
    pub fn name(&self) -> (r: &'static str)
        ensures
            r@ == error_name(*self),
    {
        match self {
            DatabaseError::DatabaseConfigError => "DatabaseConfigError",
            DatabaseError::NotFound => "NotFound",
            DatabaseError::NoConnection => "NoConnection",
            DatabaseError::InvalidData => "InvalidData",
        }
    }
}

} // verus!
