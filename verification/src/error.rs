//! What can go wrong, by the part of the work that failed.

use crate::store::store_error_text;
use vstd::prelude::*;
use vstd::string::StringExecFns;

verus! {

/// A failure, with what the store said about it where the store spoke.
#[derive(Clone, Debug, PartialEq, Eq)]
pub enum DatabaseError {
    /// The store root is missing, is no valid store or may not be read.
    Open(String),
    /// No table goes by the name asked for, or the name is none that a
    /// table can have.
    NotFound,
    /// A transaction could not be begun, or a cursor failed on its way.
    Transaction(String),
}

impl DatabaseError {
    /// The failure to open an environment, with what the store said of it.
    pub fn from_open_failure(cause: &heed::Error) -> (error: DatabaseError)
        ensures
            error is Open,
    {
        DatabaseError::Open(store_error_text(cause))
    }

    /// The failure of a transaction or of a cursor, with what the store said
    /// of it.
    pub fn from_read_failure(cause: &heed::Error) -> (error: DatabaseError)
        ensures
            error is Transaction,
    {
        DatabaseError::Transaction(store_error_text(cause))
    }

    /// The failure in words.
    pub fn to_string(&self) -> (text: String)
        ensures
            text@ == match *self {
                DatabaseError::Open(cause) => "Failed to open env: "@ + cause@,
                DatabaseError::NotFound => "database not found"@,
                DatabaseError::Transaction(cause) => "Failed to read db: "@ + cause@,
            },
    {
        match self {
            DatabaseError::Open(cause) => {
                let mut text = "Failed to open env: ".to_owned();
                text.append(cause.as_str());
                text
            },
            DatabaseError::NotFound => "database not found".to_owned(),
            DatabaseError::Transaction(cause) => {
                let mut text = "Failed to read db: ".to_owned();
                text.append(cause.as_str());
                text
            },
        }
    }
}

} // verus!
