//! Why a request failed.

use vstd::prelude::*;

verus! {

/// The error of a storage provider.
#[derive(Debug, PartialEq, Eq)]
pub enum Error {
    /// There is no blob with the requested hash.
    NotFound,
    /// The requested range ends before it starts.
    BadRange,
    /// Some operational problem occurred, such as in I/O or communication.
    Internal(String),
}

impl Clone for Error {
    fn clone(&self) -> (copy: Error)
        ensures
            copy == *self,
    {
        match self {
            Error::NotFound => Error::NotFound,
            Error::BadRange => Error::BadRange,
            Error::Internal(message) => Error::Internal(message.clone()),
        }
    }
}

} // verus!
