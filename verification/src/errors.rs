//! The generic error of storage-level operations.

use vstd::prelude::*;

verus! {

/// Failures of loading, decoding or addressing stored data.
#[derive(Debug)]
pub enum StdError {
    /// A record that must exist does not.
    NotFound { kind: String },
    /// A failure described by its message.
    GenericErr { msg: String },
    /// Stored bytes that do not decode to the expected type.
    ParseErr { target_type: String, msg: String },
    /// An index at or beyond the end of a vector.
    OutOfBounds { key: u32 },
}

impl Clone for StdError {
    fn clone(&self) -> (r: Self)
        ensures
            r == *self,
    {
        match self {
            StdError::NotFound { kind } => StdError::NotFound { kind: kind.clone() },
            StdError::GenericErr { msg } => StdError::GenericErr { msg: msg.clone() },
            StdError::ParseErr { target_type, msg } => StdError::ParseErr {
                target_type: target_type.clone(),
                msg: msg.clone(),
            },
            StdError::OutOfBounds { key } => StdError::OutOfBounds { key: *key },
        }
    }
}

/// The first failure among a sequence of outcomes, if any.
pub open spec fn first_err<T>(s: Seq<Result<T, StdError>>) -> Option<StdError>
    decreases s.len(),
{
    if s.len() == 0 {
        None
    } else {
        match first_err(s.drop_last()) {
            Some(e) => Some(e),
            None => match s.last() {
                Err(e) => Some(e),
                Ok(_) => None,
            },
        }
    }
}

} // verus!
