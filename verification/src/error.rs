//! The errors that a program can end with, and those of the parsers.

use vstd::prelude::*;

verus! {

/// The code by which the store reports that a key is already there.
pub const KEYEXIST: i32 = -30799;

/// An error of the store.
#[derive(Debug, PartialEq, Clone)]
pub enum StorageError {
    /// A numeric code: one of the store's own if negative, of the platform otherwise.
    Code(i32),
    /// A path contains a `NUL` byte.
    NulStr,
    /// A database was opened a second time.
    Reopened,
    /// Two items that do not belong together were used together.
    Mismatch,
    /// A value was rejected, with the reason.
    ValRejected(String),
}

/// `Error` represents an enumeration of possible executor errors.
#[derive(Debug, PartialEq, Clone)]
pub enum Error {
    /// An attempt to get a value off the top of the stack was made,
    /// but the stack was empty.
    EmptyStack,
    /// Word is unknown
    UnknownWord,
    /// Binary format decoding failed
    DecodingError,
    /// Database error
    DatabaseError(StorageError),
    /// Duplicate key
    DuplicateKey,
    /// Key not found
    UnknownKey,
    /// No active transaction
    NoTransaction,
    /// An internal scheduler's error to indicate that the currently
    /// executed environment should be rescheduled from the same point
    Reschedule,
}

/// Parse-related error
#[derive(Debug, PartialEq)]
pub enum ParseError {
    /// Incomplete input
    Incomplete,
    /// Error with a code
    Code(u32),
    /// Unknown error
    UnknownErr,
}

} // verus!
