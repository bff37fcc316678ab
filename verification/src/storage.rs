//! What a program asks of the store, and what the store answers.
//!
//! The VM does not reach for the store itself. Whoever runs the VM holds the transactions,
//! performs what is asked for and hands back the answer.

use crate::error::StorageError;
use vstd::prelude::*;

verus! {

/// A transaction of the store.
#[derive(Debug, Clone, Copy, PartialEq, Eq, Structural)]
pub enum Txn {
    /// The write transaction.
    Write,
    /// The read transaction.
    Read,
}

/// What a program asks of the store.
#[derive(Debug, PartialEq)]
pub enum StorageRequest {
    /// Open a transaction, in place of the one of that kind that may be open.
    Begin(Txn),
    /// Give a transaction up, with what was written in it.
    End(Txn),
    /// Record a value under a key that has none, in the write transaction.
    Put {
        /// The key.
        key: Vec<u8>,
        /// The value.
        value: Vec<u8>,
    },
    /// Look up the value under a key, to push it.
    Get {
        /// The transaction to look in.
        txn: Txn,
        /// The key.
        key: Vec<u8>,
    },
    /// Look up the value under a key, to tell whether there is one.
    Has {
        /// The transaction to look in.
        txn: Txn,
        /// The key.
        key: Vec<u8>,
    },
    /// Commit the write transaction, which is over with that.
    Commit,
}

/// What the store answers: a value that was looked up, nothing, or an error.
pub type StorageReply = Result<Option<Vec<u8>>, StorageError>;

/// A [`StorageRequest`] on mathematical values.
pub enum Asked {
    Begin(Txn),
    End(Txn),
    Put { key: Seq<u8>, value: Seq<u8> },
    Get { txn: Txn, key: Seq<u8> },
    Has { txn: Txn, key: Seq<u8> },
    Commit,
}

/// A [`StorageReply`] on mathematical values.
pub type Answer = Result<Option<Seq<u8>>, StorageError>;

impl View for StorageRequest {
    type V = Asked;

    open spec fn view(&self) -> Asked {
        match *self {
            StorageRequest::Begin(txn) => Asked::Begin(txn),
            StorageRequest::End(txn) => Asked::End(txn),
            StorageRequest::Put { key, value } => Asked::Put { key: key@, value: value@ },
            StorageRequest::Get { txn, key } => Asked::Get { txn, key: key@ },
            StorageRequest::Has { txn, key } => Asked::Has { txn, key: key@ },
            StorageRequest::Commit => Asked::Commit,
        }
    }
}

/// The mathematical value of a reply.
pub open spec fn answer_of(reply: StorageReply) -> Answer {
    match reply {
        Ok(Some(value)) => Ok(Some(value@)),
        Ok(None) => Ok(None),
        Err(error) => Err(error),
    }
}

} // verus!
