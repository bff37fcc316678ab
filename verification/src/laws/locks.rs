//! Laws of the transactions that environments hold.

use crate::binparser::decode_any_word;
use crate::error::{Error, ParseError};
use crate::ids::{locked_out, EnvId};
use crate::laws::format::law_data_or_word;
use crate::model::{pass_outcome, resume_outcome, word_effect, Effect, Locks, Outcome, Stack};
use crate::storage::{Answer, Asked, Txn};
use crate::words::{ASSOC, ASSOCQ, COMMIT, READ, READ_END, RETR, WRITE, WRITE_END};
use vstd::prelude::*;

verus! {

/// A word that is locked out is executed again from the same point: the program, the stack
/// and the holders of the transactions are what they were.
pub proof fn law_rescheduled_from_the_same_point(
    program: Seq<u8>,
    len: nat,
    stack: Stack,
    locks: Locks,
    pid: EnvId,
)
    requires
        decode_any_word(program) == Ok::<nat, ParseError>(len),
        word_effect(program.take(len as int), stack, locks, pid) is Retry,
    ensures
        pass_outcome(program, stack, locks, pid) == (
            locks,
            Outcome::Done { stack, program: Some(program) },
        ),
{
    law_data_or_word(program);
}

/// Which words are locked out: all that deal with the store while somebody else holds the
/// write transaction, and those that begin or end a read transaction while somebody else
/// holds one, if they find the code that they need on the stack.
pub proof fn law_who_is_locked_out(word: Seq<u8>, stack: Stack, locks: Locks, pid: EnvId)
    ensures
        word_effect(word, stack, locks, pid) is Retry <==> {
            let write = locked_out(locks.write, pid);
            let read = locked_out(locks.read, pid);
            ||| word == WRITE@ && stack.len() > 0 && write
            ||| word == READ@ && stack.len() > 0 && (read || write)
            ||| word == READ_END@ && (read || write)
            ||| word == WRITE_END@ && write
            ||| word == ASSOC@ && write
            ||| word == ASSOCQ@ && write
            ||| word == RETR@ && write
            ||| word == COMMIT@ && write
        },
{
}

/// While somebody else holds the write transaction, nothing is asked of the store and nobody
/// comes to hold or ceases to hold a transaction.
pub proof fn law_write_transaction_excludes(
    program: Seq<u8>,
    stack: Stack,
    locks: Locks,
    pid: EnvId,
)
    requires
        locked_out(locks.write, pid),
    ensures
        pass_outcome(program, stack, locks, pid).1 !is Waiting,
        pass_outcome(program, stack, locks, pid).0 == locks,
{
}

/// Nobody ends a transaction that somebody else holds, and nobody comes to hold one before the
/// store has opened it.
pub proof fn law_pass_keeps_the_locks_of_others(
    program: Seq<u8>,
    stack: Stack,
    locks: Locks,
    pid: EnvId,
)
    ensures
        ({
            let after = pass_outcome(program, stack, locks, pid).0;
            &&& after.write == locks.write || after.write is None && locks.write == Some(pid)
            &&& after.read == locks.read || after.read is None && locks.read == Some(pid)
        }),
{
}

/// A transaction that the store has opened is held by the environment that asked for it.
pub proof fn law_transaction_is_held(
    txn: Txn,
    program: Seq<u8>,
    stack: Stack,
    locks: Locks,
    pid: EnvId,
    value: Option<Seq<u8>>,
)
    ensures
        ({
            let after = resume_outcome(Asked::Begin(txn), program, stack, locks, pid, Ok(value)).0;
            match txn {
                Txn::Write => after.write == Some(pid) && after.read == locks.read,
                Txn::Read => after.read == Some(pid) && after.write == locks.write,
            }
        }),
{
}

/// No answer but to a request to open a transaction changes who holds one, and neither does an
/// error.
pub proof fn law_answer_keeps_the_locks(
    request: Asked,
    program: Seq<u8>,
    stack: Stack,
    locks: Locks,
    pid: EnvId,
    answer: Answer,
)
    requires
        request !is Begin || answer is Err,
    ensures
        resume_outcome(request, program, stack, locks, pid, answer).0 == locks,
{
}

/// Nothing is written or committed but by the holder of the write transaction, nothing is
/// looked up in a transaction that is not open, and nobody looks up anything in somebody
/// else's write transaction.
pub proof fn law_store_is_used_in_transactions(
    program: Seq<u8>,
    stack: Stack,
    locks: Locks,
    pid: EnvId,
)
    ensures
        pass_outcome(program, stack, locks, pid).1 matches Outcome::Waiting { request, .. } ==> (
        match request {
            Asked::Put { .. } => locks.write == Some(pid),
            Asked::Commit => locks.write == Some(pid),
            Asked::Get { txn: Txn::Write, .. } => locks.write == Some(pid),
            Asked::Has { txn: Txn::Write, .. } => locks.write == Some(pid),
            Asked::Get { txn: Txn::Read, .. } => locks.write is None && locks.read is Some,
            Asked::Has { txn: Txn::Read, .. } => locks.write is None && locks.read is Some,
            Asked::Begin(_) => true,
            Asked::End(Txn::Write) => locks.write is None || locks.write == Some(pid),
            Asked::End(Txn::Read) => locks.read is None || locks.read == Some(pid),
        }),
{
}

/// Without a transaction, values are neither recorded nor retrieved.
pub proof fn law_no_transaction(word: Seq<u8>, stack: Stack, locks: Locks, pid: EnvId)
    requires
        locks.write is None,
        word == ASSOC@ || word == COMMIT@ || (locks.read is None && stack.len() > 0 && (word
            == RETR@ || word == ASSOCQ@)),
    ensures
        word_effect(word, stack, locks, pid) matches Effect::Fail { error, .. } && error
            == Error::NoTransaction,
{
}

} // verus!
