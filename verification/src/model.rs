//! What programs mean: the effect of each instruction on the values on the stack and on
//! who holds the transactions.

use crate::binparser::{
    decode_any_word, decode_data, decode_size, encode, has_size, payload_of, size_len, MAX_SIZE,
};
use crate::env::Usage;
use crate::error::{Error, StorageError, KEYEXIST};
use crate::ids::{locked_out, EnvId};
use crate::numbers::le_bytes;
use crate::storage::{Answer, Asked, Txn};
use crate::words::{
    ASSOC, ASSOCQ, COMMIT, CONCAT, DEPTH, DROP, DUP, EVAL, OVER, READ, READ_END, RETR, ROT, SWAP,
    WRITE, WRITE_END,
};
use vstd::prelude::*;

verus! {

/// Values on the stack, the top of the stack last.
pub type Stack = Seq<Seq<u8>>;

/// Which environments hold the write and the read transaction.
pub struct Locks {
    /// The holder of the write transaction.
    pub write: Option<EnvId>,
    /// The holder of the read transaction.
    pub read: Option<EnvId>,
}

/// What a word does.
pub enum Effect {
    /// It leaves the stack so, and maybe code to be run before the rest of the program.
    Next { stack: Stack, code: Option<Seq<u8>> },
    /// It ends the program.
    Fail { stack: Stack, error: Error },
    /// It has to be tried again, as if nothing had happened.
    Retry,
    /// It asks something of the store. The code is to be run, before the rest of the
    /// program, if the store does not refuse.
    Ask { stack: Stack, locks: Locks, request: Asked, code: Seq<u8> },
}

/// A word that needs more values than there are takes those that there are.
pub open spec fn underflow() -> Effect {
    Effect::Fail { stack: Seq::empty(), error: Error::EmptyStack }
}

/// A word that only changes the stack.
pub open spec fn leaves(stack: Stack) -> Effect {
    Effect::Next { stack, code: None }
}

/// The value so many places below the top.
pub open spec fn below_top(stack: Stack, depth: int) -> Seq<u8> {
    stack[stack.len() - 1 - depth]
}

/// The stack without its topmost values.
pub open spec fn without(stack: Stack, count: int) -> Stack {
    stack.take(stack.len() - count)
}

/// `DROP` (a => ).
pub open spec fn drop_effect(stack: Stack) -> Effect {
    if stack.len() == 0 {
        underflow()
    } else {
        leaves(without(stack, 1))
    }
}

/// `DUP` (a => a, a).
pub open spec fn dup_effect(stack: Stack) -> Effect {
    if stack.len() == 0 {
        underflow()
    } else {
        leaves(stack.push(below_top(stack, 0)))
    }
}

/// `SWAP` (a, b => b, a).
pub open spec fn swap_effect(stack: Stack) -> Effect {
    if stack.len() < 2 {
        underflow()
    } else {
        leaves(without(stack, 2) + seq![below_top(stack, 0), below_top(stack, 1)])
    }
}

/// `OVER` (a, b => a, b, a).
pub open spec fn over_effect(stack: Stack) -> Effect {
    if stack.len() < 2 {
        underflow()
    } else {
        leaves(stack.push(below_top(stack, 1)))
    }
}

/// `ROT` (a, b, c => b, c, a).
pub open spec fn rot_effect(stack: Stack) -> Effect {
    if stack.len() < 3 {
        underflow()
    } else {
        leaves(
            without(stack, 3) + seq![
                below_top(stack, 1),
                below_top(stack, 0),
                below_top(stack, 2),
            ],
        )
    }
}

/// `DEPTH` pushes the number of values.
pub open spec fn depth_effect(stack: Stack) -> Effect {
    leaves(stack.push(encode(le_bytes(stack.len()))))
}

/// `CONCAT` (a, b => c): what the two values hold, in the order in which they were pushed.
pub open spec fn concat_effect(stack: Stack) -> Effect {
    if stack.len() < 2 {
        underflow()
    } else {
        leaves(
            without(stack, 2).push(
                encode(payload_of(below_top(stack, 1)) + payload_of(below_top(stack, 0))),
            ),
        )
    }
}

/// `EVAL` takes code off the stack and leaves it to be run.
pub open spec fn eval_effect(stack: Stack) -> Effect {
    if stack.len() == 0 {
        underflow()
    } else {
        Effect::Next { stack: without(stack, 1), code: Some(payload_of(below_top(stack, 0))) }
    }
}

/// `WRITE` takes code off the stack and leaves it to be run in a write transaction, which ends
/// with the code. Nobody begins one while somebody else holds one.
pub open spec fn write_effect(stack: Stack, locks: Locks, pid: EnvId) -> Effect {
    if stack.len() == 0 {
        underflow()
    } else if locked_out(locks.write, pid) {
        Effect::Retry
    } else {
        Effect::Ask {
            stack: without(stack, 1),
            locks,
            request: Asked::Begin(Txn::Write),
            code: payload_of(below_top(stack, 0)) + WRITE_END@,
        }
    }
}

/// The end of a write transaction.
pub open spec fn write_end_effect(stack: Stack, locks: Locks, pid: EnvId) -> Effect {
    if locked_out(locks.write, pid) {
        Effect::Retry
    } else {
        Effect::Ask {
            stack,
            locks: Locks { write: None, read: locks.read },
            request: Asked::End(Txn::Write),
            code: Seq::empty(),
        }
    }
}

/// `READ` takes code off the stack and leaves it to be run in a read transaction, which ends
/// with the code. Nobody begins one while somebody else holds a transaction.
pub open spec fn read_effect(stack: Stack, locks: Locks, pid: EnvId) -> Effect {
    if stack.len() == 0 {
        underflow()
    } else if locked_out(locks.read, pid) || locked_out(locks.write, pid) {
        Effect::Retry
    } else {
        Effect::Ask {
            stack: without(stack, 1),
            locks,
            request: Asked::Begin(Txn::Read),
            code: payload_of(below_top(stack, 0)) + READ_END@,
        }
    }
}

/// The end of a read transaction.
pub open spec fn read_end_effect(stack: Stack, locks: Locks, pid: EnvId) -> Effect {
    if locked_out(locks.read, pid) || locked_out(locks.write, pid) {
        Effect::Retry
    } else {
        Effect::Ask {
            stack,
            locks: Locks { write: locks.write, read: None },
            request: Asked::End(Txn::Read),
            code: Seq::empty(),
        }
    }
}

/// `ASSOC` records a value under a key, in the write transaction.
pub open spec fn assoc_effect(stack: Stack, locks: Locks, pid: EnvId) -> Effect {
    if locked_out(locks.write, pid) {
        Effect::Retry
    } else if locks.write is None {
        Effect::Fail { stack, error: Error::NoTransaction }
    } else if stack.len() < 2 {
        underflow()
    } else {
        Effect::Ask {
            stack: without(stack, 2),
            locks,
            request: Asked::Put { key: below_top(stack, 1), value: below_top(stack, 0) },
            code: Seq::empty(),
        }
    }
}

/// `COMMIT` commits the write transaction.
pub open spec fn commit_effect(stack: Stack, locks: Locks, pid: EnvId) -> Effect {
    if locked_out(locks.write, pid) {
        Effect::Retry
    } else if locks.write is None {
        Effect::Fail { stack, error: Error::NoTransaction }
    } else {
        Effect::Ask {
            stack,
            locks: Locks { write: None, read: locks.read },
            request: Asked::Commit,
            code: Seq::empty(),
        }
    }
}

/// The transaction that values are looked up in: the write transaction goes first.
pub open spec fn lookup_txn(locks: Locks) -> Option<Txn> {
    if locks.write is Some {
        Some(Txn::Write)
    } else if locks.read is Some {
        Some(Txn::Read)
    } else {
        None
    }
}

/// `RETR` retrieves the value under a key.
pub open spec fn retr_effect(stack: Stack, locks: Locks, pid: EnvId) -> Effect {
    if locked_out(locks.write, pid) {
        Effect::Retry
    } else if stack.len() == 0 {
        underflow()
    } else {
        match lookup_txn(locks) {
            None => Effect::Fail { stack: without(stack, 1), error: Error::NoTransaction },
            Some(txn) => Effect::Ask {
                stack: without(stack, 1),
                locks,
                request: Asked::Get { txn, key: below_top(stack, 0) },
                code: Seq::empty(),
            },
        }
    }
}

/// `ASSOC?` tells whether there is a value under a key.
pub open spec fn assocq_effect(stack: Stack, locks: Locks, pid: EnvId) -> Effect {
    if locked_out(locks.write, pid) {
        Effect::Retry
    } else if stack.len() == 0 {
        underflow()
    } else {
        match lookup_txn(locks) {
            None => Effect::Fail { stack: without(stack, 1), error: Error::NoTransaction },
            Some(txn) => Effect::Ask {
                stack: without(stack, 1),
                locks,
                request: Asked::Has { txn, key: below_top(stack, 0) },
                code: Seq::empty(),
            },
        }
    }
}

/// What a word does, for all words.
pub open spec fn word_effect(word: Seq<u8>, stack: Stack, locks: Locks, pid: EnvId) -> Effect {
    if word == DROP@ {
        drop_effect(stack)
    } else if word == DUP@ {
        dup_effect(stack)
    } else if word == SWAP@ {
        swap_effect(stack)
    } else if word == ROT@ {
        rot_effect(stack)
    } else if word == OVER@ {
        over_effect(stack)
    } else if word == DEPTH@ {
        depth_effect(stack)
    } else if word == CONCAT@ {
        concat_effect(stack)
    } else if word == EVAL@ {
        eval_effect(stack)
    } else if word == WRITE@ {
        write_effect(stack, locks, pid)
    } else if word == WRITE_END@ {
        write_end_effect(stack, locks, pid)
    } else if word == READ@ {
        read_effect(stack, locks, pid)
    } else if word == READ_END@ {
        read_end_effect(stack, locks, pid)
    } else if word == ASSOC@ {
        assoc_effect(stack, locks, pid)
    } else if word == ASSOCQ@ {
        assocq_effect(stack, locks, pid)
    } else if word == RETR@ {
        retr_effect(stack, locks, pid)
    } else if word == COMMIT@ {
        commit_effect(stack, locks, pid)
    } else {
        Effect::Fail { stack, error: Error::UnknownWord }
    }
}

/// What an environment takes up once a word has been executed: a word that leaves more values
/// than there were pushes the last of them on top of the others, and a word that makes a value
/// allocates it.
pub open spec fn word_usage(word: Seq<u8>, stack: Stack, usage: Usage) -> Usage {
    if word == DUP@ && stack.len() > 0 {
        usage.pushed(stack.len())
    } else if word == OVER@ && stack.len() > 1 {
        usage.pushed(stack.len())
    } else if word == DEPTH@ {
        usage.allocated(encode(le_bytes(stack.len()))).pushed(stack.len())
    } else if word == CONCAT@ && stack.len() > 1 {
        usage.allocated(
            encode(payload_of(below_top(stack, 1)) + payload_of(below_top(stack, 0))),
        )
    } else {
        usage
    }
}

/// What became of a program.
pub enum Outcome {
    /// The instruction was executed. What is left of the program is to be run, if anything
    /// is.
    Done { stack: Stack, program: Option<Seq<u8>> },
    /// The program ended with an error.
    Failed { stack: Stack, error: Error },
    /// The program goes on when the store has answered.
    Waiting { stack: Stack, request: Asked, program: Seq<u8> },
}

/// What is left of a program, if anything is.
pub open spec fn remaining(program: Seq<u8>) -> Option<Seq<u8>> {
    if program.len() == 0 {
        None
    } else {
        Some(program)
    }
}

/// The code that a word leaves to be run.
pub open spec fn injected(code: Option<Seq<u8>>) -> Seq<u8> {
    match code {
        Some(bytes) => bytes,
        None => Seq::empty(),
    }
}

/// What the effect of its first word, of a given length, makes of a program.
pub open spec fn effect_outcome(
    effect: Effect,
    program: Seq<u8>,
    len: nat,
    stack: Stack,
    locks: Locks,
) -> (Locks, Outcome) {
    match effect {
        Effect::Next { stack, code } => (
            locks,
            Outcome::Done {
                stack,
                program: remaining(injected(code) + program.skip(len as int)),
            },
        ),
        Effect::Fail { stack, error } => (locks, Outcome::Failed { stack, error }),
        Effect::Retry => (locks, Outcome::Done { stack, program: Some(program) }),
        Effect::Ask { stack, locks, request, code } => (
            locks,
            Outcome::Waiting { stack, request, program: code + program.skip(len as int) },
        ),
    }
}

/// One pass: the first instruction of a program is executed.
pub open spec fn pass_outcome(program: Seq<u8>, stack: Stack, locks: Locks, pid: EnvId) -> (
    Locks,
    Outcome,
) {
    match decode_data(program) {
        Ok(len) => (
            locks,
            Outcome::Done {
                stack: stack.push(program.take(len as int)),
                program: remaining(program.skip(len as int)),
            },
        ),
        Err(_) => match decode_any_word(program) {
            Err(_) => (locks, Outcome::Failed { stack, error: Error::DecodingError }),
            Ok(len) => effect_outcome(
                word_effect(program.take(len as int), stack, locks, pid),
                program,
                len,
                stack,
                locks,
            ),
        },
    }
}

/// What an environment takes up after a pass. The program is copied to the heap, so that the
/// values in it can be pushed.
pub open spec fn pass_usage(program: Seq<u8>, stack: Stack, usage: Usage) -> Usage {
    let copied = usage.allocated(program);
    match decode_data(program) {
        Ok(_) => copied.pushed(stack.len()),
        Err(_) => match decode_any_word(program) {
            Err(_) => copied,
            Ok(len) => word_usage(program.take(len as int), stack, copied),
        },
    }
}

/// The value that stands for true.
pub open spec fn true_value() -> Seq<u8> {
    encode(seq![1])
}

/// The value that stands for false.
pub open spec fn false_value() -> Seq<u8> {
    encode(seq![0])
}

/// Whether an error says that a key has a value already.
pub open spec fn is_duplicate(error: StorageError) -> bool {
    error is ValRejected || error == StorageError::Code(KEYEXIST)
}

/// What becomes of a waiting program when the store has answered.
pub open spec fn resume_outcome(
    request: Asked,
    program: Seq<u8>,
    stack: Stack,
    locks: Locks,
    pid: EnvId,
    answer: Answer,
) -> (Locks, Outcome) {
    match request {
        Asked::Begin(txn) => match answer {
            Err(error) => (
                locks,
                Outcome::Failed { stack, error: Error::DatabaseError(error) },
            ),
            Ok(_) => (
                match txn {
                    Txn::Write => Locks { write: Some(pid), read: locks.read },
                    Txn::Read => Locks { write: locks.write, read: Some(pid) },
                },
                Outcome::Done { stack, program: remaining(program) },
            ),
        },
        Asked::End(_) => (locks, Outcome::Done { stack, program: remaining(program) }),
        Asked::Commit => (locks, Outcome::Done { stack, program: remaining(program) }),
        Asked::Put { .. } => match answer {
            Ok(_) => (locks, Outcome::Done { stack, program: remaining(program) }),
            Err(error) => (
                locks,
                Outcome::Failed {
                    stack,
                    error: if is_duplicate(error) {
                        Error::DuplicateKey
                    } else {
                        Error::DatabaseError(error)
                    },
                },
            ),
        },
        Asked::Get { .. } => match answer {
            Ok(Some(value)) => (
                locks,
                Outcome::Done { stack: stack.push(value), program: remaining(program) },
            ),
            Ok(None) => (locks, Outcome::Failed { stack, error: Error::UnknownKey }),
            Err(error) => (
                locks,
                Outcome::Failed { stack, error: Error::DatabaseError(error) },
            ),
        },
        Asked::Has { .. } => match answer {
            Ok(found) => (
                locks,
                Outcome::Done {
                    stack: stack.push(
                        if found is Some {
                            true_value()
                        } else {
                            false_value()
                        },
                    ),
                    program: remaining(program),
                },
            ),
            Err(error) => (
                locks,
                Outcome::Failed { stack, error: Error::DatabaseError(error) },
            ),
        },
    }
}

/// What an environment takes up when the store has answered: a value that is retrieved is
/// allocated.
pub open spec fn resume_usage(request: Asked, stack: Stack, answer: Answer, usage: Usage) -> Usage {
    match (request, answer) {
        (Asked::Get { .. }, Ok(Some(value))) => usage.allocated(value).pushed(stack.len()),
        (Asked::Has { .. }, Ok(_)) => usage.pushed(stack.len()),
        _ => usage,
    }
}

/// Whether two values can be concatenated: what their size fields say agrees with what they
/// hold, as far as the size field of the result is concerned.
pub open spec fn can_concat(a: Seq<u8>, b: Seq<u8>) -> bool {
    &&& has_size(a)
    &&& has_size(b)
    &&& payload_of(a).len() + payload_of(b).len() < MAX_SIZE
    &&& decode_size(a)->Ok_0 + decode_size(b)->Ok_0 <= MAX_SIZE
    &&& payload_of(a).len() + payload_of(b).len() + size_len(
        payload_of(a).len() + payload_of(b).len(),
    ) <= usize::MAX
    &&& size_len(payload_of(a).len() + payload_of(b).len()) == size_len(
        decode_size(a)->Ok_0 + decode_size(b)->Ok_0,
    )
}

/// Whether a word finds the values that it takes apart in the form that it needs them in.
pub open spec fn can_handle(word: Seq<u8>, stack: Stack, locks: Locks, pid: EnvId) -> bool {
    if word == EVAL@ {
        stack.len() > 0 ==> has_size(below_top(stack, 0))
    } else if word == CONCAT@ {
        stack.len() > 1 ==> can_concat(below_top(stack, 1), below_top(stack, 0))
    } else if word == WRITE@ {
        stack.len() > 0 && !locked_out(locks.write, pid) ==> has_size(below_top(stack, 0))
    } else if word == READ@ {
        stack.len() > 0 && !locked_out(locks.read, pid) && !locked_out(locks.write, pid)
            ==> has_size(below_top(stack, 0))
    } else {
        true
    }
}

/// Whether the first instruction of a program finds the values that it takes apart in the
/// form that it needs them in.
pub open spec fn can_pass(program: Seq<u8>, stack: Stack, locks: Locks, pid: EnvId) -> bool {
    decode_data(program) is Err ==> (decode_any_word(program) matches Ok(len) ==> can_handle(
        program.take(len as int),
        stack,
        locks,
        pid,
    ))
}

} // verus!
