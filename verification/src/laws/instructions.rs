//! Laws of the single instructions: what each of them makes of a program, a stack and the
//! transactions that environments hold.

use crate::binparser::{
    decode_any_word, decode_data, decode_size, encode, encode_size, payload_of, MAX_SIZE,
};
use crate::error::{Error, ParseError};
use crate::ids::EnvId;
use crate::laws::format::{
    law_data_or_word, law_size_field_len, law_size_read_back, law_word_delimits_itself,
};
use crate::laws::programs::{law_value_is_pushed, law_word_is_executed};
use crate::laws::words::{le_value, lemma_le_value};
use crate::model::{
    assoc_effect, assocq_effect, can_pass, commit_effect, concat_effect, depth_effect,
    drop_effect, dup_effect, eval_effect, over_effect, pass_outcome, read_effect, read_end_effect,
    resume_outcome, retr_effect, rot_effect, swap_effect, without, word_effect, write_effect,
    write_end_effect, Effect, Locks, Outcome, Stack,
};
use crate::numbers::{le_bytes, lemma_depth_bytes};
use crate::storage::{Asked, Txn};
use crate::words::{
    ASSOC, ASSOCQ, COMMIT, CONCAT, DEPTH, DROP, DUP, EVAL, OVER, READ, READ_END, RETR, ROT, SWAP,
    WRITE, WRITE_END,
};
use vstd::prelude::*;

verus! {

/// `DROP` takes the top off the stack, and the rest of the program is left to be run.
pub proof fn law_drop(s: Stack, a: Seq<u8>, rest: Seq<u8>, locks: Locks, pid: EnvId)
    ensures
        drop_effect(s.push(a)) == (Effect::Next { stack: s, code: None }),
        pass_outcome(DROP@ + rest, s.push(a), locks, pid) == (
            locks,
            Outcome::Done {
                stack: s,
                program: if rest.len() == 0 {
                    None
                } else {
                    Some(rest)
                },
            },
        ),
{
    let stack = s.push(a);
    law_word_is_executed(DROP@, rest, stack, locks, pid);
    assert(without(stack, 1) =~= s);
    assert(Seq::<u8>::empty() + rest =~= rest);
}

/// `DUP` puts the top on the stack once more, and the rest of the program is left to be run.
pub proof fn law_dup(s: Stack, a: Seq<u8>, rest: Seq<u8>, locks: Locks, pid: EnvId)
    ensures
        dup_effect(s.push(a)) == (Effect::Next { stack: s.push(a).push(a), code: None }),
        pass_outcome(DUP@ + rest, s.push(a), locks, pid) == (
            locks,
            Outcome::Done {
                stack: s.push(a).push(a),
                program: if rest.len() == 0 {
                    None
                } else {
                    Some(rest)
                },
            },
        ),
{
    let stack = s.push(a);
    law_word_is_executed(DUP@, rest, stack, locks, pid);
    assert(dup_effect(stack)->Next_stack =~= s.push(a).push(a));
    assert(Seq::<u8>::empty() + rest =~= rest);
}

/// `SWAP` changes the places of the two topmost values, and the rest of the program is left to
/// be run.
pub proof fn law_swap(
    s: Stack,
    a: Seq<u8>,
    b: Seq<u8>,
    rest: Seq<u8>,
    locks: Locks,
    pid: EnvId,
)
    ensures
        swap_effect(s.push(a).push(b)) == (Effect::Next { stack: s.push(b).push(a), code: None }),
        pass_outcome(SWAP@ + rest, s.push(a).push(b), locks, pid) == (
            locks,
            Outcome::Done {
                stack: s.push(b).push(a),
                program: if rest.len() == 0 {
                    None
                } else {
                    Some(rest)
                },
            },
        ),
{
    let stack = s.push(a).push(b);
    law_word_is_executed(SWAP@, rest, stack, locks, pid);
    assert(swap_effect(stack)->Next_stack =~= s.push(b).push(a));
    assert(Seq::<u8>::empty() + rest =~= rest);
}

/// `ROT` brings the third value from the top to the top, and the rest of the program is left to
/// be run.
pub proof fn law_rot(
    s: Stack,
    a: Seq<u8>,
    b: Seq<u8>,
    c: Seq<u8>,
    rest: Seq<u8>,
    locks: Locks,
    pid: EnvId,
)
    ensures
        rot_effect(s.push(a).push(b).push(c)) == (Effect::Next {
            stack: s.push(b).push(c).push(a),
            code: None,
        }),
        pass_outcome(ROT@ + rest, s.push(a).push(b).push(c), locks, pid) == (
            locks,
            Outcome::Done {
                stack: s.push(b).push(c).push(a),
                program: if rest.len() == 0 {
                    None
                } else {
                    Some(rest)
                },
            },
        ),
{
    let stack = s.push(a).push(b).push(c);
    law_word_is_executed(ROT@, rest, stack, locks, pid);
    assert(rot_effect(stack)->Next_stack =~= s.push(b).push(c).push(a));
    assert(Seq::<u8>::empty() + rest =~= rest);
}

/// `OVER` puts the second value from the top on top, and the rest of the program is left to be
/// run.
pub proof fn law_over(
    s: Stack,
    a: Seq<u8>,
    b: Seq<u8>,
    rest: Seq<u8>,
    locks: Locks,
    pid: EnvId,
)
    ensures
        over_effect(s.push(a).push(b)) == (Effect::Next {
            stack: s.push(a).push(b).push(a),
            code: None,
        }),
        pass_outcome(OVER@ + rest, s.push(a).push(b), locks, pid) == (
            locks,
            Outcome::Done {
                stack: s.push(a).push(b).push(a),
                program: if rest.len() == 0 {
                    None
                } else {
                    Some(rest)
                },
            },
        ),
{
    let stack = s.push(a).push(b);
    law_word_is_executed(OVER@, rest, stack, locks, pid);
    assert(over_effect(stack)->Next_stack =~= s.push(a).push(b).push(a));
    assert(Seq::<u8>::empty() + rest =~= rest);
}

proof fn lemma_le_bytes_end(n: nat)
    ensures
        le_bytes(n).len() > 0,
        le_bytes(n).len() > 1 ==> le_bytes(n).last() != 0,
        n > 0 ==> le_bytes(n).last() != 0,
    decreases n,
{
    if n >= 256 {
        lemma_le_bytes_end(n / 256);
        assert(le_bytes(n).last() == le_bytes(n / 256).last());
    }
}

/// `DEPTH` pushes the number of values, as bytes of which the first is the least significant
/// and the last is not zero, unless it is the only one. It never fails, and the rest of the
/// program is left to be run.
pub proof fn law_depth(s: Stack, rest: Seq<u8>, locks: Locks, pid: EnvId)
    requires
        s.len() <= usize::MAX,
    ensures
        exists|bytes: Seq<u8>|
            {
                &&& le_value(bytes) == s.len()
                &&& 0 < bytes.len() <= 8
                &&& bytes.len() > 1 ==> bytes.last() != 0
                &&& depth_effect(s) == (Effect::Next {
                    stack: s.push(seq![bytes.len() as u8] + bytes),
                    code: None,
                })
                &&& #[trigger] encode(bytes) == seq![bytes.len() as u8] + bytes
                &&& pass_outcome(DEPTH@ + rest, s, locks, pid) == (
                    locks,
                    Outcome::Done {
                        stack: s.push(seq![bytes.len() as u8] + bytes),
                        program: if rest.len() == 0 {
                            None
                        } else {
                            Some(rest)
                        },
                    },
                )
            },
{
    law_word_is_executed(DEPTH@, rest, s, locks, pid);
    let bytes = le_bytes(s.len());
    lemma_le_value(s.len());
    lemma_depth_bytes(s.len());
    lemma_le_bytes_end(s.len());
    assert(encode(bytes) =~= seq![bytes.len() as u8] + bytes);
    assert(Seq::<u8>::empty() + rest =~= rest);
}

/// What follows a size field is what a value holds, whatever the size.
pub proof fn law_payload(size: nat, held: Seq<u8>)
    requires
        size < MAX_SIZE,
    ensures
        payload_of(encode_size(size) + held) == held,
{
    law_size_read_back(size, held);
    law_size_field_len(size);
    assert(payload_of(encode_size(size) + held) =~= held);
}

/// `CONCAT` puts one value in the place of the two topmost ones: it holds what the lower one
/// holds and then what the upper one holds, whatever their size fields say, and has the size
/// field for what it holds. The rest of the program is left to be run.
pub proof fn law_concat(
    s: Stack,
    size_a: nat,
    a: Seq<u8>,
    size_b: nat,
    b: Seq<u8>,
    rest: Seq<u8>,
    locks: Locks,
    pid: EnvId,
)
    requires
        size_a < MAX_SIZE,
        size_b < MAX_SIZE,
    ensures
        ({
            let stack = s.push(encode_size(size_a) + a).push(encode_size(size_b) + b);
            let joined = encode_size(a.len() + b.len()) + a + b;
            &&& concat_effect(stack) == (Effect::Next { stack: s.push(joined), code: None })
            &&& pass_outcome(CONCAT@ + rest, stack, locks, pid) == (
                locks,
                Outcome::Done {
                    stack: s.push(joined),
                    program: if rest.len() == 0 {
                        None
                    } else {
                        Some(rest)
                    },
                },
            )
        }),
{
    let stack = s.push(encode_size(size_a) + a).push(encode_size(size_b) + b);
    law_word_is_executed(CONCAT@, rest, stack, locks, pid);
    law_payload(size_a, a);
    law_payload(size_b, b);
    assert(without(stack, 2) =~= s);
    assert(encode(a + b) =~= encode_size(a.len() + b.len()) + a + b);
    assert(Seq::<u8>::empty() + rest =~= rest);
}

/// `EVAL` takes a value off the stack, and what it holds is left to be run before the rest of
/// the program.
pub proof fn law_eval(
    s: Stack,
    size: nat,
    code: Seq<u8>,
    rest: Seq<u8>,
    locks: Locks,
    pid: EnvId,
)
    requires
        size < MAX_SIZE,
    ensures
        eval_effect(s.push(encode_size(size) + code)) == (Effect::Next {
            stack: s,
            code: Some(code),
        }),
        pass_outcome(EVAL@ + rest, s.push(encode_size(size) + code), locks, pid) == (
            locks,
            Outcome::Done {
                stack: s,
                program: if code.len() + rest.len() == 0 {
                    None
                } else {
                    Some(code + rest)
                },
            },
        ),
{
    let stack = s.push(encode_size(size) + code);
    law_word_is_executed(EVAL@, rest, stack, locks, pid);
    law_payload(size, code);
    assert(without(stack, 1) =~= s);
}

/// A word that finds fewer values than it needs takes those that there are and ends the program
/// with `EmptyStack`, whatever follows.
pub proof fn law_too_few_values(
    word: Seq<u8>,
    stack: Stack,
    rest: Seq<u8>,
    locks: Locks,
    pid: EnvId,
)
    requires
        ({
            ||| (word == DROP@ || word == DUP@ || word == EVAL@ || word == WRITE@ || word == READ@)
                && stack.len() < 1
            ||| (word == SWAP@ || word == OVER@ || word == CONCAT@) && stack.len() < 2
            ||| word == ROT@ && stack.len() < 3
            ||| word == ASSOC@ && stack.len() < 2 && locks.write == Some(pid)
            ||| (word == RETR@ || word == ASSOCQ@) && stack.len() < 1 && (locks.write is None
                || locks.write == Some(pid))
        }),
    ensures
        pass_outcome(word + rest, stack, locks, pid) == (
            locks,
            Outcome::Failed { stack: Seq::empty(), error: Error::EmptyStack },
        ),
        word_effect(word, stack, locks, pid) == (Effect::Fail {
            stack: Seq::empty(),
            error: Error::EmptyStack,
        }),
        word == DROP@ ==> drop_effect(stack) == word_effect(word, stack, locks, pid),
        word == DUP@ ==> dup_effect(stack) == word_effect(word, stack, locks, pid),
        word == SWAP@ ==> swap_effect(stack) == word_effect(word, stack, locks, pid),
        word == ROT@ ==> rot_effect(stack) == word_effect(word, stack, locks, pid),
        word == OVER@ ==> over_effect(stack) == word_effect(word, stack, locks, pid),
        word == CONCAT@ ==> concat_effect(stack) == word_effect(word, stack, locks, pid),
        word == EVAL@ ==> eval_effect(stack) == word_effect(word, stack, locks, pid),
        word == WRITE@ ==> write_effect(stack, locks, pid) == word_effect(word, stack, locks, pid),
        word == READ@ ==> read_effect(stack, locks, pid) == word_effect(word, stack, locks, pid),
        word == ASSOC@ ==> assoc_effect(stack, locks, pid) == word_effect(word, stack, locks, pid),
        word == RETR@ ==> retr_effect(stack, locks, pid) == word_effect(word, stack, locks, pid),
        word == ASSOCQ@ ==> assocq_effect(stack, locks, pid) == word_effect(
            word,
            stack,
            locks,
            pid,
        ),
{
    law_word_is_executed(word, rest, stack, locks, pid);
}

/// A word that is none of the built-in ones ends the program with `UnknownWord` and leaves the
/// stack as it is.
pub proof fn law_unknown_word(
    word: Seq<u8>,
    stack: Stack,
    rest: Seq<u8>,
    locks: Locks,
    pid: EnvId,
)
    requires
        decode_any_word(word) == Ok::<nat, ParseError>(word.len()),
        word != DROP@ && word != DUP@ && word != SWAP@ && word != ROT@ && word != OVER@,
        word != DEPTH@ && word != CONCAT@ && word != EVAL@,
        word != WRITE@ && word != WRITE_END@ && word != READ@ && word != READ_END@,
        word != ASSOC@ && word != ASSOCQ@ && word != RETR@ && word != COMMIT@,
    ensures
        pass_outcome(word + rest, stack, locks, pid) == (
            locks,
            Outcome::Failed { stack, error: Error::UnknownWord },
        ),
{
    law_word_is_executed(word, rest, stack, locks, pid);
}

/// `WRITE` takes a value off the stack and asks for a write transaction in which what the value
/// holds is run, up to the end of the transaction, before the rest of the program. It does so
/// unless somebody else holds the write transaction. Who holds the read transaction does not
/// matter.
pub proof fn law_write(
    s: Stack,
    size: nat,
    code: Seq<u8>,
    rest: Seq<u8>,
    locks: Locks,
    pid: EnvId,
)
    requires
        size < MAX_SIZE,
        locks.write is None || locks.write == Some(pid),
    ensures
        write_effect(s.push(encode_size(size) + code), locks, pid) == (Effect::Ask {
            stack: s,
            locks,
            request: Asked::Begin(Txn::Write),
            code: code + WRITE_END@,
        }),
        pass_outcome(WRITE@ + rest, s.push(encode_size(size) + code), locks, pid) == (
            locks,
            Outcome::Waiting {
                stack: s,
                request: Asked::Begin(Txn::Write),
                program: code + WRITE_END@ + rest,
            },
        ),
{
    let stack = s.push(encode_size(size) + code);
    law_word_is_executed(WRITE@, rest, stack, locks, pid);
    law_payload(size, code);
    assert(without(stack, 1) =~= s);
}

/// `READ` takes a value off the stack and asks for a read transaction in which what the value
/// holds is run, up to the end of the transaction, before the rest of the program. It does so
/// unless somebody else holds a transaction.
pub proof fn law_read(
    s: Stack,
    size: nat,
    code: Seq<u8>,
    rest: Seq<u8>,
    locks: Locks,
    pid: EnvId,
)
    requires
        size < MAX_SIZE,
        locks.write is None || locks.write == Some(pid),
        locks.read is None || locks.read == Some(pid),
    ensures
        read_effect(s.push(encode_size(size) + code), locks, pid) == (Effect::Ask {
            stack: s,
            locks,
            request: Asked::Begin(Txn::Read),
            code: code + READ_END@,
        }),
        pass_outcome(READ@ + rest, s.push(encode_size(size) + code), locks, pid) == (
            locks,
            Outcome::Waiting {
                stack: s,
                request: Asked::Begin(Txn::Read),
                program: code + READ_END@ + rest,
            },
        ),
{
    let stack = s.push(encode_size(size) + code);
    law_word_is_executed(READ@, rest, stack, locks, pid);
    law_payload(size, code);
    assert(without(stack, 1) =~= s);
}

/// At its end, the write transaction is given up, the read transaction stays with whoever holds
/// it, and the rest of the program is left to be run.
pub proof fn law_write_end(s: Stack, rest: Seq<u8>, locks: Locks, pid: EnvId)
    requires
        locks.write is None || locks.write == Some(pid),
    ensures
        write_end_effect(s, locks, pid) == (Effect::Ask {
            stack: s,
            locks: Locks { write: None, read: locks.read },
            request: Asked::End(Txn::Write),
            code: Seq::empty(),
        }),
        pass_outcome(WRITE_END@ + rest, s, locks, pid) == (
            Locks { write: None, read: locks.read },
            Outcome::Waiting { stack: s, request: Asked::End(Txn::Write), program: rest },
        ),
{
    assert(WRITE_END@.skip(1) =~= WRITE@);
    law_word_is_executed(WRITE_END@, rest, s, locks, pid);
    assert(Seq::<u8>::empty() + rest =~= rest);
}

/// At its end, the read transaction is given up, the write transaction stays with whoever holds
/// it, and the rest of the program is left to be run.
pub proof fn law_read_end(s: Stack, rest: Seq<u8>, locks: Locks, pid: EnvId)
    requires
        locks.write is None || locks.write == Some(pid),
        locks.read is None || locks.read == Some(pid),
    ensures
        read_end_effect(s, locks, pid) == (Effect::Ask {
            stack: s,
            locks: Locks { write: locks.write, read: None },
            request: Asked::End(Txn::Read),
            code: Seq::empty(),
        }),
        pass_outcome(READ_END@ + rest, s, locks, pid) == (
            Locks { write: locks.write, read: None },
            Outcome::Waiting { stack: s, request: Asked::End(Txn::Read), program: rest },
        ),
{
    assert(READ_END@.skip(1) =~= READ@);
    law_word_is_executed(READ_END@, rest, s, locks, pid);
    assert(Seq::<u8>::empty() + rest =~= rest);
}

/// `ASSOC` takes a key and, from above it, a value off the stack, and asks the store to record
/// them as they are, whoever holds the read transaction.
pub proof fn law_assoc(
    s: Stack,
    key: Seq<u8>,
    value: Seq<u8>,
    rest: Seq<u8>,
    locks: Locks,
    pid: EnvId,
)
    requires
        locks.write == Some(pid),
    ensures
        assoc_effect(s.push(key).push(value), locks, pid) == (Effect::Ask {
            stack: s,
            locks,
            request: Asked::Put { key, value },
            code: Seq::empty(),
        }),
        pass_outcome(ASSOC@ + rest, s.push(key).push(value), locks, pid) == (
            locks,
            Outcome::Waiting { stack: s, request: Asked::Put { key, value }, program: rest },
        ),
{
    let stack = s.push(key).push(value);
    law_word_is_executed(ASSOC@, rest, stack, locks, pid);
    assert(without(stack, 2) =~= s);
    assert(Seq::<u8>::empty() + rest =~= rest);
}

/// `COMMIT` asks the store to commit, and the write transaction is over with that. The stack and
/// the read transaction stay as they are.
pub proof fn law_commit(s: Stack, rest: Seq<u8>, locks: Locks, pid: EnvId)
    requires
        locks.write == Some(pid),
    ensures
        commit_effect(s, locks, pid) == (Effect::Ask {
            stack: s,
            locks: Locks { write: None, read: locks.read },
            request: Asked::Commit,
            code: Seq::empty(),
        }),
        pass_outcome(COMMIT@ + rest, s, locks, pid) == (
            Locks { write: None, read: locks.read },
            Outcome::Waiting { stack: s, request: Asked::Commit, program: rest },
        ),
{
    law_word_is_executed(COMMIT@, rest, s, locks, pid);
    assert(Seq::<u8>::empty() + rest =~= rest);
}

/// `RETR` takes a key off the stack and asks the store for the value under it: in the write
/// transaction of the environment itself, or else in the read transaction that is open.
pub proof fn law_retr(
    s: Stack,
    key: Seq<u8>,
    rest: Seq<u8>,
    locks: Locks,
    pid: EnvId,
    txn: Txn,
)
    requires
        match txn {
            Txn::Write => locks.write == Some(pid),
            Txn::Read => locks.write is None && locks.read is Some,
        },
    ensures
        retr_effect(s.push(key), locks, pid) == (Effect::Ask {
            stack: s,
            locks,
            request: Asked::Get { txn, key },
            code: Seq::empty(),
        }),
        pass_outcome(RETR@ + rest, s.push(key), locks, pid) == (
            locks,
            Outcome::Waiting { stack: s, request: Asked::Get { txn, key }, program: rest },
        ),
{
    let stack = s.push(key);
    law_word_is_executed(RETR@, rest, stack, locks, pid);
    assert(without(stack, 1) =~= s);
    assert(Seq::<u8>::empty() + rest =~= rest);
}

/// `ASSOC?` takes a key off the stack and asks the store whether there is a value under it: in
/// the write transaction of the environment itself, or else in the read transaction that is
/// open.
pub proof fn law_assocq(
    s: Stack,
    key: Seq<u8>,
    rest: Seq<u8>,
    locks: Locks,
    pid: EnvId,
    txn: Txn,
)
    requires
        match txn {
            Txn::Write => locks.write == Some(pid),
            Txn::Read => locks.write is None && locks.read is Some,
        },
    ensures
        assocq_effect(s.push(key), locks, pid) == (Effect::Ask {
            stack: s,
            locks,
            request: Asked::Has { txn, key },
            code: Seq::empty(),
        }),
        pass_outcome(ASSOCQ@ + rest, s.push(key), locks, pid) == (
            locks,
            Outcome::Waiting { stack: s, request: Asked::Has { txn, key }, program: rest },
        ),
{
    let stack = s.push(key);
    law_word_is_executed(ASSOCQ@, rest, stack, locks, pid);
    assert(without(stack, 1) =~= s);
    assert(Seq::<u8>::empty() + rest =~= rest);
}

/// Without a transaction, `ASSOC` and `COMMIT` end the program with `NoTransaction` and leave
/// the stack as it is, and `RETR` and `ASSOC?` do so when they have taken the key.
pub proof fn law_nothing_is_open(
    s: Stack,
    key: Seq<u8>,
    rest: Seq<u8>,
    read: Option<EnvId>,
    pid: EnvId,
)
    ensures
        ({
            let locks = Locks { write: None, read };
            let failed = Effect::Fail { stack: s, error: Error::NoTransaction };
            let ended = (locks, Outcome::Failed { stack: s, error: Error::NoTransaction });
            &&& assoc_effect(s, locks, pid) == failed
            &&& commit_effect(s, locks, pid) == failed
            &&& pass_outcome(ASSOC@ + rest, s, locks, pid) == ended
            &&& pass_outcome(COMMIT@ + rest, s, locks, pid) == ended
            &&& read is None ==> retr_effect(s.push(key), locks, pid) == failed
            &&& read is None ==> assocq_effect(s.push(key), locks, pid) == failed
            &&& read is None ==> pass_outcome(RETR@ + rest, s.push(key), locks, pid) == ended
            &&& read is None ==> pass_outcome(ASSOCQ@ + rest, s.push(key), locks, pid) == ended
        }),
{
    let locks = Locks { write: None, read };
    law_word_is_executed(ASSOC@, rest, s, locks, pid);
    law_word_is_executed(COMMIT@, rest, s, locks, pid);
    law_word_is_executed(RETR@, rest, s.push(key), locks, pid);
    law_word_is_executed(ASSOCQ@, rest, s.push(key), locks, pid);
    assert(without(s.push(key), 1) =~= s);
}

/// A word that deals with the store is put off while somebody else holds the write transaction,
/// and one that begins or ends a read transaction also while somebody else holds the read
/// transaction: the program, the stack and the transactions stay as they are.
pub proof fn law_put_off(
    word: Seq<u8>,
    stack: Stack,
    rest: Seq<u8>,
    locks: Locks,
    pid: EnvId,
)
    requires
        ({
            let write = locks.write is Some && locks.write != Some(pid);
            let read = locks.read is Some && locks.read != Some(pid);
            ||| word == WRITE@ && stack.len() > 0 && write
            ||| word == READ@ && stack.len() > 0 && (read || write)
            ||| word == READ_END@ && (read || write)
            ||| (word == WRITE_END@ || word == ASSOC@ || word == ASSOCQ@ || word == RETR@ || word
                == COMMIT@) && write
        }),
    ensures
        pass_outcome(word + rest, stack, locks, pid) == (
            locks,
            Outcome::Done { stack, program: Some(word + rest) },
        ),
        word == WRITE@ ==> write_effect(stack, locks, pid) is Retry,
        word == WRITE_END@ ==> write_end_effect(stack, locks, pid) is Retry,
        word == READ@ ==> read_effect(stack, locks, pid) is Retry,
        word == READ_END@ ==> read_end_effect(stack, locks, pid) is Retry,
        word == ASSOC@ ==> assoc_effect(stack, locks, pid) is Retry,
        word == ASSOCQ@ ==> assocq_effect(stack, locks, pid) is Retry,
        word == RETR@ ==> retr_effect(stack, locks, pid) is Retry,
        word == COMMIT@ ==> commit_effect(stack, locks, pid) is Retry,
{
    assert(WRITE_END@.skip(1) =~= WRITE@);
    assert(READ_END@.skip(1) =~= READ@);
    law_word_is_executed(word, rest, stack, locks, pid);
}

/// Values and words that take no value apart can always be executed, and so can what cannot be
/// decoded: it fails.
pub proof fn law_always_executed(program: Seq<u8>, stack: Stack, locks: Locks, pid: EnvId)
    requires
        decode_any_word(program) matches Ok(len) ==> {
            let word = program.take(len as int);
            word != EVAL@ && word != CONCAT@ && word != WRITE@ && word != READ@
        },
    ensures
        can_pass(program, stack, locks, pid),
{
}

/// `EVAL`, `WRITE` and `READ` can be executed if and only if the value on top starts with a size
/// field, or they do not come to take it apart: with an empty stack they fail, and `WRITE` and
/// `READ` are put off.
pub proof fn law_code_needs_a_size(
    s: Stack,
    value: Seq<u8>,
    rest: Seq<u8>,
    locks: Locks,
    pid: EnvId,
)
    ensures
        ({
            let write = locks.write is Some && locks.write != Some(pid);
            let read = locks.read is Some && locks.read != Some(pid);
            let sized = decode_size(value) is Ok;
            let none = Seq::<Seq<u8>>::empty();
            &&& can_pass(EVAL@ + rest, s.push(value), locks, pid) <==> sized
            &&& can_pass(WRITE@ + rest, s.push(value), locks, pid) <==> sized || write
            &&& can_pass(READ@ + rest, s.push(value), locks, pid) <==> sized || write || read
            &&& can_pass(EVAL@ + rest, none, locks, pid)
            &&& can_pass(WRITE@ + rest, none, locks, pid)
            &&& can_pass(READ@ + rest, none, locks, pid)
        }),
{
    lemma_first_word(EVAL@, rest);
    lemma_first_word(WRITE@, rest);
    lemma_first_word(READ@, rest);
}

/// `CONCAT` can be executed on two values if and only if both start with a size field, what they
/// hold together has a size field and fits into memory, and that field is as long as the one for
/// the sizes that they say they have. It can always be executed on fewer values.
pub proof fn law_concat_needs_room(
    s: Stack,
    size_a: nat,
    a: Seq<u8>,
    size_b: nat,
    b: Seq<u8>,
    rest: Seq<u8>,
    locks: Locks,
    pid: EnvId,
)
    requires
        size_a < MAX_SIZE,
        size_b < MAX_SIZE,
    ensures
        can_pass(
            CONCAT@ + rest,
            s.push(encode_size(size_a) + a).push(encode_size(size_b) + b),
            locks,
            pid,
        ) <==> {
            &&& a.len() + b.len() < 4294967296
            &&& size_a + size_b <= 4294967296
            &&& encode(a + b).len() <= usize::MAX
            &&& encode_size(a.len() + b.len()).len() == encode_size(size_a + size_b).len()
        },
        s.len() < 2 ==> can_pass(CONCAT@ + rest, s, locks, pid),
{
    lemma_first_word(CONCAT@, rest);
    law_size_read_back(size_a, a);
    law_size_read_back(size_b, b);
    law_payload(size_a, a);
    law_payload(size_b, b);
    law_size_field_len((a + b).len());
    law_size_field_len(size_a + size_b);
}

/// `CONCAT` can be executed on two values that hold what their size fields say, unless what they
/// hold together is too long.
pub proof fn law_items_can_be_joined(
    s: Stack,
    a: Seq<u8>,
    b: Seq<u8>,
    rest: Seq<u8>,
    locks: Locks,
    pid: EnvId,
)
    requires
        a.len() + b.len() < 4294967296,
        encode(a + b).len() <= usize::MAX,
    ensures
        can_pass(CONCAT@ + rest, s.push(encode(a)).push(encode(b)), locks, pid),
{
    law_concat_needs_room(s, a.len(), a, b.len(), b, rest, locks, pid);
}

/// `CONCAT` cannot be executed where one of the two values does not start with a size field.
pub proof fn law_concat_needs_sizes(
    s: Stack,
    a: Seq<u8>,
    b: Seq<u8>,
    rest: Seq<u8>,
    locks: Locks,
    pid: EnvId,
)
    requires
        decode_size(a) is Err || decode_size(b) is Err,
    ensures
        !can_pass(CONCAT@ + rest, s.push(a).push(b), locks, pid),
{
    lemma_first_word(CONCAT@, rest);
}

proof fn lemma_first_word(word: Seq<u8>, rest: Seq<u8>)
    requires
        decode_any_word(word) == Ok::<nat, ParseError>(word.len()),
    ensures
        decode_any_word(word + rest) == Ok::<nat, ParseError>(word.len()),
        decode_data(word + rest) is Err,
        (word + rest).take(word.len() as int) == word,
{
    law_word_delimits_itself(word, rest);
    law_data_or_word(word + rest);
    assert(word.take(word.len() as int) =~= word);
    assert((word + rest).take(word.len() as int) =~= word);
}

/// Code that is pushed and run by `WRITE` is run in a write transaction as if it stood in the
/// program itself, before the end of the transaction and the rest of the program, unless somebody
/// else holds the write transaction, and whoever holds the read transaction: after two
/// instructions a write transaction has been asked for, and when the store has opened it, the
/// environment holds it, the read transaction stays with whoever holds it, and the code is what
/// is to be run next.
pub proof fn law_write_runs_code(
    code: Seq<u8>,
    rest: Seq<u8>,
    stack: Stack,
    locks: Locks,
    pid: EnvId,
    found: Option<Seq<u8>>,
)
    requires
        code.len() < MAX_SIZE,
        locks.write is None || locks.write == Some(pid),
    ensures
        pass_outcome(encode(code) + (WRITE@ + rest), stack, locks, pid) == (
            locks,
            Outcome::Done { stack: stack.push(encode(code)), program: Some(WRITE@ + rest) },
        ),
        pass_outcome(WRITE@ + rest, stack.push(encode(code)), locks, pid) == (
            locks,
            Outcome::Waiting {
                stack,
                request: Asked::Begin(Txn::Write),
                program: code + WRITE_END@ + rest,
            },
        ),
        resume_outcome(
            Asked::Begin(Txn::Write),
            code + WRITE_END@ + rest,
            stack,
            locks,
            pid,
            Ok(found),
        ) == (
            Locks { write: Some(pid), read: locks.read },
            Outcome::Done { stack, program: Some(code + WRITE_END@ + rest) },
        ),
{
    law_value_is_pushed(code, WRITE@ + rest, stack, locks, pid);
    law_write(stack, code.len(), code, rest, locks, pid);
}

/// The same of `READ` and a read transaction, unless somebody else holds a transaction.
pub proof fn law_read_runs_code(
    code: Seq<u8>,
    rest: Seq<u8>,
    stack: Stack,
    locks: Locks,
    pid: EnvId,
    found: Option<Seq<u8>>,
)
    requires
        code.len() < MAX_SIZE,
        locks.write is None || locks.write == Some(pid),
        locks.read is None || locks.read == Some(pid),
    ensures
        pass_outcome(encode(code) + (READ@ + rest), stack, locks, pid) == (
            locks,
            Outcome::Done { stack: stack.push(encode(code)), program: Some(READ@ + rest) },
        ),
        pass_outcome(READ@ + rest, stack.push(encode(code)), locks, pid) == (
            locks,
            Outcome::Waiting {
                stack,
                request: Asked::Begin(Txn::Read),
                program: code + READ_END@ + rest,
            },
        ),
        resume_outcome(
            Asked::Begin(Txn::Read),
            code + READ_END@ + rest,
            stack,
            locks,
            pid,
            Ok(found),
        ) == (
            Locks { write: locks.write, read: Some(pid) },
            Outcome::Done { stack, program: Some(code + READ_END@ + rest) },
        ),
{
    law_value_is_pushed(code, READ@ + rest, stack, locks, pid);
    law_read(stack, code.len(), code, rest, locks, pid);
}

} // verus!
