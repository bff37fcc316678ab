//! Laws of the execution of programs.

use crate::binparser::{
    decode_any_word, decode_data, encode, is_item, payload_of, size_len, MAX_SIZE,
};
use crate::error::{Error, ParseError};
use crate::ids::EnvId;
use crate::laws::format::{
    law_data_delimits_itself, law_data_or_word, law_item_unique, law_value_read_back,
    law_word_delimits_itself,
};
use crate::model::{
    below_top, can_pass, effect_outcome, eval_effect, pass_outcome, resume_outcome,
    without, word_effect, Locks, Outcome, Stack,
};
use crate::numbers::{le_bytes, lemma_depth_bytes};
use crate::storage::{Answer, Asked};
use crate::words::{CONCAT, EVAL};
use vstd::prelude::*;

verus! {

/// A program that starts with a value pushes it and goes on with the rest.
pub proof fn law_value_is_pushed(
    value: Seq<u8>,
    rest: Seq<u8>,
    stack: Stack,
    locks: Locks,
    pid: EnvId,
)
    requires
        value.len() < MAX_SIZE,
    ensures
        pass_outcome(encode(value) + rest, stack, locks, pid) == (
            locks,
            Outcome::Done {
                stack: stack.push(encode(value)),
                program: if rest.len() == 0 {
                    None
                } else {
                    Some(rest)
                },
            },
        ),
{
    law_value_read_back(value, rest);
    let program = encode(value) + rest;
    let len = encode(value).len() as int;
    assert(program.take(len) =~= encode(value));
    assert(program.skip(len) =~= rest);
}

/// A program that starts with a word does what the word does and goes on with the rest.
pub proof fn law_word_is_executed(
    word: Seq<u8>,
    rest: Seq<u8>,
    stack: Stack,
    locks: Locks,
    pid: EnvId,
)
    requires
        decode_any_word(word) == Ok::<nat, ParseError>(word.len()),
    ensures
        pass_outcome(word + rest, stack, locks, pid) == effect_outcome(
            word_effect(word, stack, locks, pid),
            word + rest,
            word.len(),
            stack,
            locks,
        ),
        (word + rest).skip(word.len() as int) == rest,
{
    law_word_delimits_itself(word, rest);
    law_data_or_word(word + rest);
    assert(word.take(word.len() as int) =~= word);
    assert((word + rest).take(word.len() as int) =~= word);
    assert((word + rest).skip(word.len() as int) =~= rest);
}

/// A program that starts with neither a value nor a word fails, and so does an empty one.
pub proof fn law_garbage_fails(program: Seq<u8>, stack: Stack, locks: Locks, pid: EnvId)
    requires
        decode_data(program) is Err,
        decode_any_word(program) is Err,
    ensures
        pass_outcome(program, stack, locks, pid) == (
            locks,
            Outcome::Failed { stack, error: Error::DecodingError },
        ),
{
}

/// Code that is pushed and evaluated is run as if it stood in the program itself.
pub proof fn law_eval_runs_code(
    code: Seq<u8>,
    rest: Seq<u8>,
    stack: Stack,
    locks: Locks,
    pid: EnvId,
)
    requires
        code.len() < MAX_SIZE,
    ensures
        pass_outcome(encode(code) + (EVAL@ + rest), stack, locks, pid) == (
            locks,
            Outcome::Done { stack: stack.push(encode(code)), program: Some(EVAL@ + rest) },
        ),
        pass_outcome(EVAL@ + rest, stack.push(encode(code)), locks, pid) == (
            locks,
            Outcome::Done {
                stack,
                program: if code.len() + rest.len() == 0 {
                    None
                } else {
                    Some(code + rest)
                },
            },
        ),
{
    law_value_is_pushed(code, EVAL@ + rest, stack, locks, pid);
    let pushed = stack.push(encode(code));
    law_word_is_executed(EVAL@, rest, pushed, locks, pid);
    law_value_read_back(code, Seq::empty());
    assert(word_effect(EVAL@, pushed, locks, pid) == eval_effect(pushed));
    assert(without(pushed, 1) =~= stack);
}

/// Whether all values on a stack are data push instructions.
pub open spec fn all_items(stack: Stack) -> bool {
    forall|i: int| 0 <= i < stack.len() ==> is_item(#[trigger] stack[i])
}

/// The stack that an outcome leaves.
pub open spec fn stack_of(outcome: Outcome) -> Stack {
    match outcome {
        Outcome::Done { stack, .. } => stack,
        Outcome::Failed { stack, .. } => stack,
        Outcome::Waiting { stack, .. } => stack,
    }
}

/// Whether what is asked of the store is asked about data push instructions.
pub open spec fn asks_about_items(request: Asked) -> bool {
    match request {
        Asked::Put { key, value } => is_item(key) && is_item(value),
        Asked::Get { key, .. } => is_item(key),
        Asked::Has { key, .. } => is_item(key),
        _ => true,
    }
}

/// The length of what the first instruction of a program joins, if it is a `CONCAT`.
pub open spec fn joined_len(program: Seq<u8>, stack: Stack) -> nat {
    if stack.len() > 1 && (decode_any_word(program) matches Ok(len) && program.take(len as int)
        == CONCAT@) {
        payload_of(below_top(stack, 1)).len() + payload_of(below_top(stack, 0)).len()
    } else {
        0
    }
}

/// Every value on the stack is a data push instruction, and so is every key and every value
/// that goes to the store, as long as every value that the store gives back is one, and as
/// long as no value grows too long.
#[verifier::rlimit(30)]
pub proof fn law_values_stay_items(program: Seq<u8>, stack: Stack, locks: Locks, pid: EnvId)
    requires
        all_items(stack),
        stack.len() <= usize::MAX,
        joined_len(program, stack) < MAX_SIZE,
    ensures
        all_items(stack_of(pass_outcome(program, stack, locks, pid).1)),
        pass_outcome(program, stack, locks, pid).1 matches Outcome::Waiting { request, .. }
            ==> asks_about_items(request),
{
    if decode_data(program) is Ok {
        law_data_delimits_itself(program, Seq::empty());
    } else {
        lemma_depth_bytes(stack.len());
        law_value_read_back(le_bytes(stack.len()), Seq::empty());
        if joined_len(program, stack) > 0 {
            law_value_read_back(
                payload_of(below_top(stack, 1)) + payload_of(below_top(stack, 0)),
                Seq::empty(),
            );
        }
    }
}

/// When the store has answered, too, every value on the stack is a data push instruction, as
/// long as the value that it gives back is one.
pub proof fn law_answers_stay_items(
    request: Asked,
    program: Seq<u8>,
    stack: Stack,
    locks: Locks,
    pid: EnvId,
    answer: Answer,
)
    requires
        all_items(stack),
        answer matches Ok(Some(value)) ==> is_item(value),
    ensures
        all_items(stack_of(resume_outcome(request, program, stack, locks, pid, answer).1)),
        resume_outcome(request, program, stack, locks, pid, answer).1 !is Waiting,
{
    law_value_read_back(seq![1], Seq::empty());
    law_value_read_back(seq![0], Seq::empty());
}

/// Where every value on the stack is a data push instruction, every instruction of a program
/// can be executed, but for a `CONCAT` of values that are too long together.
pub proof fn law_items_can_be_run(program: Seq<u8>, stack: Stack, locks: Locks, pid: EnvId)
    requires
        all_items(stack),
        joined_len(program, stack) < MAX_SIZE,
        joined_len(program, stack) + size_len(joined_len(program, stack)) <= usize::MAX,
    ensures
        can_pass(program, stack, locks, pid),
{
    if stack.len() > 0 {
        law_item_unique(below_top(stack, 0));
        law_value_read_back(payload_of(below_top(stack, 0)), Seq::empty());
    }
    if stack.len() > 1 {
        law_item_unique(below_top(stack, 1));
    }
}

} // verus!
