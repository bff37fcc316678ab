//! Laws of what environments take up.

use crate::binparser::{decode_any_word, encode, MAX_SIZE};
use crate::env::{Usage, HEAP_SIZE, STACK_SIZE};
use crate::error::ParseError;
use crate::laws::format::{law_data_or_word, law_value_read_back, law_word_delimits_itself};
use crate::model::{
    concat_effect, depth_effect, pass_usage, resume_usage, word_usage, Effect, Stack,
};
use crate::storage::{Answer, Asked};
use crate::words::{CONCAT, DEPTH, DUP, OVER};
use vstd::prelude::*;

verus! {

/// There is more of a heap than has been allocated off it.
pub open spec fn has_room(usage: Usage) -> bool {
    usage.memory.len() < usage.heap_size
}

/// A new heap has room, and one that something is allocated off keeps it.
pub proof fn law_heap_has_room(usage: Usage, bytes: Seq<u8>, slots: nat, depth: nat)
    ensures
        has_room(Usage::initial(slots)),
        has_room(usage) ==> has_room(usage.allocated(bytes)),
        has_room(usage) ==> has_room(usage.pushed(depth)),
{
}

/// There is always a slot for the value that is pushed.
pub proof fn law_stack_has_slots(usage: Usage, depth: nat)
    requires
        depth <= usage.slots,
    ensures
        depth + 1 <= usage.pushed(depth).slots,
{
}

/// What has been allocated stays where it is, as it is.
pub proof fn law_allocated_bytes_stay(usage: Usage, bytes: Seq<u8>)
    ensures
        usage.allocated(bytes).memory.take(usage.memory.len() as int) == usage.memory,
        usage.allocated(bytes).memory.skip(usage.memory.len() as int) == bytes,
{
    assert((usage.memory + bytes).take(usage.memory.len() as int) =~= usage.memory);
    assert((usage.memory + bytes).skip(usage.memory.len() as int) =~= bytes);
}

/// To move values or to repeat them is to copy no bytes: no word allocates any, up to the
/// store's answer, but those that make a new value.
pub proof fn law_values_are_not_copied(word: Seq<u8>, stack: Stack, usage: Usage)
    requires
        word != DEPTH@,
        word != CONCAT@,
    ensures
        word_usage(word, stack, usage).memory == usage.memory,
        word_usage(word, stack, usage).heap_size == usage.heap_size,
{
}

/// An environment starts with a heap of 32768 bytes, of which nothing is allocated, and with the
/// slots that it is made with.
pub proof fn law_initial_usage(slots: nat)
    ensures
        Usage::initial(slots).memory.len() == 0,
        Usage::initial(slots).heap_size == 32768,
        Usage::initial(slots).slots == slots,
        STACK_SIZE == 32768,
        HEAP_SIZE == 32768,
{
}

/// A heap grows only if it would be used up: by 32768 bytes, or by what is allocated if that is
/// more. What is allocated comes behind what was, and the slots stay.
pub proof fn law_heap_grows(usage: Usage, bytes: Seq<u8>)
    ensures
        ({
            let after = usage.allocated(bytes);
            let grown = after.heap_size - usage.heap_size;
            &&& after.memory == usage.memory + bytes
            &&& after.slots == usage.slots
            &&& grown > 0 <==> usage.memory.len() + bytes.len() >= usage.heap_size
            &&& grown >= 0
            &&& grown > 0 && bytes.len() <= 32768 ==> grown == 32768
            &&& grown > 0 && bytes.len() > 32768 ==> grown == bytes.len()
        }),
{
}

/// A stack gets 32768 slots more if a value is pushed when all of them are taken, and only then.
/// The heap stays as it is.
pub proof fn law_stack_grows(usage: Usage, depth: nat)
    ensures
        ({
            let after = usage.pushed(depth);
            &&& after.memory == usage.memory
            &&& after.heap_size == usage.heap_size
            &&& depth == usage.slots ==> after.slots == usage.slots + 32768
            &&& depth != usage.slots ==> after.slots == usage.slots
        }),
{
}

/// What an instruction that pushes a value takes up: the program is copied, and a slot is taken.
pub proof fn law_value_usage(value: Seq<u8>, rest: Seq<u8>, stack: Stack, usage: Usage)
    requires
        value.len() < MAX_SIZE,
    ensures
        pass_usage(encode(value) + rest, stack, usage) == usage.allocated(
            encode(value) + rest,
        ).pushed(stack.len()),
{
    law_value_read_back(value, rest);
}

/// What a word takes up: the program is copied, and then the word takes what it needs. `DUP` and
/// `OVER` take a slot, `DEPTH` allocates the value that it pushes and takes a slot, `CONCAT`
/// allocates the joined value, and no other word takes anything.
pub proof fn law_word_usage(word: Seq<u8>, rest: Seq<u8>, stack: Stack, usage: Usage)
    requires
        decode_any_word(word) == Ok::<nat, ParseError>(word.len()),
        stack.len() <= usize::MAX,
    ensures
        pass_usage(word + rest, stack, usage) == word_usage(
            word,
            stack,
            usage.allocated(word + rest),
        ),
        word == DUP@ && stack.len() > 0 ==> word_usage(word, stack, usage) == usage.pushed(
            stack.len(),
        ),
        word == OVER@ && stack.len() > 1 ==> word_usage(word, stack, usage) == usage.pushed(
            stack.len(),
        ),
        word == DEPTH@ ==> (depth_effect(stack) matches Effect::Next { stack: longer, .. }
            && word_usage(word, stack, usage) == usage.allocated(longer.last()).pushed(
            stack.len(),
        )),
        word == CONCAT@ && stack.len() > 1 ==> (concat_effect(stack) matches Effect::Next {
            stack: shorter,
            ..
        } && word_usage(word, stack, usage) == usage.allocated(shorter.last())),
        word == DUP@ && stack.len() == 0 ==> word_usage(word, stack, usage) == usage,
        (word == OVER@ || word == CONCAT@) && stack.len() <= 1 ==> word_usage(word, stack, usage)
            == usage,
        word != DUP@ && word != OVER@ && word != DEPTH@ && word != CONCAT@ ==> word_usage(
            word,
            stack,
            usage,
        ) == usage,
{
    law_word_delimits_itself(word, rest);
    law_data_or_word(word + rest);
    assert(word.take(word.len() as int) =~= word);
    assert((word + rest).take(word.len() as int) =~= word);
}

/// What the store's answer takes up: a value that was retrieved is allocated and takes a slot,
/// the answer to `ASSOC?` takes a slot, and no other answer takes anything.
pub proof fn law_answer_usage(
    request: Asked,
    stack: Stack,
    answer: Answer,
    usage: Usage,
    value: Seq<u8>,
)
    ensures
        request is Get ==> resume_usage(request, stack, Ok(Some(value)), usage) == usage.allocated(
            value,
        ).pushed(stack.len()),
        request is Get && !(answer matches Ok(Some(_))) ==> resume_usage(
            request,
            stack,
            answer,
            usage,
        ) == usage,
        request is Has && answer is Ok ==> resume_usage(request, stack, answer, usage)
            == usage.pushed(stack.len()),
        request is Has && answer is Err ==> resume_usage(request, stack, answer, usage) == usage,
        request !is Get && request !is Has ==> resume_usage(request, stack, answer, usage)
            == usage,
{
}

} // verus!
