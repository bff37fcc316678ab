//! Laws of the words that work on the stack.

use crate::binparser::{decode_any_word, encode, payload_of, MAX_SIZE};
use crate::ids::EnvId;
use crate::laws::format::law_value_read_back;
use crate::model::{
    below_top, concat_effect, depth_effect, drop_effect, dup_effect, leaves, over_effect,
    pass_outcome, rot_effect, swap_effect, without, Effect, Locks, Stack,
};
use crate::numbers::{le_bytes, lemma_depth_bytes};
use crate::words::{ASSOC, ASSOCQ, COMMIT, READ, READ_END, RETR, WRITE, WRITE_END};
use vstd::prelude::*;

verus! {

/// What was pushed last is popped first, and the stack is then what it was.
pub proof fn law_pop_undoes_push(stack: Stack, value: Seq<u8>)
    ensures
        stack.push(value).last() == value,
        stack.push(value).drop_last() == stack,
{
    assert(stack.push(value).drop_last() =~= stack);
}

/// `DROP` undoes `DUP`.
pub proof fn law_drop_undoes_dup(stack: Stack)
    requires
        stack.len() > 0,
    ensures
        dup_effect(stack) matches Effect::Next { stack: doubled, .. } && drop_effect(doubled)
            == leaves(stack),
{
    let doubled = dup_effect(stack)->Next_stack;
    assert(without(doubled, 1) =~= stack);
}

/// `DROP` undoes `OVER`.
pub proof fn law_drop_undoes_over(stack: Stack)
    requires
        stack.len() > 1,
    ensures
        over_effect(stack) matches Effect::Next { stack: longer, .. } && drop_effect(longer)
            == leaves(stack),
{
    let longer = over_effect(stack)->Next_stack;
    assert(without(longer, 1) =~= stack);
}

/// `SWAP` undoes `SWAP`.
pub proof fn law_swap_undoes_swap(stack: Stack)
    requires
        stack.len() > 1,
    ensures
        swap_effect(stack) matches Effect::Next { stack: swapped, .. } && swap_effect(swapped)
            == leaves(stack),
{
    let swapped = swap_effect(stack)->Next_stack;
    assert(swap_effect(swapped)->Next_stack =~= stack);
}

/// `ROT`, three times, changes nothing.
pub proof fn law_rot_thrice(stack: Stack)
    requires
        stack.len() > 2,
    ensures
        rot_effect(stack) matches Effect::Next { stack: once, .. } && rot_effect(
            once,
        ) matches Effect::Next { stack: twice, .. } && rot_effect(twice) == leaves(stack),
{
    let once = rot_effect(stack)->Next_stack;
    let twice = rot_effect(once)->Next_stack;
    assert(rot_effect(twice)->Next_stack =~= stack);
}

/// The number that bytes stand for, least significant byte first.
pub open spec fn le_value(bytes: Seq<u8>) -> nat
    decreases bytes.len(),
{
    if bytes.len() == 0 {
        0
    } else {
        bytes[0] as nat + 256 * le_value(bytes.skip(1))
    }
}

pub(crate) proof fn lemma_le_value(n: nat)
    ensures
        le_value(le_bytes(n)) == n,
    decreases n,
{
    let bytes = le_bytes(n);
    if n < 256 {
        assert(bytes.skip(1) =~= Seq::<u8>::empty());
        reveal_with_fuel(le_value, 2);
    } else {
        lemma_le_value(n / 256);
        assert(bytes.skip(1) =~= le_bytes(n / 256));
    }
}

/// `DEPTH` pushes the number of values that were on the stack.
pub proof fn law_depth_counts(stack: Stack)
    requires
        stack.len() <= usize::MAX,
    ensures
        depth_effect(stack) matches Effect::Next { stack: longer, .. } && without(longer, 1)
            == stack && le_value(payload_of(below_top(longer, 0))) == stack.len(),
{
    let longer = depth_effect(stack)->Next_stack;
    assert(without(longer, 1) =~= stack);
    lemma_le_value(stack.len());
    lemma_depth_bytes(stack.len());
    law_value_read_back(le_bytes(stack.len()), Seq::empty());
}

/// `CONCAT` joins two values in the order in which they were pushed.
pub proof fn law_concat_joins(stack: Stack, a: Seq<u8>, b: Seq<u8>)
    requires
        a.len() + b.len() < MAX_SIZE,
    ensures
        concat_effect(stack.push(encode(a)).push(encode(b))) == leaves(stack.push(encode(a + b))),
{
    law_value_read_back(a, Seq::empty());
    law_value_read_back(b, Seq::empty());
    let both = stack.push(encode(a)).push(encode(b));
    assert(without(both, 2) =~= stack);
}

/// It does not matter which two of three neighbours `CONCAT` joins first.
pub proof fn law_concat_associates(stack: Stack, a: Seq<u8>, b: Seq<u8>, c: Seq<u8>)
    requires
        a.len() + b.len() + c.len() < MAX_SIZE,
    ensures
        concat_effect(stack.push(encode(a)).push(encode(b))) matches Effect::Next {
            stack: left,
            ..
        } && concat_effect(
            stack.push(encode(a)).push(encode(b)).push(encode(c)),
        ) matches Effect::Next { stack: right, .. } && concat_effect(left.push(encode(c)))
            == concat_effect(right),
{
    law_concat_joins(stack, a, b);
    law_concat_joins(stack, a + b, c);
    law_concat_joins(stack.push(encode(a)), b, c);
    law_concat_joins(stack, a, b + c);
    assert((a + b) + c =~= a + (b + c));
}

/// Whether a word is one of those that deal with the store.
pub open spec fn is_storage_word(word: Seq<u8>) -> bool {
    ||| word == WRITE@
    ||| word == WRITE_END@
    ||| word == READ@
    ||| word == READ_END@
    ||| word == ASSOC@
    ||| word == ASSOCQ@
    ||| word == RETR@
    ||| word == COMMIT@
}

/// An instruction that does not deal with the store does the same whoever runs it and whoever
/// holds the transactions: programs without such words run side by side as if each were alone.
pub proof fn law_others_do_not_matter(
    program: Seq<u8>,
    stack: Stack,
    locks: Locks,
    pid: EnvId,
    other_locks: Locks,
    other_pid: EnvId,
)
    requires
        decode_any_word(program) matches Ok(len) ==> !is_storage_word(program.take(len as int)),
    ensures
        pass_outcome(program, stack, locks, pid).0 == locks,
        pass_outcome(program, stack, locks, pid).1 !is Waiting,
        pass_outcome(program, stack, locks, pid).1 == pass_outcome(
            program,
            stack,
            other_locks,
            other_pid,
        ).1,
{
}

} // verus!
