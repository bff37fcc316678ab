//! The words that work on the stack and on byte arrays, and those of the control flow.

use super::{handles, WordResult, VM};
use crate::binparser::{
    encode, has_size, offset_by_size, payload, payload_of, size_len, write_size_into_slice,
    MAX_SIZE,
};
use crate::env::{copy_bytes, Env, Slot, Span};
use crate::error::Error;
use crate::ids::EnvId;
use crate::model::{
    below_top, can_concat, concat_effect, depth_effect, drop_effect, dup_effect, eval_effect,
    over_effect, rot_effect, swap_effect, without,
};
use crate::numbers::{lemma_depth_bytes, to_bytes_le};
use crate::words::{same_bytes, CONCAT, DEPTH, DROP, DUP, EVAL, OVER, ROT, SWAP};
use vstd::prelude::*;
use vstd::slice::slice_to_vec;

verus! {

impl VM {
    /// `DROP`: removes the top of the stack.
    pub fn handle_drop<'a>(
        &mut self,
        env: Env<'a>,
        word: &[u8],
        _pid: EnvId,
    ) -> (result: WordResult<'a>)
        requires
            env.wf(),
        ensures
            handles(result, word@, DROP@, drop_effect(env@), env),
            final(self)@ == old(self)@,
    {
        if same_bytes(word, &DROP) {
            let ghost stack = env@;
            let mut env = env;
            match env.pop_slot() {
                None => {
                    assert(env@ =~= Seq::<Seq<u8>>::empty());
                    Err((env, Error::EmptyStack))
                },
                Some(_) => {
                    assert(env@ =~= without(stack, 1));
                    Ok((env, None))
                },
            }
        } else {
            Err((env, Error::UnknownWord))
        }
    }

    /// `DUP`: repeats the top of the stack.
    pub fn handle_dup<'a>(
        &mut self,
        env: Env<'a>,
        word: &[u8],
        _pid: EnvId,
    ) -> (result: WordResult<'a>)
        requires
            env.wf(),
        ensures
            handles(result, word@, DUP@, dup_effect(env@), env),
            final(self)@ == old(self)@,
    {
        if same_bytes(word, &DUP) {
            let ghost stack = env@;
            let mut env = env;
            match env.pop_slot() {
                None => {
                    assert(env@ =~= Seq::<Seq<u8>>::empty());
                    Err((env, Error::EmptyStack))
                },
                Some(v) => {
                    env.push_slot(v);
                    env.push_slot(v);
                    assert(env@ =~= stack.push(below_top(stack, 0)));
                    Ok((env, None))
                },
            }
        } else {
            Err((env, Error::UnknownWord))
        }
    }

    /// `SWAP`: changes the places of the two topmost values.
    pub fn handle_swap<'a>(
        &mut self,
        env: Env<'a>,
        word: &[u8],
        _pid: EnvId,
    ) -> (result: WordResult<'a>)
        requires
            env.wf(),
        ensures
            handles(result, word@, SWAP@, swap_effect(env@), env),
            final(self)@ == old(self)@,
    {
        if same_bytes(word, &SWAP) {
            let ghost stack = env@;
            let mut env = env;
            let a = env.pop_slot();
            let b = env.pop_slot();
            match (a, b) {
                (Some(a), Some(b)) => {
                    env.push_slot(a);
                    env.push_slot(b);
                    assert(env@ =~= without(stack, 2) + seq![
                        below_top(stack, 0),
                        below_top(stack, 1),
                    ]);
                    Ok((env, None))
                },
                _ => {
                    assert(env@ =~= Seq::<Seq<u8>>::empty());
                    Err((env, Error::EmptyStack))
                },
            }
        } else {
            Err((env, Error::UnknownWord))
        }
    }

    /// `ROT`: brings the third value from the top to the top.
    pub fn handle_rot<'a>(
        &mut self,
        env: Env<'a>,
        word: &[u8],
        _pid: EnvId,
    ) -> (result: WordResult<'a>)
        requires
            env.wf(),
        ensures
            handles(result, word@, ROT@, rot_effect(env@), env),
            final(self)@ == old(self)@,
    {
        if same_bytes(word, &ROT) {
            let ghost stack = env@;
            let mut env = env;
            let a = env.pop_slot();
            let b = env.pop_slot();
            let c = env.pop_slot();
            match (a, b, c) {
                (Some(a), Some(b), Some(c)) => {
                    env.push_slot(b);
                    env.push_slot(a);
                    env.push_slot(c);
                    assert(env@ =~= without(stack, 3) + seq![
                        below_top(stack, 1),
                        below_top(stack, 0),
                        below_top(stack, 2),
                    ]);
                    Ok((env, None))
                },
                _ => {
                    assert(env@ =~= Seq::<Seq<u8>>::empty());
                    Err((env, Error::EmptyStack))
                },
            }
        } else {
            Err((env, Error::UnknownWord))
        }
    }

    /// `OVER`: repeats the second value from the top on top.
    pub fn handle_over<'a>(
        &mut self,
        env: Env<'a>,
        word: &[u8],
        _pid: EnvId,
    ) -> (result: WordResult<'a>)
        requires
            env.wf(),
        ensures
            handles(result, word@, OVER@, over_effect(env@), env),
            final(self)@ == old(self)@,
    {
        if same_bytes(word, &OVER) {
            let ghost stack = env@;
            let mut env = env;
            let a = env.pop_slot();
            let b = env.pop_slot();
            match (a, b) {
                (Some(a), Some(b)) => {
                    env.push_slot(b);
                    env.push_slot(a);
                    env.push_slot(b);
                    assert(env@ =~= stack.push(below_top(stack, 1)));
                    Ok((env, None))
                },
                _ => {
                    assert(env@ =~= Seq::<Seq<u8>>::empty());
                    Err((env, Error::EmptyStack))
                },
            }
        } else {
            Err((env, Error::UnknownWord))
        }
    }

    /// `DEPTH`: pushes the number of values on the stack.
    pub fn handle_depth<'a>(
        &mut self,
        env: Env<'a>,
        word: &[u8],
        _pid: EnvId,
    ) -> (result: WordResult<'a>)
        requires
            env.wf(),
        ensures
            handles(result, word@, DEPTH@, depth_effect(env@), env),
            final(self)@ == old(self)@,
    {
        if same_bytes(word, &DEPTH) {
            let mut env = env;
            let bytes: Vec<u8> = to_bytes_le(env.stack_size());
            proof {
                lemma_depth_bytes(env@.len());
            }
            push_encoded(&mut env, bytes.as_slice(), &[]);
            assert(bytes@ + Seq::<u8>::empty() =~= bytes@);
            Ok((env, None))
        } else {
            Err((env, Error::UnknownWord))
        }
    }

    /// `CONCAT`: joins the two topmost values.
    pub fn handle_concat<'a>(
        &mut self,
        env: Env<'a>,
        word: &[u8],
        _pid: EnvId,
    ) -> (result: WordResult<'a>)
        requires
            env.wf(),
            word@ == CONCAT@ && env@.len() > 1 ==> can_concat(
                below_top(env@, 1),
                below_top(env@, 0),
            ),
        ensures
            handles(result, word@, CONCAT@, concat_effect(env@), env),
            final(self)@ == old(self)@,
    {
        if same_bytes(word, &CONCAT) {
            let ghost stack = env@;
            let mut env = env;
            let a = env.pop_slot();
            let b = env.pop_slot();
            match (a, b) {
                (Some(a), Some(b)) => {
                    let tail: Vec<u8> = slice_to_vec(payload(env.bytes(a)));
                    let head: Vec<u8> = slice_to_vec(payload(env.bytes(b)));
                    push_encoded(&mut env, head.as_slice(), tail.as_slice());
                    assert(env@ =~= without(stack, 2).push(
                        encode(payload_of(below_top(stack, 1)) + payload_of(below_top(stack, 0))),
                    ));
                    Ok((env, None))
                },
                _ => {
                    assert(env@ =~= Seq::<Seq<u8>>::empty());
                    Err((env, Error::EmptyStack))
                },
            }
        } else {
            Err((env, Error::UnknownWord))
        }
    }

    /// `EVAL`: runs the code on top of the stack.
    pub fn handle_eval<'a>(
        &mut self,
        env: Env<'a>,
        word: &[u8],
        _pid: EnvId,
    ) -> (result: WordResult<'a>)
        requires
            env.wf(),
            word@ == EVAL@ && env@.len() > 0 ==> has_size(below_top(env@, 0)),
        ensures
            handles(result, word@, EVAL@, eval_effect(env@), env),
            final(self)@ == old(self)@,
    {
        if same_bytes(word, &EVAL) {
            let ghost stack = env@;
            let mut env = env;
            match env.pop_slot() {
                None => {
                    assert(env@ =~= Seq::<Seq<u8>>::empty());
                    Err((env, Error::EmptyStack))
                },
                Some(v) => {
                    let code: Vec<u8> = slice_to_vec(payload(env.bytes(v)));
                    assert(env@ =~= without(stack, 1));
                    Ok((env, Some(code)))
                },
            }
        } else {
            Err((env, Error::UnknownWord))
        }
    }
}

/// Pushes two byte arrays as one value.
fn push_encoded(env: &mut Env, head: &[u8], tail: &[u8])
    requires
        old(env).wf(),
        head@.len() + tail@.len() < MAX_SIZE,
        head@.len() + tail@.len() + size_len(head@.len() + tail@.len()) <= usize::MAX,
    ensures
        final(env).wf(),
        final(env)@ == old(env)@.push(encode(head@ + tail@)),
        final(env).usage() == old(env).usage().allocated(encode(head@ + tail@)).pushed(
            old(env)@.len(),
        ),
{
    let size: usize = head.len() + tail.len();
    let offset: usize = offset_by_size(size);
    let start: usize = env.allocated();
    let slice = env.allocate(size + offset);
    write_size_into_slice(size, slice);
    copy_bytes(slice, offset, head);
    copy_bytes(slice, offset + head.len(), tail);
    assert(slice@ =~= encode(head@ + tail@));
    let span = Span { start, len: size + offset };
    env.push_slot(Slot::Heap(span));
    assert(span.of(env.usage().memory) =~= encode(head@ + tail@));
}

} // verus!
