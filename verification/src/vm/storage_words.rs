//! The words that deal with the store.

use super::{asks, asks_for, StorageResult, VM};
use crate::binparser::payload;
use crate::env::Env;
use crate::error::Error;
use crate::ids::{is_locked_out, EnvId};
use crate::model::{
    assoc_effect, assocq_effect, can_handle, commit_effect, read_effect, read_end_effect,
    retr_effect, without, write_effect, write_end_effect,
};
use crate::storage::{StorageRequest, Txn};
use crate::words::{
    same_bytes, ASSOC, ASSOCQ, COMMIT, READ, READ_END, RETR, WRITE, WRITE_END,
};
use vstd::prelude::*;
use vstd::slice::slice_to_vec;

verus! {

impl VM {
    /// `WRITE`: runs the code on top of the stack in a write transaction. Its end is marked by an
    /// internal word.
    pub fn handle_write<'a>(
        &mut self,
        env: Env<'a>,
        word: &[u8],
        pid: EnvId,
    ) -> (result: StorageResult<'a>)
        requires
            env.wf(),
            word@ == WRITE@ ==> can_handle(word@, env@, old(self)@, pid),
        ensures
            if word@ == WRITE@ {
                asks(result, final(self)@, write_effect(env@, old(self)@, pid), env, old(self)@)
            } else {
                asks_for(
                    result,
                    final(self)@,
                    word@,
                    WRITE_END@,
                    write_end_effect(env@, old(self)@, pid),
                    env,
                    old(self)@,
                )
            },
    {
        if same_bytes(word, &WRITE) {
            let ghost stack = env@;
            if env.stack_size() == 0 {
                assert(env@ =~= Seq::<Seq<u8>>::empty());
                return Err((env, Error::EmptyStack));
            }
            // the code stays on the stack for as long as somebody else has the transaction
            if is_locked_out(self.db_write_txn, pid) {
                return Err((env, Error::Reschedule));
            }
            let mut env = env;
            match env.pop_slot() {
                None => Err((env, Error::EmptyStack)),
                Some(v) => {
                    let mut code: Vec<u8> = slice_to_vec(payload(env.bytes(v)));
                    let mut end: Vec<u8> = slice_to_vec(&WRITE_END);
                    code.append(&mut end);  // transaction end marker
                    assert(env@ =~= without(stack, 1));
                    Ok((env, StorageRequest::Begin(Txn::Write), code))
                },
            }
        } else if same_bytes(word, &WRITE_END) {
            if is_locked_out(self.db_write_txn, pid) {
                return Err((env, Error::Reschedule));
            }
            self.db_write_txn = None;
            Ok((env, StorageRequest::End(Txn::Write), Vec::new()))
        } else {
            Err((env, Error::UnknownWord))
        }
    }

    /// `READ`: runs the code on top of the stack in a read transaction. Its end is marked by an
    /// internal word.
    pub fn handle_read<'a>(
        &mut self,
        env: Env<'a>,
        word: &[u8],
        pid: EnvId,
    ) -> (result: StorageResult<'a>)
        requires
            env.wf(),
            word@ == READ@ ==> can_handle(word@, env@, old(self)@, pid),
        ensures
            if word@ == READ@ {
                asks(result, final(self)@, read_effect(env@, old(self)@, pid), env, old(self)@)
            } else {
                asks_for(
                    result,
                    final(self)@,
                    word@,
                    READ_END@,
                    read_end_effect(env@, old(self)@, pid),
                    env,
                    old(self)@,
                )
            },
    {
        if same_bytes(word, &READ) {
            let ghost stack = env@;
            if env.stack_size() == 0 {
                assert(env@ =~= Seq::<Seq<u8>>::empty());
                return Err((env, Error::EmptyStack));
            }
            // the code stays on the stack for as long as somebody else has the transaction
            if is_locked_out(self.db_read_txn, pid) || is_locked_out(self.db_write_txn, pid) {
                return Err((env, Error::Reschedule));
            }
            let mut env = env;
            match env.pop_slot() {
                None => Err((env, Error::EmptyStack)),
                Some(v) => {
                    let mut code: Vec<u8> = slice_to_vec(payload(env.bytes(v)));
                    let mut end: Vec<u8> = slice_to_vec(&READ_END);
                    code.append(&mut end);  // transaction end marker
                    assert(env@ =~= without(stack, 1));
                    Ok((env, StorageRequest::Begin(Txn::Read), code))
                },
            }
        } else if same_bytes(word, &READ_END) {
            if is_locked_out(self.db_read_txn, pid) || is_locked_out(self.db_write_txn, pid) {
                return Err((env, Error::Reschedule));
            }
            self.db_read_txn = None;
            Ok((env, StorageRequest::End(Txn::Read), Vec::new()))
        } else {
            Err((env, Error::UnknownWord))
        }
    }

    /// `ASSOC`: records a value under a key.
    pub fn handle_assoc<'a>(
        &mut self,
        env: Env<'a>,
        word: &[u8],
        pid: EnvId,
    ) -> (result: StorageResult<'a>)
        requires
            env.wf(),
        ensures
            asks_for(
                result,
                final(self)@,
                word@,
                ASSOC@,
                assoc_effect(env@, old(self)@, pid),
                env,
                old(self)@,
            ),
    {
        if same_bytes(word, &ASSOC) {
            if is_locked_out(self.db_write_txn, pid) {
                return Err((env, Error::Reschedule));
            }
            if self.db_write_txn.is_none() {
                return Err((env, Error::NoTransaction));
            }
            let ghost stack = env@;
            let mut env = env;
            let value = env.pop_slot();
            let key = env.pop_slot();
            match (value, key) {
                (Some(value), Some(key)) => {
                    let request = StorageRequest::Put {
                        key: slice_to_vec(env.bytes(key)),
                        value: slice_to_vec(env.bytes(value)),
                    };
                    assert(env@ =~= without(stack, 2));
                    Ok((env, request, Vec::new()))
                },
                _ => {
                    assert(env@ =~= Seq::<Seq<u8>>::empty());
                    Err((env, Error::EmptyStack))
                },
            }
        } else {
            Err((env, Error::UnknownWord))
        }
    }

    /// `ASSOC?`: tells whether there is a value under a key.
    pub fn handle_assocq<'a>(
        &mut self,
        env: Env<'a>,
        word: &[u8],
        pid: EnvId,
    ) -> (result: StorageResult<'a>)
        requires
            env.wf(),
        ensures
            asks_for(
                result,
                final(self)@,
                word@,
                ASSOCQ@,
                assocq_effect(env@, old(self)@, pid),
                env,
                old(self)@,
            ),
    {
        if same_bytes(word, &ASSOCQ) {
            if is_locked_out(self.db_write_txn, pid) {
                return Err((env, Error::Reschedule));
            }
            let ghost stack = env@;
            let mut env = env;
            match env.pop_slot() {
                None => {
                    assert(env@ =~= Seq::<Seq<u8>>::empty());
                    Err((env, Error::EmptyStack))
                },
                Some(key) => {
                    assert(env@ =~= without(stack, 1));
                    let key: Vec<u8> = slice_to_vec(env.bytes(key));
                    if self.db_write_txn.is_some() {
                        Ok((env, StorageRequest::Has { txn: Txn::Write, key }, Vec::new()))
                    } else if self.db_read_txn.is_some() {
                        Ok((env, StorageRequest::Has { txn: Txn::Read, key }, Vec::new()))
                    } else {
                        Err((env, Error::NoTransaction))
                    }
                },
            }
        } else {
            Err((env, Error::UnknownWord))
        }
    }

    /// `RETR`: retrieves the value under a key.
    pub fn handle_retr<'a>(
        &mut self,
        env: Env<'a>,
        word: &[u8],
        pid: EnvId,
    ) -> (result: StorageResult<'a>)
        requires
            env.wf(),
        ensures
            asks_for(
                result,
                final(self)@,
                word@,
                RETR@,
                retr_effect(env@, old(self)@, pid),
                env,
                old(self)@,
            ),
    {
        if same_bytes(word, &RETR) {
            if is_locked_out(self.db_write_txn, pid) {
                return Err((env, Error::Reschedule));
            }
            let ghost stack = env@;
            let mut env = env;
            match env.pop_slot() {
                None => {
                    assert(env@ =~= Seq::<Seq<u8>>::empty());
                    Err((env, Error::EmptyStack))
                },
                Some(key) => {
                    assert(env@ =~= without(stack, 1));
                    let key: Vec<u8> = slice_to_vec(env.bytes(key));
                    if self.db_write_txn.is_some() {
                        Ok((env, StorageRequest::Get { txn: Txn::Write, key }, Vec::new()))
                    } else if self.db_read_txn.is_some() {
                        Ok((env, StorageRequest::Get { txn: Txn::Read, key }, Vec::new()))
                    } else {
                        Err((env, Error::NoTransaction))
                    }
                },
            }
        } else {
            Err((env, Error::UnknownWord))
        }
    }

    /// `COMMIT`: commits the write transaction.
    pub fn handle_commit<'a>(
        &mut self,
        env: Env<'a>,
        word: &[u8],
        pid: EnvId,
    ) -> (result: StorageResult<'a>)
        requires
            env.wf(),
        ensures
            asks_for(
                result,
                final(self)@,
                word@,
                COMMIT@,
                commit_effect(env@, old(self)@, pid),
                env,
                old(self)@,
            ),
    {
        if same_bytes(word, &COMMIT) {
            if is_locked_out(self.db_write_txn, pid) {
                return Err((env, Error::Reschedule));
            }
            if self.db_write_txn.is_none() {
                return Err((env, Error::NoTransaction));
            }
            self.db_write_txn = None;
            Ok((env, StorageRequest::Commit, Vec::new()))
        } else {
            Err((env, Error::UnknownWord))
        }
    }
}

} // verus!
