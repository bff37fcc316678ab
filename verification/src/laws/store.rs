//! Laws of what programs record and retrieve, with a store that keeps what it is given.

use crate::binparser::{encode, MAX_SIZE};
use crate::error::{Error, StorageError, KEYEXIST};
use crate::ids::{locked_out, EnvId};
use crate::laws::format::law_value_read_back;
use crate::laws::programs::{law_value_is_pushed, law_word_is_executed};
use crate::model::{
    assoc_effect, assocq_effect, commit_effect, false_value, pass_outcome, read_effect,
    read_end_effect, remaining, resume_outcome, retr_effect, true_value, without, word_effect,
    write_effect, write_end_effect, Locks, Outcome, Stack,
};
use crate::storage::{Answer, Asked, Txn};
use crate::words::{ASSOC, ASSOCQ, COMMIT, READ, READ_END, RETR, WRITE, WRITE_END};
use vstd::prelude::*;

verus! {

/// Keys and the values under them.
pub type Entries = Map<Seq<u8>, Seq<u8>>;

/// A store: what has been committed, and what the open transactions see.
pub struct Store {
    /// What has been committed.
    pub committed: Entries,
    /// What the write transaction sees, if it is open.
    pub write: Option<Entries>,
    /// What the read transaction sees, if it is open.
    pub read: Option<Entries>,
}

impl Store {
    /// What a transaction sees.
    pub open spec fn seen(self, txn: Txn) -> Option<Entries> {
        match txn {
            Txn::Write => self.write,
            Txn::Read => self.read,
        }
    }

    /// The store with a transaction that sees this, or closed.
    pub open spec fn with(self, txn: Txn, entries: Option<Entries>) -> Store {
        match txn {
            Txn::Write => Store { write: entries, ..self },
            Txn::Read => Store { read: entries, ..self },
        }
    }

    /// The answer to a question for the value under a key.
    pub open spec fn look_up(self, txn: Txn, key: Seq<u8>) -> Answer {
        match self.seen(txn) {
            None => Err(StorageError::Mismatch),
            Some(entries) => if entries.contains_key(key) {
                Ok(Some(entries[key]))
            } else {
                Ok(None)
            },
        }
    }

    /// How the store changes, and what it answers.
    pub open spec fn perform(self, request: Asked) -> (Store, Answer) {
        match request {
            Asked::Begin(txn) => (self.with(txn, Some(self.committed)), Ok(None)),
            Asked::End(txn) => (self.with(txn, None), Ok(None)),
            Asked::Put { key, value } => match self.write {
                None => (self, Err(StorageError::Mismatch)),
                Some(entries) => if entries.contains_key(key) {
                    (self, Err(StorageError::Code(KEYEXIST)))
                } else {
                    (self.with(Txn::Write, Some(entries.insert(key, value))), Ok(None))
                },
            },
            Asked::Get { txn, key } => (self, self.look_up(txn, key)),
            Asked::Has { txn, key } => (self, self.look_up(txn, key)),
            Asked::Commit => match self.write {
                None => (self, Err(StorageError::Mismatch)),
                Some(entries) => (Store { committed: entries, write: None, ..self }, Ok(None)),
            },
        }
    }
}

/// How far a program has come.
pub enum Progress {
    /// This is left of it.
    Running(Seq<u8>),
    /// It has terminated.
    Terminated,
    /// It has ended with an error.
    Failed(Error),
}

/// A program, its environment, and the store.
pub struct World {
    /// How far the program has come.
    pub progress: Progress,
    /// The values on the stack.
    pub stack: Stack,
    /// Who holds the transactions.
    pub locks: Locks,
    /// The store.
    pub store: Store,
}

/// A program of which this is left.
pub open spec fn left(program: Seq<u8>) -> Progress {
    match remaining(program) {
        None => Progress::Terminated,
        Some(code) => Progress::Running(code),
    }
}

/// The world after an outcome.
pub open spec fn world_of(outcome: Outcome, locks: Locks, store: Store) -> World {
    match outcome {
        Outcome::Done { stack, program: None } => World {
            progress: Progress::Terminated,
            stack,
            locks,
            store,
        },
        Outcome::Done { stack, program: Some(code) } => World {
            progress: Progress::Running(code),
            stack,
            locks,
            store,
        },
        Outcome::Failed { stack, error } => World {
            progress: Progress::Failed(error),
            stack,
            locks,
            store,
        },
        Outcome::Waiting { stack, program, .. } => World {
            progress: Progress::Running(program),
            stack,
            locks,
            store,
        },
    }
}

/// The next instruction is executed, and the store performs what it asks for.
pub open spec fn tick(world: World, pid: EnvId) -> World {
    match world.progress {
        Progress::Running(program) => {
            let (locks, outcome) = pass_outcome(program, world.stack, world.locks, pid);
            match outcome {
                Outcome::Waiting { stack, request, program } => {
                    let (store, answer) = world.store.perform(request);
                    let (locks, outcome) = resume_outcome(
                        request,
                        program,
                        stack,
                        locks,
                        pid,
                        answer,
                    );
                    world_of(outcome, locks, store)
                },
                _ => world_of(outcome, locks, world.store),
            }
        },
        _ => world,
    }
}

/// So many instructions are executed.
pub open spec fn run(world: World, pid: EnvId, ticks: nat) -> World
    decreases ticks,
{
    if ticks == 0 {
        world
    } else {
        run(tick(world, pid), pid, (ticks - 1) as nat)
    }
}

/// A program that is about to run, with no transaction open.
pub open spec fn fresh(program: Seq<u8>, stack: Stack, committed: Entries) -> World {
    World {
        progress: Progress::Running(program),
        stack,
        locks: Locks { write: None, read: None },
        store: Store { committed, write: None, read: None },
    }
}

/// A program that is run in a write transaction.
pub open spec fn in_write(code: Seq<u8>) -> Seq<u8> {
    encode(code) + WRITE@
}

/// A program that is run in a read transaction.
pub open spec fn in_read(code: Seq<u8>) -> Seq<u8> {
    encode(code) + READ@
}

proof fn lemma_tick_value(world: World, value: Seq<u8>, rest: Seq<u8>, pid: EnvId)
    requires
        world.progress == Progress::Running(encode(value) + rest),
        value.len() < MAX_SIZE,
    ensures
        tick(world, pid) == (World {
            progress: left(rest),
            stack: world.stack.push(encode(value)),
            ..world
        }),
{
    law_value_is_pushed(value, rest, world.stack, world.locks, pid);
}

proof fn lemma_tick_begin(
    world: World,
    txn: Txn,
    stack: Stack,
    code: Seq<u8>,
    rest: Seq<u8>,
    pid: EnvId,
)
    requires
        world.progress == Progress::Running(
            match txn {
                Txn::Write => WRITE@,
                Txn::Read => READ@,
            } + rest,
        ),
        world.stack == stack.push(encode(code)),
        code.len() < MAX_SIZE,
        world.locks.write is None,
        txn is Read ==> world.locks.read is None,
    ensures
        tick(world, pid) == (World {
            progress: Progress::Running(
                code + (match txn {
                    Txn::Write => WRITE_END@,
                    Txn::Read => READ_END@,
                } + rest),
            ),
            stack,
            locks: match txn {
                Txn::Write => Locks { write: Some(pid), read: world.locks.read },
                Txn::Read => Locks { write: None, read: Some(pid) },
            },
            store: world.store.with(txn, Some(world.store.committed)),
        }),
{
    law_value_read_back(code, Seq::empty());
    assert(without(world.stack, 1) =~= stack);
    match txn {
        Txn::Write => {
            law_word_is_executed(WRITE@, rest, world.stack, world.locks, pid);
            assert(word_effect(WRITE@, world.stack, world.locks, pid) == write_effect(
                world.stack,
                world.locks,
                pid,
            ));
            assert((code + WRITE_END@) + rest =~= code + (WRITE_END@ + rest));
        },
        Txn::Read => {
            law_word_is_executed(READ@, rest, world.stack, world.locks, pid);
            assert(word_effect(READ@, world.stack, world.locks, pid) == read_effect(
                world.stack,
                world.locks,
                pid,
            ));
            assert((code + READ_END@) + rest =~= code + (READ_END@ + rest));
        },
    }
}

/// The end of a transaction: what was written in it is forgotten.
pub proof fn law_end_forgets(world: World, txn: Txn, rest: Seq<u8>, pid: EnvId)
    requires
        world.progress == Progress::Running(
            match txn {
                Txn::Write => WRITE_END@,
                Txn::Read => READ_END@,
            } + rest,
        ),
        !locked_out(world.locks.write, pid),
        txn is Read ==> !locked_out(world.locks.read, pid),
    ensures
        tick(world, pid) == (World {
            progress: left(rest),
            stack: world.stack,
            locks: match txn {
                Txn::Write => Locks { write: None, read: world.locks.read },
                Txn::Read => Locks { write: world.locks.write, read: None },
            },
            store: world.store.with(txn, None),
        }),
        tick(world, pid).store.committed == world.store.committed,
{
    assert(Seq::<u8>::empty() + rest =~= rest);
    assert(WRITE_END@.skip(1) =~= WRITE@);
    assert(READ_END@.skip(1) =~= READ@);
    match txn {
        Txn::Write => {
            law_word_is_executed(WRITE_END@, rest, world.stack, world.locks, pid);
            assert(word_effect(WRITE_END@, world.stack, world.locks, pid) == write_end_effect(
                world.stack,
                world.locks,
                pid,
            ));
        },
        Txn::Read => {
            law_word_is_executed(READ_END@, rest, world.stack, world.locks, pid);
            assert(word_effect(READ_END@, world.stack, world.locks, pid) == read_end_effect(
                world.stack,
                world.locks,
                pid,
            ));
        },
    }
}

/// `ASSOC` records a value under a key that has none, and fails where the key has one.
pub proof fn law_assoc_records_once(
    world: World,
    stack: Stack,
    key: Seq<u8>,
    value: Seq<u8>,
    entries: Entries,
    rest: Seq<u8>,
    pid: EnvId,
)
    requires
        world.progress == Progress::Running(ASSOC@ + rest),
        world.stack == stack.push(key).push(value),
        world.locks.write == Some(pid),
        world.store.write == Some(entries),
    ensures
        tick(world, pid) == if entries.contains_key(key) {
            World { progress: Progress::Failed(Error::DuplicateKey), stack, ..world }
        } else {
            World {
                progress: left(rest),
                stack,
                locks: world.locks,
                store: Store { write: Some(entries.insert(key, value)), ..world.store },
            }
        },
{
    assert(Seq::<u8>::empty() + rest =~= rest);
    law_word_is_executed(ASSOC@, rest, world.stack, world.locks, pid);
    assert(without(world.stack, 2) =~= stack);
    assert(word_effect(ASSOC@, world.stack, world.locks, pid) == assoc_effect(
        world.stack,
        world.locks,
        pid,
    ));
}

/// `COMMIT` keeps what was written in the write transaction.
pub proof fn law_commit_keeps(world: World, entries: Entries, rest: Seq<u8>, pid: EnvId)
    requires
        world.progress == Progress::Running(COMMIT@ + rest),
        world.locks.write == Some(pid),
        world.store.write == Some(entries),
    ensures
        tick(world, pid) == (World {
            progress: left(rest),
            stack: world.stack,
            locks: Locks { write: None, read: world.locks.read },
            store: Store { committed: entries, write: None, ..world.store },
        }),
{
    assert(Seq::<u8>::empty() + rest =~= rest);
    law_word_is_executed(COMMIT@, rest, world.stack, world.locks, pid);
    assert(word_effect(COMMIT@, world.stack, world.locks, pid) == commit_effect(
        world.stack,
        world.locks,
        pid,
    ));
}

/// Whether values are looked up in a transaction that sees these entries.
pub open spec fn looks_in(world: World, entries: Entries, pid: EnvId) -> bool {
    ||| world.locks.write == Some(pid) && world.store.write == Some(entries)
    ||| world.locks.write is None && world.locks.read is Some && world.store.read == Some(entries)
}

/// `RETR` pushes the value under a key, and fails where there is none.
pub proof fn law_retr_finds(
    world: World,
    stack: Stack,
    key: Seq<u8>,
    entries: Entries,
    rest: Seq<u8>,
    pid: EnvId,
)
    requires
        world.progress == Progress::Running(RETR@ + rest),
        world.stack == stack.push(key),
        looks_in(world, entries, pid),
    ensures
        tick(world, pid) == if entries.contains_key(key) {
            World { progress: left(rest), stack: stack.push(entries[key]), ..world }
        } else {
            World { progress: Progress::Failed(Error::UnknownKey), stack, ..world }
        },
{
    assert(Seq::<u8>::empty() + rest =~= rest);
    law_word_is_executed(RETR@, rest, world.stack, world.locks, pid);
    assert(without(world.stack, 1) =~= stack);
    assert(word_effect(RETR@, world.stack, world.locks, pid) == retr_effect(
        world.stack,
        world.locks,
        pid,
    ));
}

/// `ASSOC?` tells whether there is a value under a key.
pub proof fn law_assocq_tells(
    world: World,
    stack: Stack,
    key: Seq<u8>,
    entries: Entries,
    rest: Seq<u8>,
    pid: EnvId,
)
    requires
        world.progress == Progress::Running(ASSOCQ@ + rest),
        world.stack == stack.push(key),
        looks_in(world, entries, pid),
    ensures
        tick(world, pid) == (World {
            progress: left(rest),
            stack: stack.push(
                if entries.contains_key(key) {
                    true_value()
                } else {
                    false_value()
                },
            ),
            ..world
        }),
{
    assert(Seq::<u8>::empty() + rest =~= rest);
    law_word_is_executed(ASSOCQ@, rest, world.stack, world.locks, pid);
    assert(without(world.stack, 1) =~= stack);
    assert(word_effect(ASSOCQ@, world.stack, world.locks, pid) == assocq_effect(
        world.stack,
        world.locks,
        pid,
    ));
}

/// So many instructions and one more.
pub(crate) proof fn lemma_run_one_more(world: World, pid: EnvId, ticks: nat)
    ensures
        run(world, pid, ticks + 1) == tick(run(world, pid, ticks), pid),
    decreases ticks,
{
    reveal_with_fuel(run, 2);
    if ticks > 0 {
        lemma_run_one_more(tick(world, pid), pid, (ticks - 1) as nat);
    }
}

/// Code that is pushed and run in a transaction.
proof fn lemma_run_begin(
    world: World,
    txn: Txn,
    code: Seq<u8>,
    rest: Seq<u8>,
    pid: EnvId,
    start: World,
    ticks: nat,
)
    requires
        run(start, pid, ticks) == world,
        world.progress == Progress::Running(
            match txn {
                Txn::Write => in_write(code),
                Txn::Read => in_read(code),
            } + rest,
        ),
        code.len() < MAX_SIZE,
        world.locks.write is None,
        txn is Read ==> world.locks.read is None,
    ensures
        run(start, pid, ticks + 2) == (World {
            progress: Progress::Running(
                code + (match txn {
                    Txn::Write => WRITE_END@,
                    Txn::Read => READ_END@,
                } + rest),
            ),
            stack: world.stack,
            locks: match txn {
                Txn::Write => Locks { write: Some(pid), read: world.locks.read },
                Txn::Read => Locks { write: None, read: Some(pid) },
            },
            store: world.store.with(txn, Some(world.store.committed)),
        }),
{
    let word = match txn {
        Txn::Write => WRITE@,
        Txn::Read => READ@,
    };
    assert((encode(code) + word) + rest =~= encode(code) + (word + rest));
    lemma_tick_value(world, code, word + rest, pid);
    lemma_run_one_more(start, pid, ticks);
    lemma_tick_begin(tick(world, pid), txn, world.stack, code, rest, pid);
    lemma_run_one_more(start, pid, ticks + 1);
}

/// The code that records a value under a key.
pub open spec fn record(key: Seq<u8>, value: Seq<u8>) -> Seq<u8> {
    encode(key) + encode(value) + ASSOC@
}

/// The code that retrieves the value under a key.
pub open spec fn retrieve(key: Seq<u8>) -> Seq<u8> {
    encode(key) + RETR@
}

/// The code that asks whether there is a value under a key.
pub open spec fn ask(key: Seq<u8>) -> Seq<u8> {
    encode(key) + ASSOCQ@
}

proof fn lemma_run_record(
    world: World,
    key: Seq<u8>,
    value: Seq<u8>,
    entries: Entries,
    rest: Seq<u8>,
    pid: EnvId,
    start: World,
    ticks: nat,
)
    requires
        run(start, pid, ticks) == world,
        world.progress == Progress::Running(record(key, value) + rest),
        key.len() < MAX_SIZE,
        value.len() < MAX_SIZE,
        world.locks.write == Some(pid),
        world.store.write == Some(entries),
    ensures
        run(start, pid, ticks + 3) == if entries.contains_key(encode(key)) {
            World { progress: Progress::Failed(Error::DuplicateKey), ..world }
        } else {
            World {
                progress: left(rest),
                store: Store {
                    write: Some(entries.insert(encode(key), encode(value))),
                    ..world.store
                },
                ..world
            }
        },
{
    assert(record(key, value) + rest =~= encode(key) + (encode(value) + (ASSOC@ + rest)));
    lemma_tick_value(world, key, encode(value) + (ASSOC@ + rest), pid);
    lemma_run_one_more(start, pid, ticks);
    let second = tick(world, pid);
    lemma_tick_value(second, value, ASSOC@ + rest, pid);
    lemma_run_one_more(start, pid, ticks + 1);
    let third = tick(second, pid);
    law_assoc_records_once(third, world.stack, encode(key), encode(value), entries, rest, pid);
    lemma_run_one_more(start, pid, ticks + 2);
}

proof fn lemma_run_retrieve(
    world: World,
    key: Seq<u8>,
    entries: Entries,
    rest: Seq<u8>,
    pid: EnvId,
    start: World,
    ticks: nat,
)
    requires
        run(start, pid, ticks) == world,
        world.progress == Progress::Running(retrieve(key) + rest),
        key.len() < MAX_SIZE,
        looks_in(world, entries, pid),
    ensures
        run(start, pid, ticks + 2) == if entries.contains_key(encode(key)) {
            World {
                progress: left(rest),
                stack: world.stack.push(entries[encode(key)]),
                ..world
            }
        } else {
            World { progress: Progress::Failed(Error::UnknownKey), ..world }
        },
{
    assert(retrieve(key) + rest =~= encode(key) + (RETR@ + rest));
    lemma_tick_value(world, key, RETR@ + rest, pid);
    lemma_run_one_more(start, pid, ticks);
    law_retr_finds(tick(world, pid), world.stack, encode(key), entries, rest, pid);
    lemma_run_one_more(start, pid, ticks + 1);
}

/// A value that was recorded and committed is retrieved by the program that reads it
/// afterwards.
pub proof fn law_committed_value_is_read_back(
    key: Seq<u8>,
    value: Seq<u8>,
    stack: Stack,
    committed: Entries,
    pid: EnvId,
)
    requires
        record(key, value).len() + COMMIT@.len() < MAX_SIZE,
        retrieve(key).len() < MAX_SIZE,
        !committed.contains_key(encode(key)),
    ensures
        run(
            fresh(
                in_write(record(key, value) + COMMIT@) + in_read(retrieve(key)),
                stack,
                committed,
            ),
            pid,
            12,
        ) == (World {
            progress: Progress::Terminated,
            stack: stack.push(encode(value)),
            locks: Locks { write: None, read: None },
            store: Store {
                committed: committed.insert(encode(key), encode(value)),
                write: None,
                read: None,
            },
        }),
{
    let reading = in_read(retrieve(key));
    let writing = record(key, value) + COMMIT@;
    let start = fresh(in_write(writing) + reading, stack, committed);
    let written = committed.insert(encode(key), encode(value));
    assert(run(start, pid, 0) == start);
    lemma_run_begin(start, Txn::Write, writing, reading, pid, start, 0);
    let w2 = run(start, pid, 2);
    assert(writing + (WRITE_END@ + reading) =~= record(key, value) + (COMMIT@ + (WRITE_END@
        + reading)));
    lemma_run_record(
        w2,
        key,
        value,
        committed,
        COMMIT@ + (WRITE_END@ + reading),
        pid,
        start,
        2,
    );
    let w5 = run(start, pid, 5);
    law_commit_keeps(w5, written, WRITE_END@ + reading, pid);
    lemma_run_one_more(start, pid, 5);
    let w6 = run(start, pid, 6);
    law_end_forgets(w6, Txn::Write, reading, pid);
    lemma_run_one_more(start, pid, 6);
    let w7 = run(start, pid, 7);
    assert(reading =~= reading + Seq::<u8>::empty());
    lemma_run_begin(w7, Txn::Read, retrieve(key), Seq::empty(), pid, start, 7);
    let w9 = run(start, pid, 9);
    lemma_run_retrieve(w9, key, written, READ_END@ + Seq::<u8>::empty(), pid, start, 9);
    let w11 = run(start, pid, 11);
    law_end_forgets(w11, Txn::Read, Seq::empty(), pid);
    lemma_run_one_more(start, pid, 11);
}

/// A value that was recorded and committed is retrieved by whoever reads it afterwards: here
/// the program of another environment, or of the same.
pub proof fn law_committed_value_is_read_by_others(
    key: Seq<u8>,
    value: Seq<u8>,
    stack: Stack,
    committed: Entries,
    writer: EnvId,
    reader_stack: Stack,
    reader: EnvId,
)
    requires
        record(key, value).len() + COMMIT@.len() < MAX_SIZE,
        retrieve(key).len() < MAX_SIZE,
        !committed.contains_key(encode(key)),
    ensures
        ({
            let written = run(
                fresh(in_write(record(key, value) + COMMIT@), stack, committed),
                writer,
                7,
            );
            let store = Store {
                committed: committed.insert(encode(key), encode(value)),
                write: None,
                read: None,
            };
            let locks = Locks { write: None, read: None };
            &&& written == (World { progress: Progress::Terminated, stack, locks, store })
            &&& run(
                World {
                    progress: Progress::Running(in_read(retrieve(key))),
                    stack: reader_stack,
                    ..written
                },
                reader,
                5,
            ) == (World {
                progress: Progress::Terminated,
                stack: reader_stack.push(encode(value)),
                locks,
                store,
            })
        }),
{
    let none = Seq::<u8>::empty();
    let writing = record(key, value) + COMMIT@;
    let start = fresh(in_write(writing), stack, committed);
    let written = committed.insert(encode(key), encode(value));
    let after = COMMIT@ + (WRITE_END@ + none);
    assert(run(start, writer, 0) == start);
    assert(in_write(writing) =~= in_write(writing) + none);
    lemma_run_begin(start, Txn::Write, writing, none, writer, start, 0);
    let w2 = run(start, writer, 2);
    assert(writing + (WRITE_END@ + none) =~= record(key, value) + after);
    lemma_run_record(w2, key, value, committed, after, writer, start, 2);
    let w5 = run(start, writer, 5);
    law_commit_keeps(w5, written, WRITE_END@ + none, writer);
    lemma_run_one_more(start, writer, 5);
    let w6 = run(start, writer, 6);
    law_end_forgets(w6, Txn::Write, none, writer);
    lemma_run_one_more(start, writer, 6);
    law_retrieved_is_committed(key, reader_stack, written, reader);
}

/// A value that was recorded is retrieved in the same write transaction and, once it is
/// committed, kept, while somebody else holds the read transaction or nobody does: what the read
/// transaction sees stays as it is.
pub proof fn law_recorded_while_others_read(
    key: Seq<u8>,
    value: Seq<u8>,
    stack: Stack,
    committed: Entries,
    reader: Option<EnvId>,
    seen: Option<Entries>,
    pid: EnvId,
)
    requires
        (record(key, value) + retrieve(key) + COMMIT@).len() < MAX_SIZE,
        !committed.contains_key(encode(key)),
    ensures
        run(
            World {
                progress: Progress::Running(
                    in_write(record(key, value) + retrieve(key) + COMMIT@),
                ),
                stack,
                locks: Locks { write: None, read: reader },
                store: Store { committed, write: None, read: seen },
            },
            pid,
            9,
        ) == (World {
            progress: Progress::Terminated,
            stack: stack.push(encode(value)),
            locks: Locks { write: None, read: reader },
            store: Store {
                committed: committed.insert(encode(key), encode(value)),
                write: None,
                read: seen,
            },
        }),
{
    let none = Seq::<u8>::empty();
    let code = record(key, value) + retrieve(key) + COMMIT@;
    let written = committed.insert(encode(key), encode(value));
    let start = World {
        progress: Progress::Running(in_write(code)),
        stack,
        locks: Locks { write: None, read: reader },
        store: Store { committed, write: None, read: seen },
    };
    let last = COMMIT@ + (WRITE_END@ + none);
    assert(run(start, pid, 0) == start);
    assert(in_write(code) =~= in_write(code) + none);
    lemma_run_begin(start, Txn::Write, code, none, pid, start, 0);
    let w2 = run(start, pid, 2);
    assert(code + (WRITE_END@ + none) =~= record(key, value) + (retrieve(key) + last));
    lemma_run_record(w2, key, value, committed, retrieve(key) + last, pid, start, 2);
    let w5 = run(start, pid, 5);
    lemma_run_retrieve(w5, key, written, last, pid, start, 5);
    let w7 = run(start, pid, 7);
    law_commit_keeps(w7, written, WRITE_END@ + none, pid);
    lemma_run_one_more(start, pid, 7);
    let w8 = run(start, pid, 8);
    law_end_forgets(w8, Txn::Write, none, pid);
    lemma_run_one_more(start, pid, 8);
}

/// A value that was recorded and committed is retrieved in a later write transaction, while
/// somebody else holds the read transaction or nobody does.
pub proof fn law_committed_while_others_read(
    key: Seq<u8>,
    value: Seq<u8>,
    stack: Stack,
    committed: Entries,
    reader: Option<EnvId>,
    seen: Option<Entries>,
    pid: EnvId,
)
    requires
        (record(key, value) + COMMIT@).len() < MAX_SIZE,
        retrieve(key).len() < MAX_SIZE,
        !committed.contains_key(encode(key)),
    ensures
        run(
            World {
                progress: Progress::Running(
                    in_write(record(key, value) + COMMIT@) + in_write(retrieve(key)),
                ),
                stack,
                locks: Locks { write: None, read: reader },
                store: Store { committed, write: None, read: seen },
            },
            pid,
            12,
        ) == (World {
            progress: Progress::Terminated,
            stack: stack.push(encode(value)),
            locks: Locks { write: None, read: reader },
            store: Store {
                committed: committed.insert(encode(key), encode(value)),
                write: None,
                read: seen,
            },
        }),
{
    let none = Seq::<u8>::empty();
    let code = record(key, value) + COMMIT@;
    let later = in_write(retrieve(key));
    let written = committed.insert(encode(key), encode(value));
    let start = World {
        progress: Progress::Running(in_write(code) + later),
        stack,
        locks: Locks { write: None, read: reader },
        store: Store { committed, write: None, read: seen },
    };
    let last = COMMIT@ + (WRITE_END@ + later);
    assert(run(start, pid, 0) == start);
    lemma_run_begin(start, Txn::Write, code, later, pid, start, 0);
    let w2 = run(start, pid, 2);
    assert(code + (WRITE_END@ + later) =~= record(key, value) + last);
    lemma_run_record(w2, key, value, committed, last, pid, start, 2);
    let w5 = run(start, pid, 5);
    law_commit_keeps(w5, written, WRITE_END@ + later, pid);
    lemma_run_one_more(start, pid, 5);
    let w6 = run(start, pid, 6);
    law_end_forgets(w6, Txn::Write, later, pid);
    lemma_run_one_more(start, pid, 6);
    let w7 = run(start, pid, 7);
    assert(later =~= later + none);
    lemma_run_begin(w7, Txn::Write, retrieve(key), none, pid, start, 7);
    let w9 = run(start, pid, 9);
    lemma_run_retrieve(w9, key, written, WRITE_END@ + none, pid, start, 9);
    let w11 = run(start, pid, 11);
    law_end_forgets(w11, Txn::Write, none, pid);
    lemma_run_one_more(start, pid, 11);
}

/// A value that was recorded and not committed is not retrieved afterwards.
pub proof fn law_uncommitted_value_is_lost(
    key: Seq<u8>,
    value: Seq<u8>,
    stack: Stack,
    committed: Entries,
    pid: EnvId,
)
    requires
        record(key, value).len() < MAX_SIZE,
        retrieve(key).len() < MAX_SIZE,
        !committed.contains_key(encode(key)),
    ensures
        ({
            let end = run(
                fresh(in_write(record(key, value)) + in_read(retrieve(key)), stack, committed),
                pid,
                10,
            );
            &&& end.progress == Progress::Failed(Error::UnknownKey)
            &&& end.stack == stack
            &&& end.store.committed == committed
        }),
{
    let reading = in_read(retrieve(key));
    let writing = record(key, value);
    let start = fresh(in_write(writing) + reading, stack, committed);
    assert(run(start, pid, 0) == start);
    lemma_run_begin(start, Txn::Write, writing, reading, pid, start, 0);
    let w2 = run(start, pid, 2);
    lemma_run_record(w2, key, value, committed, WRITE_END@ + reading, pid, start, 2);
    let w5 = run(start, pid, 5);
    law_end_forgets(w5, Txn::Write, reading, pid);
    lemma_run_one_more(start, pid, 5);
    let w6 = run(start, pid, 6);
    assert(reading =~= reading + Seq::<u8>::empty());
    lemma_run_begin(w6, Txn::Read, retrieve(key), Seq::empty(), pid, start, 6);
    let w8 = run(start, pid, 8);
    lemma_run_retrieve(w8, key, committed, READ_END@ + Seq::<u8>::empty(), pid, start, 8);
}

/// A key that has a value is not given another: the program fails, and nothing that it wrote
/// is kept.
pub proof fn law_key_is_not_overwritten(
    key: Seq<u8>,
    value: Seq<u8>,
    other: Seq<u8>,
    rest: Seq<u8>,
    stack: Stack,
    committed: Entries,
    pid: EnvId,
)
    requires
        (record(key, value) + record(key, other) + rest).len() < MAX_SIZE,
        !committed.contains_key(encode(key)),
    ensures
        ({
            let end = run(
                fresh(
                    in_write(record(key, value) + record(key, other) + rest),
                    stack,
                    committed,
                ),
                pid,
                8,
            );
            &&& end.progress == Progress::Failed(Error::DuplicateKey)
            &&& end.stack == stack
            &&& end.store.committed == committed
        }),
{
    let writing = record(key, value) + record(key, other) + rest;
    let after = record(key, other) + (rest + (WRITE_END@ + Seq::<u8>::empty()));
    let start = fresh(in_write(writing), stack, committed);
    assert(run(start, pid, 0) == start);
    assert(in_write(writing) =~= in_write(writing) + Seq::<u8>::empty());
    lemma_run_begin(start, Txn::Write, writing, Seq::empty(), pid, start, 0);
    let w2 = run(start, pid, 2);
    assert(writing + (WRITE_END@ + Seq::<u8>::empty()) =~= record(key, value) + after);
    lemma_run_record(w2, key, value, committed, after, pid, start, 2);
    let w5 = run(start, pid, 5);
    lemma_run_record(
        w5,
        key,
        other,
        committed.insert(encode(key), encode(value)),
        rest + (WRITE_END@ + Seq::<u8>::empty()),
        pid,
        start,
        5,
    );
}

/// What has been committed is retrieved, and nothing else is.
pub proof fn law_retrieved_is_committed(
    key: Seq<u8>,
    stack: Stack,
    committed: Entries,
    pid: EnvId,
)
    requires
        retrieve(key).len() < MAX_SIZE,
    ensures
        committed.contains_key(encode(key)) ==> run(
            fresh(in_read(retrieve(key)), stack, committed),
            pid,
            5,
        ) == (World {
            progress: Progress::Terminated,
            stack: stack.push(committed[encode(key)]),
            locks: Locks { write: None, read: None },
            store: Store { committed, write: None, read: None },
        }),
        !committed.contains_key(encode(key)) ==> {
            let end = run(fresh(in_read(retrieve(key)), stack, committed), pid, 4);
            &&& end.progress == Progress::Failed(Error::UnknownKey)
            &&& end.stack == stack
            &&& end.store.committed == committed
        },
{
    let reading = in_read(retrieve(key));
    let start = fresh(reading, stack, committed);
    assert(run(start, pid, 0) == start);
    assert(reading =~= reading + Seq::<u8>::empty());
    lemma_run_begin(start, Txn::Read, retrieve(key), Seq::empty(), pid, start, 0);
    let w2 = run(start, pid, 2);
    lemma_run_retrieve(w2, key, committed, READ_END@ + Seq::<u8>::empty(), pid, start, 2);
    if committed.contains_key(encode(key)) {
        law_end_forgets(run(start, pid, 4), Txn::Read, Seq::empty(), pid);
        lemma_run_one_more(start, pid, 4);
    }
}

/// `ASSOC?` tells of what has been committed.
pub proof fn law_asked_is_committed(key: Seq<u8>, stack: Stack, committed: Entries, pid: EnvId)
    requires
        ask(key).len() < MAX_SIZE,
    ensures
        run(fresh(in_read(ask(key)), stack, committed), pid, 5) == (World {
            progress: Progress::Terminated,
            stack: stack.push(
                if committed.contains_key(encode(key)) {
                    true_value()
                } else {
                    false_value()
                },
            ),
            locks: Locks { write: None, read: None },
            store: Store { committed, write: None, read: None },
        }),
{
    let reading = in_read(ask(key));
    let start = fresh(reading, stack, committed);
    assert(run(start, pid, 0) == start);
    assert(reading =~= reading + Seq::<u8>::empty());
    lemma_run_begin(start, Txn::Read, ask(key), Seq::empty(), pid, start, 0);
    let w2 = run(start, pid, 2);
    let end = READ_END@ + Seq::<u8>::empty();
    assert(ask(key) + end =~= encode(key) + (ASSOCQ@ + end));
    lemma_tick_value(w2, key, ASSOCQ@ + end, pid);
    lemma_run_one_more(start, pid, 2);
    let w3 = run(start, pid, 3);
    law_assocq_tells(w3, stack, encode(key), committed, end, pid);
    lemma_run_one_more(start, pid, 3);
    law_end_forgets(run(start, pid, 4), Txn::Read, Seq::empty(), pid);
    lemma_run_one_more(start, pid, 4);
}

} // verus!
