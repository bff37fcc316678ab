//! Laws of what a VM answers that runs with a store: scheduling and the store together.

use crate::binparser::{encode, MAX_SIZE};
use crate::error::Error;
use crate::ids::EnvId;
use crate::laws::format::law_size_field_len;
use crate::laws::programs::law_value_is_pushed;
use crate::laws::store;
use crate::laws::store::{
    fresh, in_read, in_write, law_committed_value_is_read_back, law_key_is_not_overwritten,
    law_uncommitted_value_is_lost, lemma_run_one_more, record, retrieve, Entries, Progress, World,
};
use crate::model::{pass_outcome, Outcome, Stack};
use crate::runs;
use crate::runs::{Event, Machine, Message, Response};
use crate::storage::Answer;
use crate::words::COMMIT;
use vstd::prelude::*;

verus! {

/// What the store answers to the next instruction of a program, if it is asked.
pub open spec fn answer_to(world: World, pid: EnvId) -> Answer {
    match world.progress {
        Progress::Running(program) => match pass_outcome(
            program,
            world.stack,
            world.locks,
            pid,
        ).1 {
            Outcome::Waiting { request, .. } => world.store.perform(request).1,
            _ => Ok(None),
        },
        _ => Ok(None),
    }
}

/// Whether a message asks for the next instruction of a program.
pub open spec fn asks_for_next<C>(message: Message<C>, world: World, id: EnvId, to: C) -> bool {
    &&& message matches Message::Reschedule { pid, program, stack, chan, .. }
    &&& world.progress == Progress::Running(program)
    &&& pid == id
    &&& stack == world.stack
    &&& chan == to
}

/// The response for a program that has come to its end.
pub open spec fn response_of(world: World, pid: EnvId) -> Option<Response> {
    let stack = world.stack;
    match world.progress {
        Progress::Running(_) => None,
        Progress::Terminated => Some(Response::Terminated { pid, stack, size: stack.len() }),
        Progress::Failed(error) => Some(Response::Failed { pid, error, stack, size: stack.len() }),
    }
}

/// A VM whose next message is for a program does with it what the program does with the store,
/// whoever else waits: unless the program ends, it is put behind the others with what is left
/// of it, and if it ends, the response has its stack and, if it fails, its error.
pub proof fn law_tick_agrees<C>(machine: Machine<C>, world: World, pid: EnvId, chan: C)
    requires
        machine.running,
        machine.queue.len() > 0,
        machine.locks == world.locks,
        asks_for_next(machine.queue[0], world, pid, chan),
    ensures
        ({
            let after = runs::tick(machine, answer_to(world, pid));
            let next = store::tick(world, pid);
            &&& after.running
            &&& after.locks == next.locks
            &&& match response_of(next, pid) {
                None => {
                    &&& after.sent == machine.sent
                    &&& after.queue.len() == machine.queue.len()
                    &&& after.queue.drop_last() == machine.queue.skip(1)
                    &&& asks_for_next(after.queue.last(), next, pid, chan)
                },
                Some(response) => {
                    &&& after.sent == machine.sent.push((chan, response))
                    &&& after.queue == machine.queue.skip(1)
                },
            }
        }),
{
    let after = runs::tick(machine, answer_to(world, pid));
    if response_of(store::tick(world, pid), pid) is None {
        assert(after.queue.drop_last() =~= machine.queue.skip(1));
    }
}

/// Whether a VM that runs one program has come as far as the program with the store.
pub open spec fn agrees<C>(machine: Machine<C>, world: World, pid: EnvId, chan: C) -> bool {
    &&& machine.running
    &&& machine.locks == world.locks
    &&& match response_of(world, pid) {
        None => {
            &&& machine.sent == Seq::<(C, Response)>::empty()
            &&& machine.queue.len() == 1
            &&& asks_for_next(machine.queue[0], world, pid, chan)
        },
        Some(response) => {
            &&& machine.sent == seq![(chan, response)]
            &&& machine.queue.len() == 0
        },
    }
}

/// What happens to a VM that runs one program with a store: the program is scheduled, and then
/// so many instructions are executed.
pub open spec fn events_of<C>(
    program: Seq<u8>,
    committed: Entries,
    pid: EnvId,
    chan: C,
    ticks: nat,
) -> Seq<Event<C>> {
    let world = fresh(program, Seq::empty(), committed);
    seq![
        Event::Arrives(Message::Schedule { pid, program, chan }),
        Event::Tick(Ok(None)),
    ] + Seq::new(
        ticks,
        |i: int| Event::Tick(answer_to(store::run(world, pid, i as nat), pid)),
    )
}

/// A VM that runs one program with a store comes as far as the program does, and sends the
/// response for its end, and nothing else.
pub proof fn law_run_agrees<C>(
    program: Seq<u8>,
    committed: Entries,
    pid: EnvId,
    chan: C,
    ticks: nat,
)
    ensures
        agrees(
            runs::run(events_of(program, committed, pid, chan, ticks)),
            store::run(fresh(program, Seq::empty(), committed), pid, ticks),
            pid,
            chan,
        ),
    decreases ticks,
{
    let events = events_of(program, committed, pid, chan, ticks);
    let start = fresh(program, Seq::empty(), committed);
    if ticks == 0 {
        let none = Seq::<Event<C>>::empty();
        assert(events.drop_last().drop_last() =~= none);
        assert(events.drop_last().last() == events[0]);
        assert(runs::run(none).queue =~= Seq::<Message<C>>::empty());
        reveal_with_fuel(runs::run, 3);
    } else {
        let before = (ticks - 1) as nat;
        let world = store::run(start, pid, before);
        let earlier = events_of(program, committed, pid, chan, before);
        law_run_agrees(program, committed, pid, chan, before);
        assert(events.drop_last() =~= earlier);
        lemma_run_one_more(start, pid, before);
        let machine = runs::run(earlier);
        assert(events.last() == Event::<C>::Tick(answer_to(world, pid)));
        if response_of(world, pid) is None {
            law_tick_agrees(machine, world, pid, chan);
            let after = runs::run(events);
            if response_of(store::tick(world, pid), pid) is Some {
                assert(after.sent =~= seq![
                    (chan, response_of(store::tick(world, pid), pid)->Some_0),
                ]);
            }
        }
    }
}

/// A program that records and commits a value and then retrieves it is answered with the value.
pub proof fn law_committed_value_is_answered<C>(
    key: Seq<u8>,
    value: Seq<u8>,
    committed: Entries,
    pid: EnvId,
    chan: C,
)
    requires
        record(key, value).len() + COMMIT@.len() < MAX_SIZE,
        retrieve(key).len() < MAX_SIZE,
        !committed.contains_key(encode(key)),
    ensures
        ({
            let program = in_write(record(key, value) + COMMIT@) + in_read(retrieve(key));
            runs::run(events_of(program, committed, pid, chan, 12)).sent == seq![
                (chan, Response::Terminated { pid, stack: seq![encode(value)], size: 1 }),
            ]
        }),
{
    let program = in_write(record(key, value) + COMMIT@) + in_read(retrieve(key));
    law_committed_value_is_read_back(key, value, Seq::empty(), committed, pid);
    law_run_agrees(program, committed, pid, chan, 12);
    assert(Seq::empty().push(encode(value)) =~= seq![encode(value)]);
}

/// A program that records a value, does not commit it and then retrieves it is answered that
/// there is none.
pub proof fn law_uncommitted_value_is_not_answered<C>(
    key: Seq<u8>,
    value: Seq<u8>,
    committed: Entries,
    pid: EnvId,
    chan: C,
)
    requires
        record(key, value).len() < MAX_SIZE,
        retrieve(key).len() < MAX_SIZE,
        !committed.contains_key(encode(key)),
    ensures
        ({
            let program = in_write(record(key, value)) + in_read(retrieve(key));
            runs::run(events_of(program, committed, pid, chan, 10)).sent == seq![
                (
                    chan,
                    Response::Failed {
                        pid,
                        error: Error::UnknownKey,
                        stack: Seq::empty(),
                        size: 0,
                    },
                ),
            ]
        }),
{
    let program = in_write(record(key, value)) + in_read(retrieve(key));
    law_uncommitted_value_is_lost(key, value, Seq::empty(), committed, pid);
    law_run_agrees(program, committed, pid, chan, 10);
}

/// A program that records two values under one key is answered that it cannot.
pub proof fn law_second_value_is_refused<C>(
    key: Seq<u8>,
    value: Seq<u8>,
    other: Seq<u8>,
    rest: Seq<u8>,
    committed: Entries,
    pid: EnvId,
    chan: C,
)
    requires
        (record(key, value) + record(key, other) + rest).len() < MAX_SIZE,
        !committed.contains_key(encode(key)),
    ensures
        ({
            let program = in_write(record(key, value) + record(key, other) + rest);
            runs::run(events_of(program, committed, pid, chan, 8)).sent == seq![
                (
                    chan,
                    Response::Failed {
                        pid,
                        error: Error::DuplicateKey,
                        stack: Seq::empty(),
                        size: 0,
                    },
                ),
            ]
        }),
{
    let program = in_write(record(key, value) + record(key, other) + rest);
    law_key_is_not_overwritten(key, value, other, rest, Seq::empty(), committed, pid);
    law_run_agrees(program, committed, pid, chan, 8);
}

/// The program that pushes values, one after the other.
pub open spec fn pushes(values: Seq<Seq<u8>>) -> Seq<u8>
    decreases values.len(),
{
    if values.len() == 0 {
        Seq::empty()
    } else {
        encode(values[0]) + pushes(values.skip(1))
    }
}

/// The instructions that push values.
pub open spec fn encoded(values: Seq<Seq<u8>>) -> Stack {
    Seq::new(values.len(), |i: int| encode(values[i]))
}

proof fn lemma_pushes(world: World, values: Seq<Seq<u8>>, pid: EnvId)
    requires
        values.len() > 0,
        world.progress == Progress::Running(pushes(values)),
        forall|i: int| 0 <= i < values.len() ==> (#[trigger] values[i]).len() < MAX_SIZE,
    ensures
        store::run(world, pid, values.len()) == (World {
            progress: Progress::Terminated,
            stack: world.stack + encoded(values),
            ..world
        }),
    decreases values.len(),
{
    let value = values[0];
    let later = values.skip(1);
    law_value_is_pushed(value, pushes(later), world.stack, world.locks, pid);
    let next = store::tick(world, pid);
    assert(next.stack == world.stack.push(encode(value)));
    reveal_with_fuel(store::run, 2);
    if later.len() > 0 {
        assert(pushes(later).len() > 0) by {
            law_size_field_len(later[0].len());
        }
        assert forall|i: int| 0 <= i < later.len() implies (#[trigger] later[i]).len()
            < MAX_SIZE by {
            assert(later[i] == values[i + 1]);
        }
        lemma_pushes(next, later, pid);
    }
    assert(world.stack.push(encode(value)) + encoded(later) =~= world.stack + encoded(values));
}

/// A program that pushes values is answered with all of them, the one that was pushed last on
/// top.
pub proof fn law_values_are_answered<C>(
    values: Seq<Seq<u8>>,
    committed: Entries,
    pid: EnvId,
    chan: C,
)
    requires
        values.len() > 0,
        forall|i: int| 0 <= i < values.len() ==> (#[trigger] values[i]).len() < MAX_SIZE,
    ensures
        runs::run(events_of(pushes(values), committed, pid, chan, values.len())).sent == seq![
            (
                chan,
                Response::Terminated { pid, stack: encoded(values), size: values.len() },
            ),
        ],
{
    let start = fresh(pushes(values), Seq::empty(), committed);
    lemma_pushes(start, values, pid);
    law_run_agrees(pushes(values), committed, pid, chan, values.len());
    assert(Seq::empty() + encoded(values) =~= encoded(values));
}

} // verus!
