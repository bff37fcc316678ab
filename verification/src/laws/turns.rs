//! Laws of scheduling: what holds of all the messages of a run, whatever is sent to the VM and
//! whatever the store answers.

use crate::ids::EnvId;
use crate::model::{Locks, Outcome, Stack};
use crate::runs::{
    executed, handled, happens, run, tick, Action, Event, Machine, Message, Response, Step,
};
use crate::storage::Answer;
use vstd::prelude::*;

verus! {

/// A choice of environments, by their ids and by where their responses go.
pub type Choice<C> = spec_fn(EnvId, C) -> bool;

/// The environment with an id.
pub open spec fn with_id<C>(id: EnvId) -> Choice<C> {
    |pid: EnvId, chan: C| pid == id
}

/// The environments whose responses go to a channel.
pub open spec fn on_channel<C>(to: C) -> Choice<C> {
    |pid: EnvId, chan: C| chan == to
}

/// Whether a message is about an environment of a choice.
pub open spec fn concerns<C>(message: Message<C>, choice: Choice<C>) -> bool {
    match message {
        Message::Schedule { pid, chan, .. } => choice(pid, chan),
        Message::Reschedule { pid, chan, .. } => choice(pid, chan),
        Message::Shutdown => false,
    }
}

/// Whether what happens is that somebody sends a message about an environment of a choice.
pub open spec fn brings<C>(event: Event<C>, choice: Choice<C>) -> bool {
    event matches Event::Arrives(message) && concerns(message, choice)
}

/// The instructions of the environments of a choice.
pub open spec fn steps_of<C>(steps: Seq<Step<C>>, choice: Choice<C>) -> Seq<Step<C>>
    decreases steps.len(),
{
    if steps.len() == 0 {
        Seq::empty()
    } else {
        let before = steps_of(steps.drop_last(), choice);
        if choice(steps.last().pid, steps.last().chan) {
            before.push(steps.last())
        } else {
            before
        }
    }
}

/// The responses about the environments of a choice, and where they were sent to.
pub open spec fn responses_to<C>(sent: Seq<(C, Response)>, choice: Choice<C>) -> Seq<
    (C, Response),
>
    decreases sent.len(),
{
    if sent.len() == 0 {
        Seq::empty()
    } else {
        let before = responses_to(sent.drop_last(), choice);
        if choice(sent.last().1.id(), sent.last().0) {
            before.push(sent.last())
        } else {
            before
        }
    }
}

/// The response that an environment owes for the outcome of an instruction, if it has come to
/// its end.
pub open spec fn response_for(outcome: Outcome, pid: EnvId) -> Option<Response> {
    match outcome {
        Outcome::Done { stack, program: None } => Some(
            Response::Terminated { pid, stack, size: stack.len() },
        ),
        Outcome::Failed { stack, error } => Some(
            Response::Failed { pid, error, stack, size: stack.len() },
        ),
        _ => None,
    }
}

/// Whether the last of some instructions was the end of a program.
pub open spec fn ended<C>(steps: Seq<Step<C>>) -> bool {
    steps.len() > 0 && response_for(steps.last().outcome, steps.last().pid) is Some
}

/// The responses that an environment is owed for its instructions.
pub open spec fn owed<C>(steps: Seq<Step<C>>, pid: EnvId, chan: C) -> Seq<(C, Response)> {
    if ended(steps) {
        seq![(chan, response_for(steps.last().outcome, pid)->Some_0)]
    } else {
        Seq::empty()
    }
}

/// Whether an instruction leaves this to be run, with this stack.
pub open spec fn leads_to(outcome: Outcome, program: Seq<u8>, stack: Stack) -> bool {
    outcome == (Outcome::Done { stack, program: Some(program) })
}

/// Whether these are the instructions of one environment, from the start of its program, one
/// after the other: the first finds an empty stack, and each of the others what the one before
/// it has left.
pub open spec fn is_history<C>(
    steps: Seq<Step<C>>,
    pid: EnvId,
    program: Seq<u8>,
    chan: C,
) -> bool {
    &&& forall|i: int|
        #![trigger steps[i]]
        0 <= i < steps.len() ==> steps[i].pid == pid && steps[i].chan == chan
    &&& steps.len() > 0 ==> steps[0].program == program && steps[0].stack == Seq::<
        Seq<u8>,
    >::empty()
    &&& forall|i: int, j: int|
        #![trigger steps[i], steps[j]]
        0 <= i && j == i + 1 && j < steps.len() ==> leads_to(
            steps[i].outcome,
            steps[j].program,
            steps[j].stack,
        )
}

/// Whether a message is the next one of an environment with these instructions.
spec fn is_next<C>(
    message: Message<C>,
    steps: Seq<Step<C>>,
    id: EnvId,
    code: Seq<u8>,
    to: C,
) -> bool {
    match message {
        Message::Schedule { pid, program, chan } => {
            &&& steps.len() == 0
            &&& pid == id
            &&& program == code
            &&& chan == to
        },
        Message::Reschedule { pid, program, stack, chan, .. } => {
            &&& pid == id
            &&& chan == to
            &&& if steps.len() == 0 {
                program == code && stack == Seq::<Seq<u8>>::empty()
            } else {
                leads_to(steps.last().outcome, program, stack)
            }
        },
        Message::Shutdown => false,
    }
}

/// Whether the one message about the environments of a choice stands at a place in the queue.
spec fn stands_at<C>(queue: Seq<Message<C>>, choice: Choice<C>, place: int) -> bool {
    &&& 0 <= place < queue.len()
    &&& concerns(queue[place], choice)
    &&& forall|i: int|
        0 <= i < queue.len() && i != place ==> !concerns(#[trigger] queue[i], choice)
}

/// Whether nothing in a queue is about the environments of a choice.
spec fn absent<C>(queue: Seq<Message<C>>, choice: Choice<C>) -> bool {
    forall|i: int| 0 <= i < queue.len() ==> !concerns(#[trigger] queue[i], choice)
}

/// Whether a VM has not heard of the environments of a choice.
spec fn unheard_of<C>(machine: Machine<C>, choice: Choice<C>) -> bool {
    &&& absent(machine.queue, choice)
    &&& steps_of(machine.steps, choice) == Seq::<Step<C>>::empty()
    &&& responses_to(machine.sent, choice) == Seq::<(C, Response)>::empty()
}

/// Whether a VM has dealt with an environment as it should, so far.
spec fn dealt_with<C>(
    machine: Machine<C>,
    choice: Choice<C>,
    pid: EnvId,
    program: Seq<u8>,
    chan: C,
) -> bool {
    let steps = steps_of(machine.steps, choice);
    &&& is_history(steps, pid, program, chan)
    &&& responses_to(machine.sent, choice) == owed(steps, pid, chan)
    &&& ended(steps) ==> absent(machine.queue, choice)
    &&& !ended(steps) ==> exists|place: int| #[trigger]
        stands_at(machine.queue, choice, place) && is_next(
            machine.queue[place],
            steps,
            pid,
            program,
            chan,
        )
}

proof fn lemma_steps_push<C>(steps: Seq<Step<C>>, step: Step<C>, choice: Choice<C>)
    ensures
        steps_of(steps.push(step), choice) == if choice(step.pid, step.chan) {
            steps_of(steps, choice).push(step)
        } else {
            steps_of(steps, choice)
        },
{
    assert(steps.push(step).drop_last() =~= steps);
}

proof fn lemma_sent_push<C>(sent: Seq<(C, Response)>, to: C, response: Response, choice: Choice<C>)
    ensures
        responses_to(sent.push((to, response)), choice) == if choice(response.id(), to) {
            responses_to(sent, choice).push((to, response))
        } else {
            responses_to(sent, choice)
        },
{
    assert(sent.push((to, response)).drop_last() =~= sent);
}

/// What is done with a message.
proof fn lemma_handled<C>(message: Message<C>, locks: Locks, answer: Answer)
    ensures
        match message {
            Message::Shutdown => handled(message, locks, answer).1 == Action::<C>::Stop,
            Message::Schedule { pid, program, chan } => handled(message, locks, answer).1 matches
                Action::Loopback(next) && is_next(next, Seq::empty(), pid, program, chan) && next
                is Reschedule,
            Message::Reschedule { pid, program, stack, chan, .. } => {
                let outcome = executed(program, stack, locks, pid, answer);
                match response_for(outcome, pid) {
                    Some(response) => handled(message, locks, answer).1 == Action::Respond(
                        chan,
                        response,
                    ),
                    None => handled(message, locks, answer).1 matches Action::Loopback(next)
                        && next matches Message::Reschedule {
                        pid: id,
                        program: left,
                        stack: values,
                        chan: to,
                        ..
                    } && id == pid && to == chan && leads_to(outcome, left, values),
                }
            },
        },
{
}

/// What a VM does with a message is about the environment that the message is about.
proof fn lemma_others<C>(machine: Machine<C>, answer: Answer, choice: Choice<C>)
    requires
        machine.running,
        machine.queue.len() > 0,
        !concerns(machine.queue[0], choice),
    ensures
        ({
            let after = tick(machine, answer);
            &&& steps_of(after.steps, choice) == steps_of(machine.steps, choice)
            &&& responses_to(after.sent, choice) == responses_to(machine.sent, choice)
            &&& absent(machine.queue, choice) ==> absent(after.queue, choice)
            &&& forall|place: int| #[trigger]
                stands_at(machine.queue, choice, place) ==> stands_at(
                    after.queue,
                    choice,
                    place - 1,
                ) && after.queue[place - 1] == machine.queue[place]
        }),
{
    let message = machine.queue[0];
    lemma_handled(message, machine.locks, answer);
    let after = tick(machine, answer);
    match message {
        Message::Reschedule { pid, program, stack, chan, .. } => {
            let outcome = executed(program, stack, machine.locks, pid, answer);
            lemma_steps_push(machine.steps, Step { pid, chan, program, stack, outcome }, choice);
            if let Some(response) = response_for(outcome, pid) {
                lemma_sent_push(machine.sent, chan, response, choice);
            }
        },
        _ => {},
    }
    assert forall|i: int| 0 <= i < machine.queue.len() - 1 implies after.queue[i]
        == machine.queue[i + 1] by {}
    assert forall|place: int| #[trigger] stands_at(machine.queue, choice, place) implies stands_at(
        after.queue,
        choice,
        place - 1,
    ) && after.queue[place - 1] == machine.queue[place] by {
        assert forall|i: int| 0 <= i < after.queue.len() && i != place - 1 implies !concerns(
            #[trigger] after.queue[i],
            choice,
        ) by {
            if i < machine.queue.len() - 1 {
                assert(!concerns(machine.queue[i + 1], choice));
            }
        }
    }
    if absent(machine.queue, choice) {
        assert forall|i: int| 0 <= i < after.queue.len() implies !concerns(
            #[trigger] after.queue[i],
            choice,
        ) by {
            if i < machine.queue.len() - 1 {
                assert(!concerns(machine.queue[i + 1], choice));
            }
        }
    }
}

/// An environment whose turn it is takes it, and goes to the end of the queue unless it ends.
proof fn lemma_own<C>(
    machine: Machine<C>,
    answer: Answer,
    choice: Choice<C>,
    pid: EnvId,
    program: Seq<u8>,
    chan: C,
)
    requires
        machine.running,
        stands_at(machine.queue, choice, 0),
        dealt_with(machine, choice, pid, program, chan),
        choice(pid, chan),
    ensures
        ({
            let after = tick(machine, answer);
            let steps = steps_of(after.steps, choice);
            &&& dealt_with(after, choice, pid, program, chan)
            &&& steps.len() == steps_of(machine.steps, choice).len() + if machine.queue[0]
                is Schedule {
                0int
            } else {
                1int
            }
            &&& !ended(steps) ==> after.sent == machine.sent && after.queue.len()
                == machine.queue.len() && stands_at(after.queue, choice, after.queue.len() - 1)
                && after.queue.last() is Reschedule
            &&& ended(steps) ==> after.sent.len() == machine.sent.len() + 1
                && after.sent.drop_last() == machine.sent && choice(
                after.sent.last().1.id(),
                after.sent.last().0,
            )
        }),
{
    let message = machine.queue[0];
    let before = steps_of(machine.steps, choice);
    lemma_handled(message, machine.locks, answer);
    let after = tick(machine, answer);
    let place = choose|place: int| #[trigger]
        stands_at(machine.queue, choice, place) && is_next(
            machine.queue[place],
            before,
            pid,
            program,
            chan,
        );
    assert(place == 0);
    assert forall|i: int| 0 <= i < machine.queue.len() - 1 implies after.queue[i]
        == machine.queue[i + 1] && !concerns(#[trigger] after.queue[i], choice) by {}
    match message {
        Message::Reschedule { program: code, stack, .. } => {
            let outcome = executed(code, stack, machine.locks, pid, answer);
            let step = Step { pid, chan, program: code, stack, outcome };
            lemma_steps_push(machine.steps, step, choice);
            let steps = before.push(step);
            assert(steps_of(after.steps, choice) == steps);
            assert(steps.last() == step);
            assert forall|i: int, j: int|
                #![trigger steps[i], steps[j]]
                0 <= i && j == i + 1 && j < steps.len() implies leads_to(
                steps[i].outcome,
                steps[j].program,
                steps[j].stack,
            ) by {
                if j < before.len() {
                    assert(steps[i] == before[i] && steps[j] == before[j]);
                } else {
                    assert(steps[i] == before.last());
                }
            }
            assert(is_history(steps, pid, program, chan));
            if let Some(response) = response_for(outcome, pid) {
                lemma_sent_push(machine.sent, chan, response, choice);
                assert(responses_to(after.sent, choice) =~= owed(steps, pid, chan));
                assert(after.sent.drop_last() =~= machine.sent);
            } else {
                assert(stands_at(after.queue, choice, after.queue.len() - 1));
            }
        },
        _ => {
            assert(stands_at(after.queue, choice, after.queue.len() - 1));
        },
    }
}

/// A message that arrives takes its place behind the others.
proof fn lemma_arrives<C>(queue: Seq<Message<C>>, message: Message<C>, choice: Choice<C>)
    ensures
        !concerns(message, choice) && absent(queue, choice) ==> absent(
            queue.push(message),
            choice,
        ),
        concerns(message, choice) && absent(queue, choice) ==> stands_at(
            queue.push(message),
            choice,
            queue.len() as int,
        ),
        !concerns(message, choice) ==> forall|place: int| #[trigger]
            stands_at(queue, choice, place) ==> stands_at(queue.push(message), choice, place)
                && queue.push(message)[place] == queue[place],
{
    let longer = queue.push(message);
    assert forall|i: int| 0 <= i < queue.len() implies longer[i] == queue[i] by {}
}

/// Of environments that nothing was sent about, the VM has not heard.
proof fn lemma_unheard_of<C>(events: Seq<Event<C>>, choice: Choice<C>)
    requires
        forall|i: int| 0 <= i < events.len() ==> !brings(#[trigger] events[i], choice),
    ensures
        unheard_of(run(events), choice),
    decreases events.len(),
{
    if events.len() > 0 {
        let before = run(events.drop_last());
        lemma_unheard_of(events.drop_last(), choice);
        assert(!brings(events[events.len() - 1], choice));
        match events.last() {
            Event::Arrives(message) => lemma_arrives(before.queue, message, choice),
            Event::Tick(answer) => if before.running && before.queue.len() > 0 {
                lemma_others(before, answer, choice);
            },
        }
    }
}

/// An environment that is dealt with as it should be still is after a further event.
proof fn lemma_dealt_with_next<C>(
    machine: Machine<C>,
    event: Event<C>,
    choice: Choice<C>,
    pid: EnvId,
    program: Seq<u8>,
    chan: C,
)
    requires
        dealt_with(machine, choice, pid, program, chan),
        choice(pid, chan),
        !brings(event, choice),
    ensures
        dealt_with(happens(machine, event), choice, pid, program, chan),
{
    let steps = steps_of(machine.steps, choice);
    let after = happens(machine, event);
    match event {
        Event::Arrives(message) => {
            lemma_arrives(machine.queue, message, choice);
            if !ended(steps) {
                let place = choose|place: int| #[trigger]
                    stands_at(machine.queue, choice, place) && is_next(
                        machine.queue[place],
                        steps,
                        pid,
                        program,
                        chan,
                    );
                assert(stands_at(after.queue, choice, place));
            }
        },
        Event::Tick(answer) => if machine.running && machine.queue.len() > 0 {
            if concerns(machine.queue[0], choice) {
                assert(!absent(machine.queue, choice));
                assert(stands_at(machine.queue, choice, 0));
                lemma_own(machine, answer, choice, pid, program, chan);
            } else {
                lemma_others(machine, answer, choice);
                if !ended(steps) {
                    let place = choose|place: int| #[trigger]
                        stands_at(machine.queue, choice, place) && is_next(
                            machine.queue[place],
                            steps,
                            pid,
                            program,
                            chan,
                        );
                    assert(stands_at(after.queue, choice, place - 1));
                }
            }
        },
    }
}

/// An environment that is scheduled is dealt with as it should be.
proof fn lemma_dealt_with<C>(
    events: Seq<Event<C>>,
    at: int,
    choice: Choice<C>,
    pid: EnvId,
    program: Seq<u8>,
    chan: C,
)
    requires
        choice(pid, chan),
        0 <= at < events.len(),
        events[at] == Event::Arrives(Message::Schedule { pid, program, chan }),
        forall|i: int| 0 <= i < events.len() && i != at ==> !brings(#[trigger] events[i], choice),
    ensures
        dealt_with(run(events), choice, pid, program, chan),
    decreases events.len(),
{
    let earlier = events.drop_last();
    let before = run(earlier);
    if at == events.len() - 1 {
        lemma_unheard_of(earlier, choice);
        let message = Message::Schedule { pid, program, chan };
        lemma_arrives(before.queue, message, choice);
        assert(run(events) == happens(before, events[at]));
        assert(stands_at(run(events).queue, choice, before.queue.len() as int));
    } else {
        assert(earlier[at] == events[at]);
        lemma_dealt_with(earlier, at, choice, pid, program, chan);
        assert(!brings(events[events.len() - 1], choice));
        lemma_dealt_with_next(before, events.last(), choice, pid, program, chan);
    }
}

/// Over a whole run, a program that is scheduled with a channel of its own is executed from
/// its start, with an empty stack, one instruction after the other, and exactly one message is
/// sent on its channel once its execution has ended, and none before. The message has its id.
/// It tells of termination if and only if every instruction was executed and the last left
/// nothing to be run, and of failure if and only if an instruction ended the program with the
/// error that the message has; no instruction is executed after that.
pub proof fn law_one_response<C>(
    events: Seq<Event<C>>,
    at: int,
    pid: EnvId,
    program: Seq<u8>,
    chan: C,
)
    requires
        0 <= at < events.len(),
        events[at] == Event::Arrives(Message::Schedule { pid, program, chan }),
        forall|i: int|
            0 <= i < events.len() && i != at ==> !brings(#[trigger] events[i], on_channel(chan)),
    ensures
        ({
            let steps = steps_of(run(events).steps, on_channel(chan));
            &&& is_history(steps, pid, program, chan)
            &&& responses_to(run(events).sent, on_channel(chan)) == owed(steps, pid, chan)
        }),
{
    lemma_dealt_with(events, at, on_channel(chan), pid, program, chan);
}

/// The same of a program that is scheduled under an id of its own, wherever other programs'
/// responses go: exactly one message about it is sent, and it is sent on its channel.
pub proof fn law_one_response_per_id<C>(
    events: Seq<Event<C>>,
    at: int,
    pid: EnvId,
    program: Seq<u8>,
    chan: C,
)
    requires
        0 <= at < events.len(),
        events[at] == Event::Arrives(Message::Schedule { pid, program, chan }),
        forall|i: int|
            0 <= i < events.len() && i != at ==> !brings(#[trigger] events[i], with_id(pid)),
    ensures
        ({
            let steps = steps_of(run(events).steps, with_id(pid));
            &&& is_history(steps, pid, program, chan)
            &&& responses_to(run(events).sent, with_id(pid)) == owed(steps, pid, chan)
        }),
{
    lemma_dealt_with(events, at, with_id(pid), pid, program, chan);
}

/// A VM executes at most one instruction when it receives a message, and takes the messages in
/// the order in which they were sent: what stands behind the one that it receives moves up by
/// one place.
pub proof fn law_first_come_first_served<C>(machine: Machine<C>, answer: Answer)
    requires
        machine.running,
        machine.queue.len() > 0,
    ensures
        ({
            let after = tick(machine, answer);
            &&& after.steps.len() == machine.steps.len() + if machine.queue[0] is Reschedule {
                1int
            } else {
                0int
            }
            &&& after.sent.len() <= machine.sent.len() + 1
            &&& after.queue.len() >= machine.queue.len() - 1
            &&& after.queue.take(machine.queue.len() - 1) == machine.queue.skip(1)
        }),
{
    lemma_handled(machine.queue[0], machine.locks, answer);
    assert(tick(machine, answer).queue.take(machine.queue.len() - 1) =~= machine.queue.skip(1));
}

/// A VM that receives a request for shutdown stops: it executes nothing, sends nothing and
/// leaves the transactions to whoever holds them.
pub proof fn law_shutdown_stops<C>(machine: Machine<C>, answer: Answer)
    requires
        machine.running,
        machine.queue.len() > 0,
        machine.queue[0] is Shutdown,
    ensures
        tick(machine, answer) == (Machine {
            queue: machine.queue.skip(1),
            running: false,
            ..machine
        }),
{
}

/// A VM that was stopped receives nothing.
pub proof fn law_stopped_receives_nothing<C>(machine: Machine<C>, answer: Answer)
    requires
        !machine.running,
    ensures
        tick(machine, answer) == machine,
{
}

/// A VM that was stopped stays so: whatever happens, it executes nothing and sends nothing any
/// more.
pub proof fn law_stopped_for_good<C>(events: Seq<Event<C>>, later: Seq<Event<C>>)
    requires
        !run(events).running,
    ensures
        !run(events + later).running,
        run(events + later).steps == run(events).steps,
        run(events + later).sent == run(events).sent,
        run(events + later).locks == run(events).locks,
    decreases later.len(),
{
    if later.len() == 0 {
        assert(events + later =~= events);
    } else {
        law_stopped_for_good(events, later.drop_last());
        assert((events + later).drop_last() =~= events + later.drop_last());
    }
}

/// A VM stops for no other reason than that it receives a request for shutdown.
pub proof fn law_only_shutdown_stops<C>(machine: Machine<C>, answer: Answer)
    requires
        machine.running,
        !tick(machine, answer).running,
    ensures
        machine.queue.len() > 0,
        machine.queue[0] is Shutdown,
{
    if machine.queue.len() > 0 {
        lemma_handled(machine.queue[0], machine.locks, answer);
    }
}

/// Whether a response about one environment was sent before one about another.
pub open spec fn answered_before<C>(sent: Seq<(C, Response)>, first: EnvId, second: EnvId) -> bool {
    exists|i: int, j: int|
        0 <= i < j < sent.len() && (#[trigger] sent[i]).1.id() == first && (
        #[trigger] sent[j]).1.id() == second
}

/// Where the one message about the environments of a choice stands in a queue.
spec fn place_of<C>(queue: Seq<Message<C>>, choice: Choice<C>) -> int {
    choose|place: int| #[trigger] stands_at(queue, choice, place)
}

proof fn lemma_place<C>(queue: Seq<Message<C>>, choice: Choice<C>, place: int)
    requires
        stands_at(queue, choice, place),
    ensures
        stands_at(queue, choice, place_of(queue, choice)),
        place_of(queue, choice) == place,
{
    assert(stands_at(queue, choice, place_of(queue, choice)));
    assert(concerns(queue[place], choice));
}

/// How often it was the turn of an environment that has not ended: once to be scheduled, and
/// once for each instruction.
spec fn turns_of<C>(machine: Machine<C>, choice: Choice<C>) -> nat {
    if machine.queue[place_of(machine.queue, choice)] is Schedule {
        0
    } else {
        steps_of(machine.steps, choice).len() + 1
    }
}

/// Whether two environments have taken turns so far.
spec fn in_turn<C>(machine: Machine<C>, a: EnvId, b: EnvId) -> bool {
    let steps_a = steps_of(machine.steps, with_id(a));
    let steps_b = steps_of(machine.steps, with_id(b));
    let turns_a = turns_of(machine, with_id(a));
    let turns_b = turns_of(machine, with_id(b));
    if !ended(steps_a) && !ended(steps_b) {
        turns_a == turns_b + if place_of(machine.queue, with_id(a)) < place_of(
            machine.queue,
            with_id(b),
        ) {
            0int
        } else {
            1int
        }
    } else if !ended(steps_b) {
        steps_a.len() <= turns_b
    } else if !ended(steps_a) {
        steps_b.len() < turns_a
    } else if steps_a.len() <= steps_b.len() {
        answered_before(machine.sent, a, b)
    } else {
        answered_before(machine.sent, b, a)
    }
}

proof fn lemma_was_sent<C>(sent: Seq<(C, Response)>, id: EnvId) -> (i: int)
    requires
        responses_to(sent, with_id::<C>(id)).len() > 0,
    ensures
        0 <= i < sent.len(),
        sent[i].1.id() == id,
    decreases sent.len(),
{
    if sent.last().1.id() == id {
        sent.len() - 1
    } else {
        lemma_was_sent(sent.drop_last(), id)
    }
}

proof fn lemma_is_among<C>(sent: Seq<(C, Response)>, id: EnvId, i: int)
    requires
        0 <= i < sent.len(),
        sent[i].1.id() == id,
    ensures
        responses_to(sent, with_id::<C>(id)).len() > 0,
    decreases sent.len(),
{
    if i < sent.len() - 1 {
        lemma_is_among(sent.drop_last(), id, i);
    }
}

proof fn lemma_sent_once<C>(sent: Seq<(C, Response)>, id: EnvId, i: int, j: int)
    requires
        responses_to(sent, with_id::<C>(id)).len() <= 1,
        0 <= i <= j < sent.len(),
        sent[i].1.id() == id,
        sent[j].1.id() == id,
    ensures
        i == j,
    decreases sent.len(),
{
    if j < sent.len() - 1 {
        lemma_sent_once(sent.drop_last(), id, i, j);
    } else if i < j {
        lemma_is_among(sent.drop_last(), id, i);
    }
}

proof fn lemma_in_turn_next<C>(
    machine: Machine<C>,
    event: Event<C>,
    a: EnvId,
    program_a: Seq<u8>,
    chan_a: C,
    b: EnvId,
    program_b: Seq<u8>,
    chan_b: C,
)
    requires
        a != b,
        dealt_with(machine, with_id(a), a, program_a, chan_a),
        dealt_with(machine, with_id(b), b, program_b, chan_b),
        in_turn(machine, a, b),
        !brings(event, with_id(a)),
        !brings(event, with_id(b)),
    ensures
        in_turn(happens(machine, event), a, b),
{
    let is_a = with_id::<C>(a);
    let is_b = with_id::<C>(b);
    let after = happens(machine, event);
    let ended_a = ended(steps_of(machine.steps, is_a));
    let ended_b = ended(steps_of(machine.steps, is_b));
    let place_a = place_of(machine.queue, is_a);
    let place_b = place_of(machine.queue, is_b);
    assert(!ended_a ==> stands_at(machine.queue, is_a, place_a));
    assert(!ended_b ==> stands_at(machine.queue, is_b, place_b));
    match event {
        Event::Arrives(message) => {
            lemma_arrives(machine.queue, message, is_a);
            lemma_arrives(machine.queue, message, is_b);
            if !ended_a {
                lemma_place(after.queue, is_a, place_a);
            }
            if !ended_b {
                lemma_place(after.queue, is_b, place_b);
            }
        },
        Event::Tick(answer) => if machine.running && machine.queue.len() > 0 {
            if concerns(machine.queue[0], is_a) {
                assert(!absent(machine.queue, is_a));
                assert(place_a == 0);
                lemma_own(machine, answer, is_a, a, program_a, chan_a);
                lemma_others(machine, answer, is_b);
                if !ended_b {
                    lemma_place(after.queue, is_b, place_b - 1);
                }
                if !ended(steps_of(after.steps, is_a)) {
                    lemma_place(after.queue, is_a, after.queue.len() - 1);
                } else if ended_b {
                    let i = lemma_was_sent(machine.sent, b);
                    assert(after.sent[i] == machine.sent[i]);
                    assert(after.sent[after.sent.len() - 1].1.id() == a);
                }
            } else if concerns(machine.queue[0], is_b) {
                assert(!absent(machine.queue, is_b));
                assert(place_b == 0);
                lemma_own(machine, answer, is_b, b, program_b, chan_b);
                lemma_others(machine, answer, is_a);
                if !ended_a {
                    lemma_place(after.queue, is_a, place_a - 1);
                }
                if !ended(steps_of(after.steps, is_b)) {
                    lemma_place(after.queue, is_b, after.queue.len() - 1);
                } else if ended_a {
                    let i = lemma_was_sent(machine.sent, a);
                    assert(after.sent[i] == machine.sent[i]);
                    assert(after.sent[after.sent.len() - 1].1.id() == b);
                }
            } else {
                lemma_others(machine, answer, is_a);
                lemma_others(machine, answer, is_b);
                if !ended_a {
                    lemma_place(after.queue, is_a, place_a - 1);
                }
                if !ended_b {
                    lemma_place(after.queue, is_b, place_b - 1);
                }
                if ended_a && ended_b {
                    lemma_sent_stays(machine, answer, a, b);
                    lemma_sent_stays(machine, answer, b, a);
                }
            }
        },
    }
}

proof fn lemma_sent_stays<C>(machine: Machine<C>, answer: Answer, first: EnvId, second: EnvId)
    ensures
        answered_before(machine.sent, first, second) ==> answered_before(
            tick(machine, answer).sent,
            first,
            second,
        ),
{
    let after = tick(machine, answer);
    if answered_before(machine.sent, first, second) {
        let (i, j) = choose|i: int, j: int|
            0 <= i < j < machine.sent.len() && (#[trigger] machine.sent[i]).1.id() == first && (
            #[trigger] machine.sent[j]).1.id() == second;
        assert(after.sent[i] == machine.sent[i] && after.sent[j] == machine.sent[j]);
    }
}

/// An environment waits to be scheduled until the VM receives a message.
proof fn lemma_not_begun<C>(
    events: Seq<Event<C>>,
    at: int,
    pid: EnvId,
    program: Seq<u8>,
    chan: C,
)
    requires
        0 <= at < events.len(),
        events[at] == Event::Arrives(Message::Schedule { pid, program, chan }),
        forall|i: int|
            0 <= i < events.len() && i != at ==> !brings(#[trigger] events[i], with_id(pid)),
        forall|i: int| at < i < events.len() ==> (#[trigger] events[i]) is Arrives,
    ensures
        steps_of(run(events).steps, with_id(pid)).len() == 0,
        stands_at(run(events).queue, with_id(pid), place_of(run(events).queue, with_id(pid))),
        run(events).queue[place_of(run(events).queue, with_id(pid))] is Schedule,
    decreases events.len(),
{
    let earlier = events.drop_last();
    let before = run(earlier);
    let last = events[events.len() - 1];
    if at == events.len() - 1 {
        lemma_unheard_of(earlier, with_id(pid));
        lemma_arrives(before.queue, Message::Schedule { pid, program, chan }, with_id(pid));
        lemma_place(run(events).queue, with_id(pid), before.queue.len() as int);
    } else {
        assert(earlier[at] == events[at]);
        lemma_not_begun(earlier, at, pid, program, chan);
        assert(last is Arrives && !brings(last, with_id(pid)));
        lemma_arrives(before.queue, last->Arrives_0, with_id(pid));
        lemma_place(run(events).queue, with_id(pid), place_of(before.queue, with_id(pid)));
    }
}

proof fn lemma_in_turn<C>(
    events: Seq<Event<C>>,
    at_a: int,
    a: EnvId,
    program_a: Seq<u8>,
    chan_a: C,
    at_b: int,
    b: EnvId,
    program_b: Seq<u8>,
    chan_b: C,
)
    requires
        a != b,
        0 <= at_a < at_b < events.len(),
        events[at_a] == Event::Arrives(
            Message::Schedule { pid: a, program: program_a, chan: chan_a },
        ),
        events[at_b] == Event::Arrives(
            Message::Schedule { pid: b, program: program_b, chan: chan_b },
        ),
        forall|i: int| at_a < i < at_b ==> (#[trigger] events[i]) is Arrives,
        forall|i: int|
            0 <= i < events.len() && i != at_a ==> !brings(#[trigger] events[i], with_id(a)),
        forall|i: int|
            0 <= i < events.len() && i != at_b ==> !brings(#[trigger] events[i], with_id(b)),
    ensures
        in_turn(run(events), a, b),
    decreases events.len(),
{
    let earlier = events.drop_last();
    let before = run(earlier);
    assert(earlier[at_a] == events[at_a]);
    if at_b == events.len() - 1 {
        let message = Message::Schedule { pid: b, program: program_b, chan: chan_b };
        let after = run(events);
        lemma_not_begun(earlier, at_a, a, program_a, chan_a);
        lemma_unheard_of(earlier, with_id(b));
        lemma_arrives(before.queue, message, with_id(a));
        lemma_arrives(before.queue, message, with_id(b));
        lemma_place(after.queue, with_id(a), place_of(before.queue, with_id(a)));
        lemma_place(after.queue, with_id(b), before.queue.len() as int);
    } else {
        assert(earlier[at_b] == events[at_b]);
        let last = events[events.len() - 1];
        lemma_in_turn(
            earlier,
            at_a,
            a,
            program_a,
            chan_a,
            at_b,
            b,
            program_b,
            chan_b,
        );
        lemma_dealt_with(earlier, at_a, with_id(a), a, program_a, chan_a);
        lemma_dealt_with(earlier, at_b, with_id(b), b, program_b, chan_b);
        assert(!brings(last, with_id(a)) && !brings(last, with_id(b)));
        lemma_in_turn_next(before, last, a, program_a, chan_a, b, program_b, chan_b);
    }
}

/// Environments take turns, one instruction each, in the order in which they were scheduled.
/// Of two that wait to be scheduled, the one that was sent first is never behind by an
/// instruction, nor ahead by more than one, as long as both go on; and once both have ended, it
/// was answered first if and only if it had no more instructions than the other. An instruction
/// that was put off because of a transaction counts.
pub proof fn law_environments_take_turns<C>(
    events: Seq<Event<C>>,
    at_a: int,
    a: EnvId,
    program_a: Seq<u8>,
    chan_a: C,
    at_b: int,
    b: EnvId,
    program_b: Seq<u8>,
    chan_b: C,
)
    requires
        a != b,
        0 <= at_a < at_b < events.len(),
        events[at_a] == Event::Arrives(
            Message::Schedule { pid: a, program: program_a, chan: chan_a },
        ),
        events[at_b] == Event::Arrives(
            Message::Schedule { pid: b, program: program_b, chan: chan_b },
        ),
        forall|i: int| at_a < i < at_b ==> (#[trigger] events[i]) is Arrives,
        forall|i: int|
            0 <= i < events.len() && i != at_a ==> !brings(#[trigger] events[i], with_id(a)),
        forall|i: int|
            0 <= i < events.len() && i != at_b ==> !brings(#[trigger] events[i], with_id(b)),
    ensures
        ({
            let steps_a = steps_of(run(events).steps, with_id(a));
            let steps_b = steps_of(run(events).steps, with_id(b));
            &&& !ended(steps_a) && !ended(steps_b) ==> steps_b.len() <= steps_a.len()
                <= steps_b.len() + 1
            &&& ended(steps_a) && !ended(steps_b) ==> steps_a.len() <= steps_b.len() + 1
            &&& !ended(steps_a) && ended(steps_b) ==> steps_b.len() <= steps_a.len()
            &&& ended(steps_a) && ended(steps_b) ==> (answered_before(run(events).sent, a, b)
                <==> steps_a.len() <= steps_b.len())
        }),
{
    lemma_in_turn(events, at_a, a, program_a, chan_a, at_b, b, program_b, chan_b);
    lemma_dealt_with(events, at_a, with_id(a), a, program_a, chan_a);
    lemma_dealt_with(events, at_b, with_id(b), b, program_b, chan_b);
    let machine = run(events);
    let sent = machine.sent;
    let steps_a = steps_of(machine.steps, with_id(a));
    let steps_b = steps_of(machine.steps, with_id(b));
    if !ended(steps_a) {
        assert(stands_at(machine.queue, with_id(a), place_of(machine.queue, with_id(a))));
    }
    if !ended(steps_b) {
        assert(stands_at(machine.queue, with_id(b), place_of(machine.queue, with_id(b))));
    }
    if ended(steps_a) && ended(steps_b) && answered_before(sent, a, b) && answered_before(
        sent,
        b,
        a,
    ) {
        let (i, j) = choose|i: int, j: int|
            0 <= i < j < sent.len() && (#[trigger] sent[i]).1.id() == a && (
            #[trigger] sent[j]).1.id() == b;
        let (k, l) = choose|k: int, l: int|
            0 <= k < l < sent.len() && (#[trigger] sent[k]).1.id() == b && (
            #[trigger] sent[l]).1.id() == a;
        if i <= l {
            lemma_sent_once(sent, a, i, l);
        } else {
            lemma_sent_once(sent, a, l, i);
        }
        if j <= k {
            lemma_sent_once(sent, b, j, k);
        } else {
            lemma_sent_once(sent, b, k, j);
        }
    }
}

} // verus!
