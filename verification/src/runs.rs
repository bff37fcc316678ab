//! What the scheduler does, on mathematical values: with one message, and with all the
//! messages of a run.

use crate::env::{Usage, STACK_SIZE};
use crate::error::Error;
use crate::ids::EnvId;
use crate::model::{
    pass_outcome, pass_usage, resume_outcome, resume_usage, Locks, Outcome, Stack,
};
use crate::storage::{Answer, Asked};
use vstd::prelude::*;

verus! {

/// A message to the VM.
pub enum Message<C> {
    /// A program is to be scheduled.
    Schedule { pid: EnvId, program: Seq<u8>, chan: C },
    /// The first instruction of a program is to be executed.
    Reschedule { pid: EnvId, program: Seq<u8>, stack: Stack, usage: Usage, chan: C },
    /// The VM is to stop.
    Shutdown,
}

/// A message from the VM.
pub enum Response {
    /// A program has terminated.
    Terminated { pid: EnvId, stack: Stack, size: nat },
    /// A program has ended with an error.
    Failed { pid: EnvId, error: Error, stack: Stack, size: nat },
}

impl Response {
    /// Whom the response is about.
    pub open spec fn id(self) -> EnvId {
        match self {
            Response::Terminated { pid, .. } => pid,
            Response::Failed { pid, .. } => pid,
        }
    }
}

/// An environment that waits for the store.
pub struct Pending<C> {
    /// The environment's id.
    pub pid: EnvId,
    /// The values on its stack.
    pub stack: Stack,
    /// What it takes up.
    pub usage: Usage,
    /// What is asked of the store.
    pub request: Asked,
    /// The program to go on with.
    pub program: Seq<u8>,
    /// Where the response goes.
    pub chan: C,
}

/// What is to be done after a message.
pub enum Action<C> {
    /// Stop.
    Stop,
    /// Put a message behind those that wait to be received.
    Loopback(Message<C>),
    /// Send a response.
    Respond(C, Response),
    /// Ask the store.
    Ask(Pending<C>),
}

/// What is to be done when an environment, which takes up so much, has come to an outcome.
pub open spec fn action_of<C>(outcome: Outcome, usage: Usage, pid: EnvId, chan: C) -> Action<C> {
    match outcome {
        Outcome::Done { stack, program: Some(program) } => Action::Loopback(
            Message::Reschedule { pid, program, stack, usage, chan },
        ),
        Outcome::Done { stack, program: None } => Action::Respond(
            chan,
            Response::Terminated { pid, stack, size: stack.len() },
        ),
        Outcome::Failed { stack, error } => Action::Respond(
            chan,
            Response::Failed { pid, error, stack, size: stack.len() },
        ),
        Outcome::Waiting { stack, request, program } => Action::Ask(
            Pending { pid, stack, usage, request, program, chan },
        ),
    }
}

/// A message is received: a program that is to be scheduled gets an environment with an empty
/// stack, and of a program that is to be executed one instruction is.
pub open spec fn received<C>(message: Message<C>, locks: Locks) -> (Locks, Action<C>) {
    match message {
        Message::Shutdown => (locks, Action::Stop),
        Message::Schedule { pid, program, chan } => (
            locks,
            Action::Loopback(
                Message::Reschedule {
                    pid,
                    program,
                    stack: Seq::empty(),
                    usage: Usage::initial(STACK_SIZE as nat),
                    chan,
                },
            ),
        ),
        Message::Reschedule { pid, program, stack, usage, chan } => {
            let (after, outcome) = pass_outcome(program, stack, locks, pid);
            (after, action_of(outcome, pass_usage(program, stack, usage), pid, chan))
        },
    }
}

/// The store has answered.
pub open spec fn settled<C>(pending: Pending<C>, locks: Locks, answer: Answer) -> (
    Locks,
    Action<C>,
) {
    let (after, outcome) = resume_outcome(
        pending.request,
        pending.program,
        pending.stack,
        locks,
        pending.pid,
        answer,
    );
    let usage = resume_usage(pending.request, pending.stack, answer, pending.usage);
    (after, action_of(outcome, usage, pending.pid, pending.chan))
}

/// A message is received and, if the store is asked, the store answers so.
pub open spec fn handled<C>(message: Message<C>, locks: Locks, answer: Answer) -> (
    Locks,
    Action<C>,
) {
    let (after, action) = received(message, locks);
    match action {
        Action::Ask(pending) => settled(pending, after, answer),
        _ => (after, action),
    }
}

/// What becomes of a program when its first instruction is executed and, if the store is
/// asked, the store answers so.
pub open spec fn executed(
    program: Seq<u8>,
    stack: Stack,
    locks: Locks,
    pid: EnvId,
    answer: Answer,
) -> Outcome {
    let (after, outcome) = pass_outcome(program, stack, locks, pid);
    match outcome {
        Outcome::Waiting { stack, request, program } => resume_outcome(
            request,
            program,
            stack,
            after,
            pid,
            answer,
        ).1,
        _ => outcome,
    }
}

/// An instruction that was executed.
pub struct Step<C> {
    /// The environment's id.
    pub pid: EnvId,
    /// Where its response goes.
    pub chan: C,
    /// The program that the instruction is the first of.
    pub program: Seq<u8>,
    /// The stack before it was executed.
    pub stack: Stack,
    /// What became of the program.
    pub outcome: Outcome,
}

/// A VM with the messages that wait to be received, and with what it has done.
pub struct Machine<C> {
    /// The messages that wait to be received, in the order in which they were sent.
    pub queue: Seq<Message<C>>,
    /// Who holds the transactions.
    pub locks: Locks,
    /// Whether the VM has not been stopped.
    pub running: bool,
    /// The instructions that were executed.
    pub steps: Seq<Step<C>>,
    /// The responses that were sent, and where to.
    pub sent: Seq<(C, Response)>,
}

/// What can happen to a VM.
pub enum Event<C> {
    /// Somebody sends it a message.
    Arrives(Message<C>),
    /// It receives a message. If the store is asked, the store answers so.
    Tick(Answer),
}

/// The VM receives the message that has waited longest. With no message it waits.
pub open spec fn tick<C>(machine: Machine<C>, answer: Answer) -> Machine<C> {
    if !machine.running || machine.queue.len() == 0 {
        machine
    } else {
        let message = machine.queue[0];
        let queue = machine.queue.skip(1);
        let (locks, action) = handled(message, machine.locks, answer);
        let steps = match message {
            Message::Reschedule { pid, program, stack, chan, .. } => machine.steps.push(
                Step {
                    pid,
                    chan,
                    program,
                    stack,
                    outcome: executed(program, stack, machine.locks, pid, answer),
                },
            ),
            _ => machine.steps,
        };
        match action {
            Action::Stop => Machine { queue, locks, running: false, steps, ..machine },
            Action::Loopback(next) => Machine { queue: queue.push(next), locks, steps, ..machine },
            Action::Respond(chan, response) => Machine {
                queue,
                locks,
                steps,
                sent: machine.sent.push((chan, response)),
                ..machine
            },
            Action::Ask(_) => Machine { queue, locks, steps, ..machine },
        }
    }
}

/// What an event does to a VM.
pub open spec fn happens<C>(machine: Machine<C>, event: Event<C>) -> Machine<C> {
    match event {
        Event::Arrives(message) => Machine { queue: machine.queue.push(message), ..machine },
        Event::Tick(answer) => tick(machine, answer),
    }
}

/// A new VM, after these events.
pub open spec fn run<C>(events: Seq<Event<C>>) -> Machine<C>
    decreases events.len(),
{
    if events.len() == 0 {
        Machine {
            queue: Seq::empty(),
            locks: Locks { write: None, read: None },
            running: true,
            steps: Seq::empty(),
            sent: Seq::empty(),
        }
    } else {
        happens(run(events.drop_last()), events.last())
    }
}

} // verus!
