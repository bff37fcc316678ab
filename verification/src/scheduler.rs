//! Scheduling of the environments: what the VM makes of the messages that it gets.
//!
//! Once at least one program is scheduled ([`RequestMessage::ScheduleEnv`]), an [`Env`] is
//! created for it, and it is rescheduled for execution
//! ([`RequestMessage::RescheduleEnv`]), at which time one instruction is executed. This way
//! multiple programs can be executed at the same time.
//!
//! Once the execution of an environment has been terminated, a message is sent, depending on
//! the result ([`ResponseMessage::EnvTerminated`] or [`ResponseMessage::EnvFailed`]).

use crate::env::{Env, Usage};
use crate::error::Error;
use crate::ids::EnvId;
use crate::model::{
    can_pass, pass_outcome, pass_usage, resume_outcome, resume_usage, Locks, Outcome, Stack,
};
use crate::runs::{action_of, received, settled, Action, Message, Pending, Response};
use crate::storage::{answer_of, StorageReply, StorageRequest};
use crate::vm::{Pass, VM};
use vstd::prelude::*;
use vstd::slice::slice_to_vec;

verus! {

/// Communication messages used to talk with the VM. Responses go to a channel `C`.
#[derive(Debug)]
pub enum RequestMessage<'a, C> {
    /// Requests scheduling a new environment with a given
    /// id and a program.
    ScheduleEnv(EnvId, Vec<u8>, C),
    /// An internal message that schedules an execution of
    /// the next instruction in an identified environment on
    /// the next 'tick'
    RescheduleEnv(EnvId, Vec<u8>, Env<'a>, C),
    /// Requests VM shutdown
    Shutdown,
}

/// Messages received from the VM.
#[derive(Debug)]
pub enum ResponseMessage {
    /// Notifies of successful environment termination with
    /// an id, stack and top of the stack pointer.
    EnvTerminated(EnvId, Vec<Vec<u8>>, usize),
    /// Notifies of abnormal environment termination with
    /// an id, error, stack and top of the stack pointer.
    EnvFailed(EnvId, Error, Vec<Vec<u8>>, usize),
}

/// An environment that waits for the store.
pub struct Waiting<'a, C> {
    /// The environment's id.
    pub pid: EnvId,
    /// The environment.
    pub env: Env<'a>,
    /// What is asked of the store.
    pub request: StorageRequest,
    /// The program to go on with.
    pub program: Vec<u8>,
    /// Where the response goes.
    pub chan: C,
}

/// What is to be done after a message.
pub enum Turn<'a, C> {
    /// Stop.
    Stop,
    /// Put a message behind those that wait to be received.
    Loopback(RequestMessage<'a, C>),
    /// Send a response.
    Respond(C, ResponseMessage),
    /// Ask the store.
    Ask(Waiting<'a, C>),
}

/// The values that vectors hold.
pub open spec fn values_in(values: Vec<Vec<u8>>) -> Stack {
    Seq::new(values@.len(), |i: int| values@[i]@)
}

impl<'a, C> View for RequestMessage<'a, C> {
    type V = Message<C>;

    open spec fn view(&self) -> Message<C> {
        match *self {
            RequestMessage::ScheduleEnv(pid, program, chan) => Message::Schedule {
                pid,
                program: program@,
                chan,
            },
            RequestMessage::RescheduleEnv(pid, program, env, chan) => Message::Reschedule {
                pid,
                program: program@,
                stack: env@,
                usage: env.usage(),
                chan,
            },
            RequestMessage::Shutdown => Message::Shutdown,
        }
    }
}

impl View for ResponseMessage {
    type V = Response;

    open spec fn view(&self) -> Response {
        match *self {
            ResponseMessage::EnvTerminated(pid, values, size) => Response::Terminated {
                pid,
                stack: values_in(values),
                size: size as nat,
            },
            ResponseMessage::EnvFailed(pid, error, values, size) => Response::Failed {
                pid,
                error,
                stack: values_in(values),
                size: size as nat,
            },
        }
    }
}

impl<'a, C> View for Waiting<'a, C> {
    type V = Pending<C>;

    open spec fn view(&self) -> Pending<C> {
        Pending {
            pid: self.pid,
            stack: self.env@,
            usage: self.env.usage(),
            request: self.request@,
            program: self.program@,
            chan: self.chan,
        }
    }
}

impl<'a, C> View for Turn<'a, C> {
    type V = Action<C>;

    open spec fn view(&self) -> Action<C> {
        match *self {
            Turn::Stop => Action::Stop,
            Turn::Loopback(message) => Action::Loopback(message@),
            Turn::Respond(chan, response) => Action::Respond(chan, response@),
            Turn::Ask(waiting) => Action::Ask(waiting@),
        }
    }
}

impl<'a, C> RequestMessage<'a, C> {
    /// Whether the environment that a message carries, if it carries one, is well-formed.
    pub open spec fn wf(self) -> bool {
        self matches RequestMessage::RescheduleEnv(_, _, env, _) ==> env.wf()
    }

    /// Whether the instruction that a message asks for can be executed.
    pub open spec fn can_run(self, locks: Locks) -> bool {
        self matches RequestMessage::RescheduleEnv(pid, program, env, _) ==> can_pass(
            program@,
            env@,
            locks,
            pid,
        )
    }
}

impl<'a, C> Turn<'a, C> {
    /// Whether the environment that is to go on, if there is one, is well-formed.
    pub open spec fn wf(self) -> bool {
        match self {
            Turn::Loopback(message) => message.wf(),
            Turn::Ask(waiting) => waiting.env.wf(),
            _ => true,
        }
    }
}

/// Copies the values of an environment.
fn values_of(env: &Env) -> (values: Vec<Vec<u8>>)
    requires
        env.wf(),
    ensures
        values@.len() == env@.len(),
        forall|i: int| 0 <= i < env@.len() ==> (#[trigger] values@[i])@ == env@[i],
        values_in(values) == env@,
{
    let stack: Vec<&[u8]> = env.stack();
    let mut values: Vec<Vec<u8>> = Vec::new();
    let mut i: usize = 0;
    while i < stack.len()
        invariant
            i <= stack@.len() == env@.len(),
            forall|j: int| 0 <= j < env@.len() ==> (#[trigger] stack@[j])@ == env@[j],
            values@.len() == i,
            forall|j: int| 0 <= j < i ==> (#[trigger] values@[j])@ == env@[j],
        decreases stack@.len() - i,
    {
        values.push(slice_to_vec(stack[i]));
        i += 1;
    }
    assert(values_in(values) =~= env@);
    values
}

/// What is to be done when an environment has come through a pass.
fn turn_of<'a, C>(
    pass: Pass<'a>,
    pid: EnvId,
    chan: C,
    Ghost(outcome): Ghost<Outcome>,
    Ghost(usage): Ghost<Usage>,
) -> (turn: Turn<'a, C>)
    requires
        pass.is_outcome(outcome, usage),
    ensures
        turn.wf(),
        turn@ == action_of(outcome, usage, pid, chan),
{
    match pass {
        Pass::Failed(env, error) => {
            let values: Vec<Vec<u8>> = values_of(&env);
            let size: usize = env.stack_size();
            Turn::Respond(chan, ResponseMessage::EnvFailed(pid, error, values, size))
        },
        Pass::Done(env, Some(program)) => Turn::Loopback(
            RequestMessage::RescheduleEnv(pid, program, env, chan),
        ),
        Pass::Done(env, None) => {
            let values: Vec<Vec<u8>> = values_of(&env);
            let size: usize = env.stack_size();
            Turn::Respond(chan, ResponseMessage::EnvTerminated(pid, values, size))
        },
        Pass::Waiting(env, request, program) => Turn::Ask(
            Waiting { pid, env, request, program, chan },
        ),
    }
}

impl VM {
    /// Handles an incoming or internal message.
    pub fn receive<'a, C>(&mut self, message: RequestMessage<'a, C>) -> (turn: Turn<'a, C>)
        requires
            message.wf(),
            message.can_run(old(self)@),
        ensures
            turn.wf(),
            (final(self)@, turn@) == received(message@, old(self)@),
    {
        match message {
            RequestMessage::Shutdown => Turn::Stop,
            RequestMessage::ScheduleEnv(pid, program, chan) => Turn::Loopback(
                RequestMessage::RescheduleEnv(pid, program, Env::new(), chan),
            ),
            RequestMessage::RescheduleEnv(pid, program, env, chan) => {
                let ghost outcome = pass_outcome(program@, env@, self@, pid).1;
                let ghost usage = pass_usage(program@, env@, env.usage());
                let pass: Pass<'a> = self.pass(env, program, pid);
                turn_of(pass, pid, chan, Ghost(outcome), Ghost(usage))
            },
        }
    }

    /// Goes on with an environment that has waited for the store.
    pub fn settle<'a, C>(&mut self, waiting: Waiting<'a, C>, reply: StorageReply) -> (turn: Turn<'a, C>)
        requires
            waiting.env.wf(),
        ensures
            turn.wf(),
            (final(self)@, turn@) == settled(waiting@, old(self)@, answer_of(reply)),
    {
        let ghost outcome = resume_outcome(
            waiting.request@,
            waiting.program@,
            waiting.env@,
            self@,
            waiting.pid,
            answer_of(reply),
        ).1;
        let ghost usage = resume_usage(
            waiting.request@,
            waiting.env@,
            answer_of(reply),
            waiting.env.usage(),
        );
        let Waiting { pid, env, request, program, chan } = waiting;
        let pass: Pass<'a> = self.resume(env, request, program, pid, reply);
        turn_of(pass, pid, chan, Ghost(outcome), Ghost(usage))
    }
}

} // verus!
