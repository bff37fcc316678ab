//! Laws of what goes in and out of the VM: that messages, requests, replies and results stand
//! for what they hold, and what the VM makes of each message and of each answer.

use crate::env::{lowest, Env, Usage};
use crate::error::{Error, StorageError};
use crate::ids::{locked_out, EnvId};
use crate::model::{
    can_pass, false_value, pass_outcome, pass_usage, resume_outcome, resume_usage, true_value,
    word_usage, Effect, Locks, Outcome, Stack,
};
use crate::runs::{received, settled, Action, Message, Pending, Response};
use crate::scheduler::{values_in, RequestMessage, ResponseMessage, Turn, Waiting};
use crate::storage::{answer_of, Answer, Asked, StorageRequest, Txn};
use crate::vm::{asks, asks_for, handles, settles, Pass, StorageResult, WordResult};
use vstd::prelude::*;

verus! {

/// The vectors of a response are the values of a stack, from the bottom to the top.
pub proof fn law_values_in_order(values: Vec<Vec<u8>>)
    ensures
        values_in(values).len() == values@.len(),
        forall|i: int| 0 <= i < values@.len() ==> values_in(values)[i] == (#[trigger] values@[i])@,
{
}

/// The values in the lowest slots of a stack stand in the order of the slots.
pub proof fn law_lowest_in_order(stack: Seq<&[u8]>, stack_size: nat)
    ensures
        lowest(stack, stack_size).len() == stack_size,
        forall|i: int|
            0 <= i < stack_size ==> #[trigger] lowest(stack, stack_size)[i] == stack[i]@,
{
}

/// A response tells of termination or of failure with the id, the error, the values and the
/// number that it holds.
pub proof fn law_response_holds(
    pid: EnvId,
    error: Error,
    values: Vec<Vec<u8>>,
    size: usize,
    stack: Stack,
)
    requires
        stack.len() == values@.len(),
        forall|i: int| 0 <= i < stack.len() ==> stack[i] == (#[trigger] values@[i])@,
    ensures
        ResponseMessage::EnvTerminated(pid, values, size)@ == (Response::Terminated {
            pid,
            stack,
            size: size as nat,
        }),
        ResponseMessage::EnvFailed(pid, error, values, size)@ == (Response::Failed {
            pid,
            error,
            stack,
            size: size as nat,
        }),
{
    assert(values_in(values) =~= stack);
}

/// A message to the VM holds an id, a program, an environment and a channel.
pub proof fn law_message_holds<'a, C>(pid: EnvId, program: Vec<u8>, env: Env<'a>, chan: C)
    ensures
        RequestMessage::<'a, C>::ScheduleEnv(pid, program, chan)@ == (Message::Schedule {
            pid,
            program: program@,
            chan,
        }),
        RequestMessage::RescheduleEnv(pid, program, env, chan)@ == (Message::Reschedule {
            pid,
            program: program@,
            stack: env@,
            usage: env.usage(),
            chan,
        }),
        RequestMessage::<'a, C>::Shutdown@ == Message::<C>::Shutdown,
        RequestMessage::RescheduleEnv(pid, program, env, chan).wf() <==> env.wf(),
        RequestMessage::<'a, C>::ScheduleEnv(pid, program, chan).wf(),
        RequestMessage::<'a, C>::Shutdown.wf(),
{
}

/// A message can be handled if the instruction that it asks for can be executed.
pub proof fn law_message_can_run<'a, C>(
    pid: EnvId,
    program: Vec<u8>,
    env: Env<'a>,
    chan: C,
    locks: Locks,
)
    ensures
        RequestMessage::RescheduleEnv(pid, program, env, chan).can_run(locks) <==> can_pass(
            program@,
            env@,
            locks,
            pid,
        ),
        RequestMessage::<'a, C>::ScheduleEnv(pid, program, chan).can_run(locks),
        RequestMessage::<'a, C>::Shutdown.can_run(locks),
{
}

/// What is to be done is what is said to be done.
pub proof fn law_turn_holds<'a, C>(
    message: RequestMessage<'a, C>,
    chan: C,
    response: ResponseMessage,
    waiting: Waiting<'a, C>,
)
    ensures
        Turn::<'a, C>::Stop@ == Action::<C>::Stop,
        Turn::Loopback(message)@ == Action::Loopback(message@),
        Turn::<'a, C>::Respond(chan, response)@ == Action::Respond(chan, response@),
        Turn::Ask(waiting)@ == Action::Ask(
            Pending {
                pid: waiting.pid,
                stack: waiting.env@,
                usage: waiting.env.usage(),
                request: waiting.request@,
                program: waiting.program@,
                chan: waiting.chan,
            },
        ),
        waiting@ == (Pending {
            pid: waiting.pid,
            stack: waiting.env@,
            usage: waiting.env.usage(),
            request: waiting.request@,
            program: waiting.program@,
            chan: waiting.chan,
        }),
        Turn::<'a, C>::Stop.wf(),
        Turn::<'a, C>::Respond(chan, response).wf(),
        Turn::Loopback(message).wf() <==> message.wf(),
        Turn::Ask(waiting).wf() <==> waiting.env.wf(),
{
}

/// What is asked of the store is asked with the key, the value and the transaction that the
/// request holds.
pub proof fn law_request_holds(txn: Txn, key: Vec<u8>, value: Vec<u8>)
    ensures
        StorageRequest::Begin(txn)@ == Asked::Begin(txn),
        StorageRequest::End(txn)@ == Asked::End(txn),
        (StorageRequest::Put { key, value })@ == (Asked::Put { key: key@, value: value@ }),
        (StorageRequest::Get { txn, key })@ == (Asked::Get { txn, key: key@ }),
        (StorageRequest::Has { txn, key })@ == (Asked::Has { txn, key: key@ }),
        StorageRequest::Commit@ == Asked::Commit,
{
}

/// The store answers with the value or with the error that the reply holds.
pub proof fn law_reply_holds(value: Vec<u8>, error: StorageError)
    ensures
        answer_of(Ok::<Option<Vec<u8>>, StorageError>(Some(value))) == Ok::<
            Option<Seq<u8>>,
            StorageError,
        >(Some(value@)),
        answer_of(Ok::<Option<Vec<u8>>, StorageError>(None)) == Ok::<
            Option<Seq<u8>>,
            StorageError,
        >(None),
        answer_of(Err::<Option<Vec<u8>>, StorageError>(error)) == Err::<
            Option<Seq<u8>>,
            StorageError,
        >(error),
{
}

/// Somebody is locked out if somebody else is the owner, and only then.
pub proof fn law_locked_out(owner: EnvId, pid: EnvId)
    ensures
        locked_out(Some(owner), pid) <==> owner != pid,
        !locked_out(None, pid),
{
}

/// A pass that comes to an outcome has the environment, the program, the error and the request
/// of that outcome.
pub proof fn law_pass_holds<'a>(
    pass: Pass<'a>,
    values: Stack,
    code: Seq<u8>,
    cause: Error,
    asked: Asked,
    usage: Usage,
)
    ensures
        pass.is_outcome(Outcome::Done { stack: values, program: Some(code) }, usage) <==> {
            &&& pass matches Pass::Done(env, Some(program))
            &&& program@ == code
            &&& env.wf()
            &&& env@ == values
            &&& env.usage() == usage
        },
        pass.is_outcome(Outcome::Done { stack: values, program: None }, usage) <==> {
            &&& pass matches Pass::Done(env, None)
            &&& env.wf()
            &&& env@ == values
            &&& env.usage() == usage
        },
        pass.is_outcome(Outcome::Failed { stack: values, error: cause }, usage) <==> {
            &&& pass matches Pass::Failed(env, error)
            &&& error == cause
            &&& env.wf()
            &&& env@ == values
            &&& env.usage() == usage
        },
        pass.is_outcome(
            Outcome::Waiting { stack: values, request: asked, program: code },
            usage,
        ) <==> {
            &&& pass matches Pass::Waiting(env, request, program)
            &&& request@ == asked
            &&& program@ == code
            &&& env.wf()
            &&& env@ == values
            &&& env.usage() == usage
        },
{
}

/// A word that has an effect without the store returns the environment that the effect speaks
/// of, with the code to be run, if there is any, or with the error. Where another word is known,
/// the environment is handed back as it is.
pub proof fn law_result_holds<'a>(
    result: WordResult<'a>,
    word: Seq<u8>,
    known: Seq<u8>,
    values: Stack,
    code: Seq<u8>,
    cause: Error,
    usage: Usage,
    before: Env<'a>,
)
    ensures
        settles(result, Effect::Next { stack: values, code: None }, usage, before) <==> {
            &&& result matches Ok((env, None))
            &&& env.wf()
            &&& env@ == values
            &&& env.usage() == usage
        },
        settles(result, Effect::Next { stack: values, code: Some(code) }, usage, before) <==> {
            &&& result matches Ok((env, Some(bytes)))
            &&& bytes@ == code
            &&& env.wf()
            &&& env@ == values
            &&& env.usage() == usage
        },
        settles(result, Effect::Fail { stack: values, error: cause }, usage, before) <==> {
            &&& result matches Err((env, error))
            &&& error == cause
            &&& env.wf()
            &&& env@ == values
            &&& env.usage() == usage
        },
        forall|effect: Effect|
            #![trigger handles(result, word, known, effect, before)]
            word == known ==> (handles(result, word, known, effect, before) <==> settles(
                result,
                effect,
                word_usage(word, before@, before.usage()),
                before,
            )),
        forall|effect: Effect|
            #![trigger handles(result, word, known, effect, before)]
            word != known ==> (handles(result, word, known, effect, before) <==> result == Err::<
                (Env<'a>, Option<Vec<u8>>),
                (Env<'a>, Error),
            >((before, Error::UnknownWord))),
{
}

/// A word that asks something of the store returns the environment, the request and the code
/// that the effect speaks of, or the error, and leaves the transactions to those that the effect
/// names. One that is put off or not known hands the environment back as it is.
pub proof fn law_asking_holds<'a>(
    result: StorageResult<'a>,
    after: Locks,
    word: Seq<u8>,
    known: Seq<u8>,
    values: Stack,
    new: Locks,
    asked: Asked,
    code: Seq<u8>,
    cause: Error,
    before: Env<'a>,
    locks: Locks,
)
    ensures
        asks(
            result,
            after,
            Effect::Ask { stack: values, locks: new, request: asked, code },
            before,
            locks,
        ) <==> {
            &&& result matches Ok((env, request, bytes))
            &&& request@ == asked
            &&& bytes@ == code
            &&& env.wf()
            &&& env@ == values
            &&& env.usage() == before.usage()
            &&& after == new
        },
        asks(result, after, Effect::Fail { stack: values, error: cause }, before, locks) <==> {
            &&& result matches Err((env, error))
            &&& error == cause
            &&& env.wf()
            &&& env@ == values
            &&& env.usage() == before.usage()
            &&& after == locks
        },
        asks(result, after, Effect::Retry, before, locks) <==> {
            &&& result == Err::<(Env<'a>, StorageRequest, Vec<u8>), (Env<'a>, Error)>(
                (before, Error::Reschedule),
            )
            &&& after == locks
        },
        forall|effect: Effect|
            #![trigger asks_for(result, after, word, known, effect, before, locks)]
            word == known ==> (asks_for(result, after, word, known, effect, before, locks) <==> asks(
                result,
                after,
                effect,
                before,
                locks,
            )),
        forall|effect: Effect|
            #![trigger asks_for(result, after, word, known, effect, before, locks)]
            word != known ==> (asks_for(result, after, word, known, effect, before, locks) <==> {
                &&& result == Err::<(Env<'a>, StorageRequest, Vec<u8>), (Env<'a>, Error)>(
                    (before, Error::UnknownWord),
                )
                &&& after == locks
            }),
{
}

/// A program that is scheduled is put behind the other messages, whole, with an environment that
/// has an empty stack and has allocated nothing. Nothing is executed, and the transactions stay
/// with whoever holds them.
pub proof fn law_scheduled<C>(pid: EnvId, program: Seq<u8>, chan: C, locks: Locks)
    ensures
        ({
            let (after, action) = received(Message::Schedule { pid, program, chan }, locks);
            &&& after == locks
            &&& action matches Action::Loopback(
                Message::Reschedule { pid: id, program: code, stack, usage, chan: to },
            )
            &&& id == pid
            &&& code == program
            &&& stack.len() == 0
            &&& usage.memory.len() == 0
            &&& usage.heap_size == 32768
            &&& usage.slots == 32768
            &&& to == chan
        }),
        received(Message::<C>::Shutdown, locks) == (locks, Action::<C>::Stop),
{
}

/// What follows from what one instruction has made of a program: what is left of it is put
/// behind the other messages, or the id, the stack from the bottom to the top, its size and the
/// error are sent to the channel, or the store is asked.
pub proof fn law_instruction_followed<C>(
    id: EnvId,
    program: Seq<u8>,
    stack: Stack,
    usage: Usage,
    to: C,
    locks: Locks,
)
    ensures
        ({
            let message = Message::Reschedule { pid: id, program, stack, usage, chan: to };
            let (after, action) = received(message, locks);
            let (holders, outcome) = pass_outcome(program, stack, locks, id);
            &&& after == holders
            &&& match outcome {
                Outcome::Done { stack: values, program: Some(left) } => {
                    &&& action matches Action::Loopback(
                        Message::Reschedule { pid, program: code, stack: kept, usage: used, chan },
                    )
                    &&& pid == id && code == left && kept == values && chan == to
                    &&& used == pass_usage(program, stack, usage)
                },
                Outcome::Done { stack: values, program: None } => {
                    &&& action matches Action::Respond(
                        chan,
                        Response::Terminated { pid, stack: kept, size },
                    )
                    &&& chan == to && pid == id && kept == values && size == values.len()
                },
                Outcome::Failed { stack: values, error: cause } => {
                    &&& action matches Action::Respond(
                        chan,
                        Response::Failed { pid, error, stack: kept, size },
                    )
                    &&& chan == to && pid == id && kept == values && size == values.len()
                    &&& error == cause
                },
                Outcome::Waiting { stack: values, request: asked, program: left } => {
                    &&& action matches Action::Ask(pending)
                    &&& pending.pid == id && pending.stack == values && pending.request == asked
                    &&& pending.program == left && pending.chan == to
                    &&& pending.usage == pass_usage(program, stack, usage)
                },
            }
        }),
{
}

/// What follows from the store's answer: what is left of the program is put behind the other
/// messages, or the id, the stack from the bottom to the top, its size and the error are sent to
/// the channel. The store is not asked again.
pub proof fn law_answer_followed<C>(pending: Pending<C>, locks: Locks, answer: Answer)
    ensures
        ({
            let (after, action) = settled(pending, locks, answer);
            let (holders, outcome) = resume_outcome(
                pending.request,
                pending.program,
                pending.stack,
                locks,
                pending.pid,
                answer,
            );
            &&& after == holders
            &&& match outcome {
                Outcome::Done { stack: values, program: Some(left) } => {
                    &&& action matches Action::Loopback(
                        Message::Reschedule { pid, program, stack, usage, chan },
                    )
                    &&& pid == pending.pid && program == left && stack == values
                    &&& chan == pending.chan
                    &&& usage == resume_usage(
                        pending.request,
                        pending.stack,
                        answer,
                        pending.usage,
                    )
                },
                Outcome::Done { stack: values, program: None } => {
                    &&& action matches Action::Respond(
                        chan,
                        Response::Terminated { pid, stack, size },
                    )
                    &&& chan == pending.chan && pid == pending.pid && stack == values
                    &&& size == values.len()
                },
                Outcome::Failed { stack: values, error: cause } => {
                    &&& action matches Action::Respond(
                        chan,
                        Response::Failed { pid, error, stack, size },
                    )
                    &&& chan == pending.chan && pid == pending.pid && stack == values
                    &&& size == values.len() && error == cause
                },
                Outcome::Waiting { .. } => false,
            }
        }),
{
}

/// When the store has opened a transaction, the environment holds it, in addition to what else
/// is held, and the program goes on. If it has not, the program ends with the store's error.
pub proof fn law_begun(
    txn: Txn,
    program: Seq<u8>,
    stack: Stack,
    locks: Locks,
    pid: EnvId,
    found: Option<Seq<u8>>,
    error: StorageError,
)
    ensures
        resume_outcome(Asked::Begin(txn), program, stack, locks, pid, Ok(found)) == (
            Locks {
                write: if txn is Write {
                    Some(pid)
                } else {
                    locks.write
                },
                read: if txn is Read {
                    Some(pid)
                } else {
                    locks.read
                },
            },
            Outcome::Done {
                stack,
                program: if program.len() == 0 {
                    None
                } else {
                    Some(program)
                },
            },
        ),
        resume_outcome(Asked::Begin(txn), program, stack, locks, pid, Err(error)) == (
            locks,
            Outcome::Failed { stack, error: Error::DatabaseError(error) },
        ),
{
}

/// A transaction that is given up or committed is over, whatever the store answers: the program
/// goes on with the same stack.
pub proof fn law_over_whatever_the_answer(
    txn: Txn,
    program: Seq<u8>,
    stack: Stack,
    locks: Locks,
    pid: EnvId,
    answer: Answer,
)
    ensures
        resume_outcome(Asked::End(txn), program, stack, locks, pid, answer) == (
            locks,
            Outcome::Done {
                stack,
                program: if program.len() == 0 {
                    None
                } else {
                    Some(program)
                },
            },
        ),
        resume_outcome(Asked::Commit, program, stack, locks, pid, answer) == (
            locks,
            Outcome::Done {
                stack,
                program: if program.len() == 0 {
                    None
                } else {
                    Some(program)
                },
            },
        ),
{
}

/// When a value was recorded, the program goes on with the same stack. If the store says that
/// the key has one already, the program ends with `DuplicateKey`, and with any other error of
/// the store it ends with that.
pub proof fn law_recorded(
    key: Seq<u8>,
    value: Seq<u8>,
    program: Seq<u8>,
    stack: Stack,
    locks: Locks,
    pid: EnvId,
    found: Option<Seq<u8>>,
    error: StorageError,
)
    ensures
        resume_outcome(Asked::Put { key, value }, program, stack, locks, pid, Ok(found)) == (
            locks,
            Outcome::Done {
                stack,
                program: if program.len() == 0 {
                    None
                } else {
                    Some(program)
                },
            },
        ),
        resume_outcome(Asked::Put { key, value }, program, stack, locks, pid, Err(error)) == (
            locks,
            Outcome::Failed {
                stack,
                error: match error {
                    StorageError::ValRejected(_) => Error::DuplicateKey,
                    StorageError::Code(code) => if code == -30799 {
                        Error::DuplicateKey
                    } else {
                        Error::DatabaseError(error)
                    },
                    _ => Error::DatabaseError(error),
                },
            },
        ),
{
}

/// A value that was found is pushed as it is, and the program goes on. If there is none, the
/// program ends with `UnknownKey`.
pub proof fn law_looked_up(
    txn: Txn,
    key: Seq<u8>,
    program: Seq<u8>,
    stack: Stack,
    locks: Locks,
    pid: EnvId,
    value: Seq<u8>,
    error: StorageError,
)
    ensures
        resume_outcome(Asked::Get { txn, key }, program, stack, locks, pid, Ok(Some(value))) == (
            locks,
            Outcome::Done {
                stack: stack.push(value),
                program: if program.len() == 0 {
                    None
                } else {
                    Some(program)
                },
            },
        ),
        resume_outcome(Asked::Get { txn, key }, program, stack, locks, pid, Ok(None)) == (
            locks,
            Outcome::Failed { stack, error: Error::UnknownKey },
        ),
        resume_outcome(Asked::Get { txn, key }, program, stack, locks, pid, Err(error)) == (
            locks,
            Outcome::Failed { stack, error: Error::DatabaseError(error) },
        ),
{
}

/// Whether there is a value is pushed as one byte, one for yes and zero for no, and the program
/// goes on.
pub proof fn law_told(
    txn: Txn,
    key: Seq<u8>,
    program: Seq<u8>,
    stack: Stack,
    locks: Locks,
    pid: EnvId,
    found: Option<Seq<u8>>,
    error: StorageError,
)
    ensures
        resume_outcome(Asked::Has { txn, key }, program, stack, locks, pid, Ok(found)) == (
            locks,
            Outcome::Done {
                stack: stack.push(
                    if found is Some {
                        seq![1u8, 1u8]
                    } else {
                        seq![1u8, 0u8]
                    },
                ),
                program: if program.len() == 0 {
                    None
                } else {
                    Some(program)
                },
            },
        ),
        resume_outcome(Asked::Has { txn, key }, program, stack, locks, pid, Err(error)) == (
            locks,
            Outcome::Failed { stack, error: Error::DatabaseError(error) },
        ),
{
    assert(true_value() =~= seq![1u8, 1u8]);
    assert(false_value() =~= seq![1u8, 0u8]);
}

} // verus!
