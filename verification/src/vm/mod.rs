//! The PumpkinScript interpreter.

mod stack_words;
mod storage_words;

use crate::binparser;
use crate::binparser::{payload, size_field_len, MAX_SIZE};
use crate::env::{Env, Slot, Span, Usage};
use crate::error::{Error, StorageError, KEYEXIST};
use crate::ids::{is_locked_out, EnvId};
use crate::model::{
    can_concat, can_handle, can_pass, effect_outcome, false_value, pass_outcome, pass_usage,
    remaining, resume_outcome, resume_usage, true_value, word_effect, word_usage, Effect, Locks,
    Outcome,
};
use crate::storage::{answer_of, StorageReply, StorageRequest, Txn};
use crate::words::{same_bytes, CONCAT, EVAL, READ, WRITE};
use vstd::prelude::*;

verus! {

/// What comes of a word: the environment, and maybe code to be run before the rest of the program;
/// or the environment and an error.
pub type WordResult<'a> = Result<(Env<'a>, Option<Vec<u8>>), (Env<'a>, Error)>;

/// What comes of a word that needs the store: the environment, what is asked of the store, and
/// code to be run before the rest of the program if the store does not refuse; or the
/// environment and an error.
pub type StorageResult<'a> = Result<(Env<'a>, StorageRequest, Vec<u8>), (Env<'a>, Error)>;

/// Whether a result is an effect that a word has on an environment.
pub open spec fn settles<'a>(result: WordResult<'a>, effect: Effect, usage: Usage, before: Env<'a>) -> bool {
    match effect {
        Effect::Next { stack, code } => {
            &&& result matches Ok((env, injection))
            &&& env.wf()
            &&& env@ == stack
            &&& env.usage() == usage
            &&& match code {
                Some(bytes) => injection matches Some(found) && found@ == bytes,
                None => injection is None,
            }
        },
        Effect::Fail { stack, error } => {
            &&& result matches Err((env, found))
            &&& env.wf()
            &&& env@ == stack
            &&& env.usage() == usage
            &&& found == error
        },
        Effect::Retry => result == Err::<(Env<'a>, Option<Vec<u8>>), (Env<'a>, Error)>(
            (before, Error::Reschedule),
        ),
        Effect::Ask { .. } => false,
    }
}

/// Whether a result is an effect that a word has on an environment and on who holds the
/// transactions.
pub open spec fn asks<'a>(
    result: StorageResult<'a>,
    after: Locks,
    effect: Effect,
    before: Env<'a>,
    locks: Locks,
) -> bool {
    match effect {
        Effect::Next { .. } => false,
        Effect::Fail { stack, error } => {
            &&& result matches Err((env, found))
            &&& env.wf()
            &&& env@ == stack
            &&& env.usage() == before.usage()
            &&& found == error
            &&& after == locks
        },
        Effect::Retry => {
            &&& result == Err::<(Env<'a>, StorageRequest, Vec<u8>), (Env<'a>, Error)>(
                (before, Error::Reschedule),
            )
            &&& after == locks
        },
        Effect::Ask { stack, locks: new, request, code } => {
            &&& result matches Ok((env, asked, injection))
            &&& env.wf()
            &&& env@ == stack
            &&& env.usage() == before.usage()
            &&& asked@ == request
            &&& injection@ == code
            &&& after == new
        },
    }
}

/// Whether a result is what a word comes to where only the one word is known.
pub open spec fn handles<'a>(
    result: WordResult<'a>,
    word: Seq<u8>,
    known: Seq<u8>,
    effect: Effect,
    before: Env<'a>,
) -> bool {
    if word == known {
        settles(result, effect, word_usage(word, before@, before.usage()), before)
    } else {
        result == Err::<(Env<'a>, Option<Vec<u8>>), (Env<'a>, Error)>((before, Error::UnknownWord))
    }
}

/// Whether a result is what a word comes to where only the one word is known.
pub open spec fn asks_for<'a>(
    result: StorageResult<'a>,
    after: Locks,
    word: Seq<u8>,
    known: Seq<u8>,
    effect: Effect,
    before: Env<'a>,
    locks: Locks,
) -> bool {
    if word == known {
        asks(result, after, effect, before, locks)
    } else {
        &&& result == Err::<(Env<'a>, StorageRequest, Vec<u8>), (Env<'a>, Error)>(
            (before, Error::UnknownWord),
        )
        &&& after == locks
    }
}

/// What became of a program, once its first instruction was executed.
pub enum Pass<'a> {
    /// What is left of the program is to be run, if anything is.
    Done(Env<'a>, Option<Vec<u8>>),
    /// The program ended with an error.
    Failed(Env<'a>, Error),
    /// The program goes on when the store has answered.
    Waiting(Env<'a>, StorageRequest, Vec<u8>),
}

impl<'a> Pass<'a> {
    /// Whether the pass came to an outcome, with an environment that takes up so much.
    pub open spec fn is_outcome(self, outcome: Outcome, usage: Usage) -> bool {
        match outcome {
            Outcome::Done { stack, program } => {
                &&& self matches Pass::Done(env, left)
                &&& env.wf()
                &&& env@ == stack
                &&& env.usage() == usage
                &&& match program {
                    None => left is None,
                    Some(code) => left matches Some(bytes) && bytes@ == code,
                }
            },
            Outcome::Failed { stack, error } => {
                &&& self matches Pass::Failed(env, found)
                &&& env.wf()
                &&& env@ == stack
                &&& env.usage() == usage
                &&& found == error
            },
            Outcome::Waiting { stack, request, program } => {
                &&& self matches Pass::Waiting(env, asked, left)
                &&& env.wf()
                &&& env@ == stack
                &&& env.usage() == usage
                &&& asked@ == request
                &&& left@ == program
            },
        }
    }

    /// What is left of a program is to be run, if anything is.
    fn done(env: Env<'a>, program: Vec<u8>) -> (pass: Pass<'a>)
        requires
            env.wf(),
        ensures
            pass.is_outcome(
                Outcome::Done { stack: env@, program: remaining(program@) },
                env.usage(),
            ),
    {
        if program.len() == 0 {
            Pass::Done(env, None)
        } else {
            Pass::Done(env, Some(program))
        }
    }
}

/// What came of a word.
enum Handled<'a> {
    /// The word did its work without the store.
    Settled(WordResult<'a>),
    /// The word needs the store.
    Asks(StorageResult<'a>),
}

impl<'a> Handled<'a> {
    spec fn is_effect(
        self,
        after: Locks,
        effect: Effect,
        usage: Usage,
        before: Env<'a>,
        locks: Locks,
    ) -> bool {
        match self {
            Handled::Settled(result) => settles(result, effect, usage, before) && after == locks,
            Handled::Asks(result) => asks(result, after, effect, before, locks) && usage
                == before.usage(),
        }
    }

    /// Goes on with the rest of the program.
    fn carry_on(
        self,
        program: Vec<u8>,
        len: usize,
        Ghost(effect): Ghost<Effect>,
        Ghost(usage): Ghost<Usage>,
        Ghost(before): Ghost<Env<'a>>,
        Ghost(locks): Ghost<Locks>,
        Ghost(after): Ghost<Locks>,
    ) -> (pass: Pass<'a>)
        requires
            len <= program@.len(),
            before.wf(),
            self.is_effect(after, effect, usage, before, locks),
            effect matches Effect::Fail { error, .. } ==> error != Error::Reschedule,
            effect is Retry ==> usage == before.usage(),
        ensures
            after == effect_outcome(effect, program@, len as nat, before@, locks).0,
            pass.is_outcome(
                effect_outcome(effect, program@, len as nat, before@, locks).1,
                usage,
            ),
    {
        let mut program = program;
        assert(program@.subrange(len as int, program@.len() as int) =~= program@.skip(len as int));
        assert(Seq::empty() + program@.skip(len as int) =~= program@.skip(len as int));
        match self {
            Handled::Settled(Err((env, Error::Reschedule))) => Pass::Done(env, Some(program)),
            Handled::Asks(Err((env, Error::Reschedule))) => Pass::Done(env, Some(program)),
            Handled::Settled(Err((env, error))) => Pass::Failed(env, error),
            Handled::Asks(Err((env, error))) => Pass::Failed(env, error),
            Handled::Settled(Ok((env, Some(injection)))) => {
                let mut code = injection;
                let mut rest: Vec<u8> = program.split_off(len);
                code.append(&mut rest);
                Pass::done(env, code)
            },
            Handled::Settled(Ok((env, None))) => Pass::done(env, program.split_off(len)),
            Handled::Asks(Ok((env, request, injection))) => {
                let mut code = injection;
                let mut rest: Vec<u8> = program.split_off(len);
                code.append(&mut rest);
                Pass::Waiting(env, request, code)
            },
        }
    }
}

/// The value that stands for true.
const TRUE: [u8; 2] = [1, 1];

/// The value that stands for false.
const FALSE: [u8; 2] = [1, 0];

/// VM is a PumpkinScript interpreter. It keeps track of the environments that hold the write
/// and the read transaction.
pub struct VM {
    db_write_txn: Option<EnvId>,
    db_read_txn: Option<EnvId>,
}

impl View for VM {
    type V = Locks;

    /// The holders of the transactions.
    closed spec fn view(&self) -> Locks {
        Locks { write: self.db_write_txn, read: self.db_read_txn }
    }
}

impl VM {
    /// Creates an instance of VM, with no transaction open.
    pub fn new() -> (vm: VM)
        ensures
            vm@ == (Locks { write: None, read: None }),
    {
        VM { db_write_txn: None, db_read_txn: None }
    }

    /// Tries one word after the other.
    fn handle_word<'a>(&mut self, env: Env<'a>, word: &[u8], pid: EnvId) -> (handled: Handled<'a>)
        requires
            env.wf(),
            can_handle(word@, env@, old(self)@, pid),
        ensures
            handled.is_effect(
                final(self)@,
                word_effect(word@, env@, old(self)@, pid),
                word_usage(word@, env@, env.usage()),
                env,
                old(self)@,
            ),
    {
        let env: Env<'a> = match self.handle_drop(env, word, pid) {
            Err((env, Error::UnknownWord)) => env,
            result => return Handled::Settled(result),
        };
        let env: Env<'a> = match self.handle_dup(env, word, pid) {
            Err((env, Error::UnknownWord)) => env,
            result => return Handled::Settled(result),
        };
        let env: Env<'a> = match self.handle_swap(env, word, pid) {
            Err((env, Error::UnknownWord)) => env,
            result => return Handled::Settled(result),
        };
        let env: Env<'a> = match self.handle_rot(env, word, pid) {
            Err((env, Error::UnknownWord)) => env,
            result => return Handled::Settled(result),
        };
        let env: Env<'a> = match self.handle_over(env, word, pid) {
            Err((env, Error::UnknownWord)) => env,
            result => return Handled::Settled(result),
        };
        let env: Env<'a> = match self.handle_depth(env, word, pid) {
            Err((env, Error::UnknownWord)) => env,
            result => return Handled::Settled(result),
        };
        let env: Env<'a> = match self.handle_concat(env, word, pid) {
            Err((env, Error::UnknownWord)) => env,
            result => return Handled::Settled(result),
        };
        let env: Env<'a> = match self.handle_eval(env, word, pid) {
            Err((env, Error::UnknownWord)) => env,
            result => return Handled::Settled(result),
        };
        let env: Env<'a> = match self.handle_write(env, word, pid) {
            Err((env, Error::UnknownWord)) => env,
            result => return Handled::Asks(result),
        };
        let env: Env<'a> = match self.handle_read(env, word, pid) {
            Err((env, Error::UnknownWord)) => env,
            result => return Handled::Asks(result),
        };
        let env: Env<'a> = match self.handle_assoc(env, word, pid) {
            Err((env, Error::UnknownWord)) => env,
            result => return Handled::Asks(result),
        };
        let env: Env<'a> = match self.handle_assocq(env, word, pid) {
            Err((env, Error::UnknownWord)) => env,
            result => return Handled::Asks(result),
        };
        let env: Env<'a> = match self.handle_retr(env, word, pid) {
            Err((env, Error::UnknownWord)) => env,
            result => return Handled::Asks(result),
        };
        let env: Env<'a> = match self.handle_commit(env, word, pid) {
            Err((env, Error::UnknownWord)) => env,
            result => return Handled::Asks(result),
        };
        Handled::Settled(Err((env, Error::UnknownWord)))
    }

    /// Executes the first instruction of a program.
    #[verifier::rlimit(30)]
    pub fn pass<'a>(&mut self, env: Env<'a>, program: Vec<u8>, pid: EnvId) -> (pass: Pass<'a>)
        requires
            env.wf(),
            can_pass(program@, env@, old(self)@, pid),
        ensures
            final(self)@ == pass_outcome(program@, env@, old(self)@, pid).0,
            pass.is_outcome(
                pass_outcome(program@, env@, old(self)@, pid).1,
                pass_usage(program@, env@, env.usage()),
            ),
    {
        let ghost code = program@;
        let mut env = env;
        let mut program = program;
        let span: Span = env.copy_in(program.as_slice());
        if let Ok(data) = binparser::data(program.as_slice()) {
            let len: usize = data.len();
            let item = Span { start: span.start, len };
            assert(item.of(env.usage().memory) =~= program@.take(len as int));
            env.push_slot(Slot::Heap(item));
            let rest: Vec<u8> = program.split_off(len);
            assert(rest@ =~= code.skip(len as int));
            Pass::done(env, rest)
        } else if let Ok(word) = binparser::word_or_internal_word(program.as_slice()) {
            let len: usize = word.len();
            let ghost effect = word_effect(word@, env@, self@, pid);
            let ghost usage = word_usage(word@, env@, env.usage());
            let ghost before = env;
            let ghost locks = self@;
            proof {
                lemma_fails_for_good(word@, env@, env.usage(), self@, pid);
            }
            let handled: Handled<'a> = self.handle_word(env, word, pid);
            handled.carry_on(
                program,
                len,
                Ghost(effect),
                Ghost(usage),
                Ghost(before),
                Ghost(locks),
                Ghost(self@),
            )
        } else {
            Pass::Failed(env, Error::DecodingError)
        }
    }

    /// Goes on with a program that has waited for the store.
    pub fn resume<'a>(
        &mut self,
        env: Env<'a>,
        request: StorageRequest,
        program: Vec<u8>,
        pid: EnvId,
        reply: StorageReply,
    ) -> (pass: Pass<'a>)
        requires
            env.wf(),
        ensures
            final(self)@ == resume_outcome(
                request@,
                program@,
                env@,
                old(self)@,
                pid,
                answer_of(reply),
            ).0,
            pass.is_outcome(
                resume_outcome(request@, program@, env@, old(self)@, pid, answer_of(reply)).1,
                resume_usage(request@, env@, answer_of(reply), env.usage()),
            ),
    {
        match request {
            StorageRequest::Begin(txn) => match reply {
                Err(error) => Pass::Failed(env, Error::DatabaseError(error)),
                Ok(_) => {
                    match txn {
                        Txn::Write => {
                            self.db_write_txn = Some(pid);
                        },
                        Txn::Read => {
                            self.db_read_txn = Some(pid);
                        },
                    }
                    Pass::done(env, program)
                },
            },
            StorageRequest::End(_) => Pass::done(env, program),
            // whether it was committed or not, the transaction is over
            StorageRequest::Commit => Pass::done(env, program),
            StorageRequest::Put { .. } => match reply {
                Ok(_) => Pass::done(env, program),
                Err(StorageError::ValRejected(_)) => Pass::Failed(env, Error::DuplicateKey),
                Err(StorageError::Code(code)) => if code == KEYEXIST {
                    Pass::Failed(env, Error::DuplicateKey)
                } else {
                    Pass::Failed(env, Error::DatabaseError(StorageError::Code(code)))
                },
                Err(error) => Pass::Failed(env, Error::DatabaseError(error)),
            },
            StorageRequest::Get { .. } => match reply {
                Ok(Some(value)) => {
                    let mut env = env;
                    env.push_copy(value.as_slice());
                    Pass::done(env, program)
                },
                Ok(None) => Pass::Failed(env, Error::UnknownKey),
                Err(error) => Pass::Failed(env, Error::DatabaseError(error)),
            },
            StorageRequest::Has { .. } => match reply {
                Ok(Some(_)) => {
                    let mut env = env;
                    env.push(&TRUE);
                    assert(TRUE@ =~= true_value());
                    Pass::done(env, program)
                },
                Ok(None) => {
                    let mut env = env;
                    env.push(&FALSE);
                    assert(FALSE@ =~= false_value());
                    Pass::done(env, program)
                },
                Err(error) => Pass::Failed(env, Error::DatabaseError(error)),
            },
        }
    }

    /// Whether the first instruction of a program finds the values that it takes apart in the
    /// form that it needs them in.
    pub fn can_pass(&self, env: &Env, program: &[u8], pid: EnvId) -> (can: bool)
        requires
            env.wf(),
        ensures
            can == can_pass(program@, env@, self@, pid),
    {
        if binparser::data(program).is_ok() {
            return true;
        }
        match binparser::word_or_internal_word(program) {
            Err(_) => true,
            Ok(word) => {
                let depth: usize = env.stack_size();
                if same_bytes(word, &CONCAT) {
                    depth < 2 || concatenable(env.value(1), env.value(0))
                } else if depth == 0 {
                    true
                } else if same_bytes(word, &EVAL) {
                    binparser::data_size(env.value(0)).is_ok()
                } else if same_bytes(word, &WRITE) {
                    is_locked_out(self.db_write_txn, pid) || binparser::data_size(
                        env.value(0),
                    ).is_ok()
                } else if same_bytes(word, &READ) {
                    is_locked_out(self.db_read_txn, pid) || is_locked_out(self.db_write_txn, pid)
                        || binparser::data_size(env.value(0)).is_ok()
                } else {
                    true
                }
            },
        }
    }
}

/// No word ends a program with the error by which it is rescheduled, and a word that is
/// rescheduled takes up nothing.
proof fn lemma_fails_for_good(
    word: Seq<u8>,
    stack: Seq<Seq<u8>>,
    usage: Usage,
    locks: Locks,
    pid: EnvId,
)
    ensures
        word_effect(word, stack, locks, pid) matches Effect::Fail { error, .. } ==> error
            != Error::Reschedule,
        word_effect(word, stack, locks, pid) is Retry ==> word_usage(word, stack, usage) == usage,
{
}

/// Whether two values can be concatenated.
fn concatenable(a: &[u8], b: &[u8]) -> (can: bool)
    ensures
        can == can_concat(a@, b@),
{
    match (binparser::data_size(a), binparser::data_size(b)) {
        (Ok(size_a), Ok(size_b)) => {
            let declared: u64 = size_a as u64 + size_b as u64;
            let len_a: usize = payload(a).len();
            let len_b: usize = payload(b).len();
            if declared > MAX_SIZE || len_b as u64 >= MAX_SIZE || len_a as u64
                >= MAX_SIZE - len_b as u64 {
                return false;
            }
            let held: u64 = len_a as u64 + len_b as u64;
            held + size_field_len(held) <= usize::MAX as u64 && size_field_len(held)
                == size_field_len(declared)
        },
        _ => false,
    }
}

} // verus!
