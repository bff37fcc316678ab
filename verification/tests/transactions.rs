use pumpkinscript::env::Env;
use pumpkinscript::error::{Error, StorageError, KEYEXIST};
use pumpkinscript::ids::EnvId;
use pumpkinscript::scheduler::{RequestMessage, Turn};
use pumpkinscript::storage::{StorageReply, StorageRequest, Txn};
use pumpkinscript::vm::{Pass, VM};
use pumpkinscript::words::{
    ASSOC, ASSOCQ, COMMIT, CONCAT, DUP, EVAL, READ, READ_END, RETR, WRITE, WRITE_END,
};

fn env_with<'a>(values: &[&'a [u8]]) -> Env<'a> {
    let mut env = Env::new();
    for value in values {
        env.push(value);
    }
    env
}

/// A VM in which somebody holds a transaction.
fn held(txn: Txn, pid: EnvId) -> VM {
    let mut vm = VM::new();
    vm.resume(Env::new(), StorageRequest::Begin(txn), vec![0], pid, Ok(None));
    vm
}

/// What an instruction asks of the store, with the program to go on with and the size of the
/// stack.
fn asked(pass: Pass<'_>) -> (StorageRequest, Vec<u8>, usize) {
    match pass {
        Pass::Waiting(env, request, program) => (request, program, env.stack_size()),
        _ => panic!("the store was not asked"),
    }
}

/// What an instruction leaves to be run, with the stack.
fn done(pass: Pass<'_>) -> (Option<Vec<u8>>, Vec<Vec<u8>>) {
    match pass {
        Pass::Done(env, program) => {
            (program, env.stack().into_iter().map(|value| value.to_vec()).collect())
        }
        _ => panic!("the instruction was not executed"),
    }
}

fn failed(pass: Pass<'_>) -> Error {
    match pass {
        Pass::Failed(_, error) => error,
        _ => panic!("the instruction did not fail"),
    }
}

#[test]
fn locked_out_words_are_rescheduled_from_the_same_point() {
    let owner = EnvId::new();
    let other = EnvId::new();
    for word in [&WRITE[..], &WRITE_END, &READ, &READ_END, &ASSOC, &ASSOCQ, &RETR, &COMMIT] {
        let mut vm = held(Txn::Write, owner);
        let pass = vm.pass(env_with(&[&[1, 2], &[0]]), word.to_vec(), other);
        assert_eq!(done(pass), (Some(word.to_vec()), vec![vec![1, 2], vec![0]]));
    }
    for word in [&READ[..], &READ_END] {
        let mut vm = held(Txn::Read, owner);
        let pass = vm.pass(env_with(&[&[0]]), word.to_vec(), other);
        assert_eq!(done(pass), (Some(word.to_vec()), vec![vec![0]]));
    }
}

#[test]
fn the_holder_is_not_locked_out() {
    let owner = EnvId::new();
    let mut vm = held(Txn::Write, owner);
    let pass = vm.pass(env_with(&[&[1, 2], &[1, 3]]), ASSOC.to_vec(), owner);
    let request = StorageRequest::Put { key: vec![1, 2], value: vec![1, 3] };
    assert_eq!(asked(pass), (request, vec![], 0));
    let pass = vm.pass(env_with(&[&[1, 2]]), RETR.to_vec(), owner);
    let request = StorageRequest::Get { txn: Txn::Write, key: vec![1, 2] };
    assert_eq!(asked(pass), (request, vec![], 0));
}

#[test]
fn a_transaction_is_over_at_its_end() {
    let owner = EnvId::new();
    let other = EnvId::new();
    for word in [&WRITE_END[..], &COMMIT] {
        let mut vm = held(Txn::Write, owner);
        let mut program = word.to_vec();
        program.push(0);
        let (request, rest, _) = asked(vm.pass(Env::new(), program, owner));
        assert_eq!(rest, vec![0]);
        assert!(matches!(request, StorageRequest::End(Txn::Write) | StorageRequest::Commit));
        // whatever comes of it, somebody else can have the next one
        let reply = Err(StorageError::Code(5));
        let (left, _) = done(vm.resume(Env::new(), request, rest, owner, reply));
        assert_eq!(left, Some(vec![0]));
        let (request, _, _) = asked(vm.pass(env_with(&[&[0]]), WRITE.to_vec(), other));
        assert_eq!(request, StorageRequest::Begin(Txn::Write));
    }
}

#[test]
fn code_in_a_transaction_is_followed_by_its_end() {
    let pid = EnvId::new();
    for (word, end, txn) in [
        (&WRITE[..], &WRITE_END[..], Txn::Write),
        (&READ[..], &READ_END[..], Txn::Read),
    ] {
        let mut program = word.to_vec();
        program.extend_from_slice(&DUP);
        let pass = VM::new().pass(env_with(&[&[2, 1, 7]]), program, pid);
        let mut expected = vec![1, 7];
        expected.extend_from_slice(end);
        expected.extend_from_slice(&DUP);
        assert_eq!(asked(pass), (StorageRequest::Begin(txn), expected, 0));
    }
}

#[test]
fn lookups_prefer_the_write_transaction() {
    let pid = EnvId::new();
    let mut vm = held(Txn::Read, EnvId::new());
    let (request, _, _) = asked(vm.pass(env_with(&[&[0]]), ASSOCQ.to_vec(), pid));
    assert_eq!(request, StorageRequest::Has { txn: Txn::Read, key: vec![0] });
    vm.resume(Env::new(), StorageRequest::Begin(Txn::Write), vec![0], pid, Ok(None));
    let (request, _, _) = asked(vm.pass(env_with(&[&[0]]), ASSOCQ.to_vec(), pid));
    assert_eq!(request, StorageRequest::Has { txn: Txn::Write, key: vec![0] });
}

#[test]
fn replies_to_a_put() {
    let pid = EnvId::new();
    let reply_to = |reply: StorageReply| {
        let request = StorageRequest::Put { key: vec![0], value: vec![0] };
        held(Txn::Write, pid).resume(Env::new(), request, vec![], pid, reply)
    };
    assert_eq!(done(reply_to(Ok(None))), (None, vec![]));
    let rejected = StorageError::ValRejected("there already".to_string());
    assert_eq!(failed(reply_to(Err(rejected))), Error::DuplicateKey);
    assert_eq!(failed(reply_to(Err(StorageError::Code(KEYEXIST)))), Error::DuplicateKey);
    for error in [StorageError::Code(1), StorageError::Mismatch, StorageError::NulStr] {
        assert_eq!(failed(reply_to(Err(error.clone()))), Error::DatabaseError(error));
    }
}

#[test]
fn replies_to_a_lookup() {
    let pid = EnvId::new();
    let get = || StorageRequest::Get { txn: Txn::Read, key: vec![0] };
    let has = || StorageRequest::Has { txn: Txn::Read, key: vec![0] };
    let reply_to = |request: StorageRequest, reply: StorageReply| {
        held(Txn::Read, pid).resume(env_with(&[&[9]]), request, vec![0], pid, reply)
    };
    let rest = Some(vec![0]);
    let pass = reply_to(get(), Ok(Some(vec![1, 5])));
    assert_eq!(done(pass), (rest.clone(), vec![vec![9], vec![1, 5]]));
    assert_eq!(failed(reply_to(get(), Ok(None))), Error::UnknownKey);
    let pass = reply_to(has(), Ok(Some(vec![1, 5])));
    assert_eq!(done(pass), (rest.clone(), vec![vec![9], vec![1, 1]]));
    assert_eq!(done(reply_to(has(), Ok(None))), (rest, vec![vec![9], vec![1, 0]]));
    let error = StorageError::Reopened;
    for request in [get(), has(), StorageRequest::Begin(Txn::Read)] {
        let pass = reply_to(request, Err(error.clone()));
        assert_eq!(failed(pass), Error::DatabaseError(error.clone()));
    }
}

#[test]
fn a_transaction_that_is_not_opened_is_not_held() {
    let mut vm = VM::new();
    let begin = StorageRequest::Begin(Txn::Write);
    vm.resume(Env::new(), begin, vec![0], EnvId::new(), Err(StorageError::Code(1)));
    let (request, _, _) = asked(vm.pass(env_with(&[&[0]]), WRITE.to_vec(), EnvId::new()));
    assert_eq!(request, StorageRequest::Begin(Txn::Write));
}

#[test]
fn values_that_cannot_be_taken_apart() {
    let pid = EnvId::new();
    let vm = VM::new();
    for word in [&EVAL[..], &WRITE, &READ] {
        assert!(!vm.can_pass(&env_with(&[&[]]), word, pid));
        assert!(!vm.can_pass(&env_with(&[&[124]]), word, pid));
        assert!(vm.can_pass(&env_with(&[&[0]]), word, pid));
        assert!(vm.can_pass(&env_with(&[]), word, pid));
    }
    assert!(!vm.can_pass(&env_with(&[&[0], &[]]), &CONCAT, pid));
    assert!(!vm.can_pass(&env_with(&[&[], &[0]]), &CONCAT, pid));
    assert!(vm.can_pass(&env_with(&[&[0], &[1, 7]]), &CONCAT, pid));
    assert!(vm.can_pass(&env_with(&[&[]]), &CONCAT, pid));
    assert!(vm.can_pass(&env_with(&[&[]]), &DUP, pid));
    // a locked out word does not look at the values
    let vm = held(Txn::Write, EnvId::new());
    assert!(vm.can_pass(&env_with(&[&[]]), &WRITE, pid));
    assert!(vm.can_pass(&env_with(&[&[]]), &READ, pid));
    assert!(!vm.can_pass(&env_with(&[&[]]), &EVAL, pid));
}

#[test]
fn messages() {
    let mut vm = VM::new();
    let pid = EnvId::new();
    assert!(matches!(vm.receive(RequestMessage::<u8>::Shutdown), Turn::Stop));
    match vm.receive(RequestMessage::ScheduleEnv(pid, vec![1, 7, 0], 5u8)) {
        Turn::Loopback(RequestMessage::RescheduleEnv(id, program, env, chan)) => {
            assert_eq!((id, chan), (pid, 5));
            assert_eq!(program, vec![1, 7, 0]);
            assert_eq!(env.stack_size(), 0);
            // one instruction at a time
            match vm.receive(RequestMessage::RescheduleEnv(id, program, env, chan)) {
                Turn::Loopback(RequestMessage::RescheduleEnv(id, program, env, chan)) => {
                    assert_eq!((id, chan), (pid, 5));
                    assert_eq!(program, vec![0]);
                    assert_eq!(env.stack(), vec![&[1, 7][..]]);
                }
                _ => panic!("the program has not ended"),
            }
        }
        _ => panic!("the program has not ended"),
    }
}
