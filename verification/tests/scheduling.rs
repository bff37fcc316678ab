use pumpkinscript::env::Env;
use pumpkinscript::error::Error;
use pumpkinscript::ids::EnvId;
use pumpkinscript::scheduler::{RequestMessage, ResponseMessage, Turn};
use pumpkinscript::vm::VM;
use pumpkinscript::words::{CONCAT, DEPTH, DROP, DUP, EVAL, OVER, ROT, SWAP};
use std::collections::VecDeque;

/// Runs programs until none is left, and returns what was sent, and where to.
fn run(programs: Vec<(EnvId, Vec<u8>, usize)>) -> Vec<(usize, ResponseMessage)> {
    let mut vm = VM::new();
    let mut queue = VecDeque::new();
    for (pid, program, chan) in programs {
        queue.push_back(RequestMessage::ScheduleEnv(pid, program, chan));
    }
    let mut sent = Vec::new();
    while let Some(message) = queue.pop_front() {
        match vm.receive(message) {
            Turn::Stop => break,
            Turn::Loopback(next) => queue.push_back(next),
            Turn::Respond(chan, response) => sent.push((chan, response)),
            Turn::Ask(_) => panic!("there is no store"),
        }
    }
    sent
}

/// A program of so many instructions.
fn pushes(count: usize) -> Vec<u8> {
    vec![0; count]
}

fn env_with<'a>(values: &[&'a [u8]]) -> Env<'a> {
    let mut env = Env::new();
    for value in values {
        env.push(value);
    }
    env
}

#[test]
fn environments_take_turns() {
    for (n, m) in [(1, 1), (1, 2), (2, 1), (3, 3), (5, 4), (4, 5), (9, 2)] {
        let sent = run(vec![
            (EnvId::new(), pushes(n), 0),
            (EnvId::new(), pushes(m), 1),
        ]);
        let order: Vec<usize> = sent.iter().map(|(chan, _)| *chan).collect();
        assert_eq!(order, if n <= m { vec![0, 1] } else { vec![1, 0] });
    }
}

#[test]
fn everybody_gets_one_response() {
    let first = EnvId::new();
    let second = EnvId::new();
    let third = EnvId::new();
    let mut failing = pushes(2);
    failing.extend_from_slice(&CONCAT);
    failing.extend_from_slice(&DROP);
    failing.extend_from_slice(&DROP);
    failing.push(0);
    let sent = run(vec![(first, pushes(3), 7), (second, failing, 8), (third, vec![], 7)]);
    assert_eq!(sent.len(), 3);
    match &sent[0] {
        (7, ResponseMessage::EnvFailed(pid, error, stack, 0)) => {
            assert_eq!(*pid, third);
            assert_eq!(*error, Error::DecodingError);
            assert!(stack.is_empty());
        }
        other => panic!("{:?}", other),
    }
    match &sent[1] {
        (7, ResponseMessage::EnvTerminated(pid, stack, 3)) => {
            assert_eq!(*pid, first);
            assert_eq!(*stack, vec![vec![0]; 3]);
        }
        other => panic!("{:?}", other),
    }
    match &sent[2] {
        (8, ResponseMessage::EnvFailed(pid, error, stack, 0)) => {
            assert_eq!(*pid, second);
            assert_eq!(*error, Error::EmptyStack);
            assert!(stack.is_empty());
        }
        other => panic!("{:?}", other),
    }
}

#[test]
fn nothing_is_executed_after_a_shutdown() {
    let mut vm = VM::new();
    let mut queue = VecDeque::from([
        RequestMessage::ScheduleEnv(EnvId::new(), pushes(1), 0),
        RequestMessage::Shutdown,
        RequestMessage::ScheduleEnv(EnvId::new(), pushes(1), 1),
    ]);
    let mut received = 0;
    let mut running = true;
    while running {
        received += 1;
        match vm.receive(queue.pop_front().unwrap()) {
            Turn::Stop => running = false,
            Turn::Loopback(next) => queue.push_back(next),
            Turn::Respond(_, response) => panic!("{:?}", response),
            Turn::Ask(_) => panic!("there is no store"),
        }
    }
    assert_eq!(received, 2);
    // one environment was scheduled and not executed, the other waits to be scheduled
    assert!(matches!(queue.pop_front(), Some(RequestMessage::ScheduleEnv(_, _, 1))));
    match queue.pop_front() {
        Some(RequestMessage::RescheduleEnv(_, program, env, 0)) => {
            assert_eq!(program, pushes(1));
            assert_eq!(env.stack_size(), 0);
        }
        other => panic!("{:?}", other),
    }
    assert!(queue.is_empty());
}

#[test]
fn words_of_the_stack_inject_no_code() {
    let pid = EnvId::new();
    let mut vm = VM::new();
    let values: [&[u8]; 3] = [b"\x03\x01\x02\x03", b"\x03\x03\x02\x01", b"\x01\x00"];
    let (a, b, c) = (values[0], values[1], values[2]);
    for (result, stack) in [
        (vm.handle_drop(env_with(&values), &DROP, pid), vec![a, b]),
        (vm.handle_dup(env_with(&values), &DUP, pid), vec![a, b, c, c]),
        (vm.handle_swap(env_with(&values), &SWAP, pid), vec![a, c, b]),
        (vm.handle_rot(env_with(&values), &ROT, pid), vec![b, c, a]),
        (vm.handle_over(env_with(&values), &OVER, pid), vec![a, b, c, b]),
        (vm.handle_depth(env_with(&values), &DEPTH, pid), vec![a, b, c, b"\x01\x03"]),
        (
            vm.handle_concat(env_with(&values), &CONCAT, pid),
            vec![a, b"\x04\x03\x02\x01\x00"],
        ),
    ] {
        match result {
            Ok((env, injection)) => {
                assert_eq!(injection, None);
                assert_eq!(env.stack(), stack);
            }
            Err((_, error)) => panic!("{:?}", error),
        }
    }
}

#[test]
fn eval_injects_code_even_if_there_is_none() {
    let mut vm = VM::new();
    for (value, code) in [(&b"\x00"[..], vec![]), (b"\x02\x01\x09", vec![1, 9])] {
        match vm.handle_eval(env_with(&[value]), &EVAL, EnvId::new()) {
            Ok((env, injection)) => {
                assert_eq!(injection, Some(code));
                assert_eq!(env.stack_size(), 0);
            }
            Err((_, error)) => panic!("{:?}", error),
        }
    }
    match vm.handle_eval(Env::new(), &EVAL, EnvId::new()) {
        Ok(_) => panic!("there was nothing to run"),
        Err((_, error)) => assert_eq!(error, Error::EmptyStack),
    }
}
