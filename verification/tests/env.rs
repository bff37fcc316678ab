use pumpkinscript::ids::EnvId;
use pumpkinscript::storage::{StorageRequest, Txn};
use pumpkinscript::vm::{Pass, VM};
use pumpkinscript::words::{DUP, OVER, SWAP};
use pumpkinscript::{Env, HEAP_SIZE, STACK_SIZE};

const EMPTY: &[u8] = b"";

#[test]
fn env_stack_growth() {
    let mut env = Env::new();
    let target = env.stack_slots() * 100;
    for _ in 1..target {
        env.push(EMPTY);
    }
    assert!(env.stack_slots() >= target);
}

#[test]
fn env_heap_growth() {
    let mut env = Env::new();
    let sz = env.heap_size();
    for _ in 1..100 {
        env.allocate(sz);
    }
    assert!(env.heap_size() >= sz * 100);
}

#[test]
fn new_environments() {
    let env = Env::new();
    assert_eq!(env.stack_slots(), STACK_SIZE);
    assert_eq!(env.heap_size(), HEAP_SIZE);
    assert_eq!(env.stack_size(), 0);
    assert_eq!(env.stack_top(), None);

    let mut env = Env::new_with_stack_size(3);
    assert_eq!(env.stack_slots(), 3);
    for value in [&[1][..], &[2], &[3]] {
        env.push(value);
    }
    assert_eq!(env.stack_slots(), 3);
    env.push(&[4]);
    assert_eq!(env.stack_slots(), 3 + STACK_SIZE);
    assert_eq!(env.stack(), vec![&[1][..], &[2], &[3], &[4]]);
}

#[test]
fn existing_stacks() {
    let stack = vec![&[1][..], &[2, 3], &[4]];
    let mut env = Env::new_with_stack(stack, 2);
    assert_eq!(env.stack_slots(), 3);
    assert_eq!(env.stack(), vec![&[1][..], &[2, 3]]);
    env.push(&[5, 6, 7]);
    assert_eq!(env.stack_slots(), 3);
    assert_eq!(env.stack(), vec![&[1][..], &[2, 3], &[5, 6, 7]]);
    assert_eq!(env.heap_size(), HEAP_SIZE);
}

#[test]
fn last_in_first_out() {
    let mut env = Env::new();
    env.push(b"one");
    env.push(b"");
    env.push(b"three");
    assert_eq!(env.stack_top(), Some(&b"three"[..]));
    assert_eq!(env.stack_size(), 3);
    assert_eq!(env.pop(), Some(&b"three"[..]));
    assert_eq!(env.pop(), Some(&b""[..]));
    assert_eq!(env.pop(), Some(&b"one"[..]));
    assert_eq!(env.pop(), None);
    assert_eq!(env.stack_size(), 0);
}

#[test]
fn allocations_disturb_nothing() {
    let mut env = Env::new();
    env.push(b"before");
    {
        let first = env.allocate(4);
        assert_eq!(first.len(), 4);
        first.copy_from_slice(b"aaaa");
    }
    env.push(b"between");
    for byte in env.allocate(5 * HEAP_SIZE) {
        *byte = 9;
    }
    env.push(b"after");
    assert_eq!(env.stack(), vec![&b"before"[..], b"between", b"after"]);
}

#[test]
fn the_heap_grows_by_what_is_needed() {
    let mut env = Env::new();
    env.allocate(HEAP_SIZE - 1);
    assert_eq!(env.heap_size(), HEAP_SIZE);
    env.allocate(1);
    assert_eq!(env.heap_size(), 2 * HEAP_SIZE);
    env.allocate(3 * HEAP_SIZE);
    assert_eq!(env.heap_size(), 5 * HEAP_SIZE);
}

#[test]
fn values_are_pushed_without_their_bytes() {
    let value = vec![7; 40_000];
    let mut env = Env::new();
    env.push(&value);
    assert_eq!(env.heap_size(), HEAP_SIZE);
    assert_eq!(env.stack_top(), Some(&value[..]));

    let stack = vec![&value[..], &value];
    let env = Env::new_with_stack(stack, 2);
    assert_eq!(env.heap_size(), HEAP_SIZE);
}

#[test]
fn values_are_moved_without_their_bytes() {
    let mut value = vec![122, 0x4E, 0x20];
    value.extend_from_slice(&[7; 20_000]);
    for word in [&DUP[..], &SWAP, &OVER] {
        let mut vm = VM::new();
        let pid = EnvId::new();
        let mut env = Env::new();
        env.push(&[1]);
        let mut program = value.clone();
        program.extend_from_slice(word);
        match vm.pass(env, program, pid) {
            Pass::Done(env, Some(program)) => match vm.pass(env, program, pid) {
                Pass::Done(env, None) => {
                    assert_eq!(env.heap_size(), HEAP_SIZE);
                    assert!(env.stack().contains(&&value[..]));
                }
                _ => panic!("the word was not executed"),
            },
            _ => panic!("the value was not pushed"),
        }
    }
}

#[test]
fn of_the_answers_only_values_take_up_the_heap() {
    let mut env = Env::new();
    env.allocate(HEAP_SIZE - 1);
    let request = StorageRequest::Has { txn: Txn::Read, key: vec![0] };
    match VM::new().resume(env, request, vec![], EnvId::new(), Ok(None)) {
        Pass::Done(env, None) => {
            assert_eq!(env.stack(), vec![&[1, 0][..]]);
            assert_eq!(env.heap_size(), HEAP_SIZE);
        }
        _ => panic!("the answer was not pushed"),
    }

    let mut env = Env::new();
    env.allocate(HEAP_SIZE - 1);
    let request = StorageRequest::Get { txn: Txn::Read, key: vec![0] };
    match VM::new().resume(env, request, vec![], EnvId::new(), Ok(Some(vec![1, 0]))) {
        Pass::Done(env, None) => {
            assert_eq!(env.stack(), vec![&[1, 0][..]]);
            assert_eq!(env.heap_size(), 2 * HEAP_SIZE);
        }
        _ => panic!("the value was not pushed"),
    }
}

#[test]
fn environments_are_not_printed_with_what_they_hold() {
    let mut env = Env::new();
    assert_eq!(format!("{:?}", env), "Env()");
    env.push(b"value");
    assert_eq!(format!("{:?}", Some(env)), "Some(Env())");
}
