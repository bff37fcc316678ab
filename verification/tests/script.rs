use pumpkinscript::env::Env;
use pumpkinscript::error::{Error, StorageError, KEYEXIST};
use pumpkinscript::ids::EnvId;
use pumpkinscript::scheduler::{RequestMessage, ResponseMessage, Turn};
use pumpkinscript::storage::{StorageReply, StorageRequest, Txn};
use pumpkinscript::vm::VM;
use std::collections::{BTreeMap, VecDeque};

/// The instruction that pushes a value.
fn push_of(value: &[u8]) -> Vec<u8> {
    let mut item = match value.len() {
        0..=120 => vec![value.len() as u8],
        121..=255 => vec![121, value.len() as u8],
        256..=65535 => vec![122, (value.len() >> 8) as u8, value.len() as u8],
        _ => vec![
            123,
            (value.len() >> 24) as u8,
            (value.len() >> 16) as u8,
            (value.len() >> 8) as u8,
            value.len() as u8,
        ],
    };
    item.extend_from_slice(value);
    item
}

/// The binary form of the items of a text up to its end, or to a closing bracket.
fn assemble(text: &mut VecDeque<char>) -> Vec<u8> {
    let mut program = Vec::new();
    while let Some(first) = text.pop_front() {
        match first {
            ' ' => {}
            ']' => return program,
            '[' => program.extend(push_of(&assemble(text))),
            '"' => {
                let mut value = String::new();
                loop {
                    match text.pop_front() {
                        Some('"') => break,
                        Some(c) => value.push(c),
                        None => panic!("a string has no end"),
                    }
                }
                program.extend(push_of(value.as_bytes()));
            }
            _ => {
                let mut token = first.to_string();
                while let Some(&c) = text.front() {
                    if c == ' ' || c == ']' {
                        break;
                    }
                    token.push(c);
                    text.pop_front();
                }
                if let Some(hex) = token.strip_prefix("0x") {
                    let digits: Vec<u8> =
                        hex.chars().map(|c| c.to_digit(16).unwrap() as u8).collect();
                    let value: Vec<u8> = digits.chunks(2).map(|d| d[0] * 16 + d[1]).collect();
                    program.extend(push_of(&value));
                } else if let Ok(number) = token.parse::<u8>() {
                    program.extend(push_of(&[number]));
                } else {
                    program.push(128 + token.len() as u8);
                    program.extend_from_slice(token.as_bytes());
                }
            }
        }
    }
    program
}

/// The binary form of a text.
fn parse(text: &str) -> Result<Vec<u8>, ()> {
    Ok(assemble(&mut text.chars().collect()))
}

type Entries = BTreeMap<Vec<u8>, Vec<u8>>;

/// A store in memory.
#[derive(Default)]
struct Store {
    committed: Entries,
    write: Option<Entries>,
    read: Option<Entries>,
}

impl Store {
    fn look_up(&self, txn: Txn, key: &[u8]) -> StorageReply {
        let entries = match txn {
            Txn::Write => &self.write,
            Txn::Read => &self.read,
        };
        Ok(entries.as_ref().unwrap().get(key).cloned())
    }

    fn perform(&mut self, request: &StorageRequest) -> StorageReply {
        match request {
            StorageRequest::Begin(Txn::Write) => self.write = Some(self.committed.clone()),
            StorageRequest::Begin(Txn::Read) => self.read = Some(self.committed.clone()),
            StorageRequest::End(Txn::Write) => self.write = None,
            StorageRequest::End(Txn::Read) => self.read = None,
            StorageRequest::Put { key, value } => {
                let entries = self.write.as_mut().unwrap();
                if entries.contains_key(key) {
                    return Err(StorageError::Code(KEYEXIST));
                }
                entries.insert(key.clone(), value.clone());
            }
            StorageRequest::Get { txn, key } => return self.look_up(*txn, key),
            StorageRequest::Has { txn, key } => return self.look_up(*txn, key),
            StorageRequest::Commit => self.committed = self.write.take().unwrap(),
        }
        Ok(None)
    }
}

/// An environment with a result stack.
fn env_of(stack: Vec<Vec<u8>>, size: usize) -> Env<'static> {
    Env::new_with_stack(stack.into_iter().map(|value| &*value.leak()).collect(), size)
}

/// Runs programs side by side until all of them have ended, and returns the responses in the
/// order of the programs.
fn run_all(programs: Vec<Vec<u8>>, store: &mut Store) -> Vec<(Result<(), Error>, Env<'static>)> {
    let mut vm = VM::new();
    let mut ended: Vec<Option<(Result<(), Error>, Env<'static>)>> = Vec::new();
    let mut inbox = VecDeque::new();
    for (i, program) in programs.into_iter().enumerate() {
        ended.push(None);
        inbox.push_back(RequestMessage::ScheduleEnv(EnvId::new(), program, i));
    }
    while let Some(message) = inbox.pop_front() {
        if let RequestMessage::RescheduleEnv(pid, program, env, _) = &message {
            assert!(vm.can_pass(env, program, *pid));
        }
        let mut turn = vm.receive(message);
        if let Turn::Ask(waiting) = turn {
            let reply = store.perform(&waiting.request);
            turn = vm.settle(waiting, reply);
        }
        match turn {
            Turn::Loopback(next) => inbox.push_back(next),
            Turn::Respond(i, ResponseMessage::EnvTerminated(_, stack, size)) => {
                ended[i] = Some((Ok(()), env_of(stack, size)));
            }
            Turn::Respond(i, ResponseMessage::EnvFailed(_, error, stack, size)) => {
                ended[i] = Some((Err(error), env_of(stack, size)));
            }
            Turn::Ask(_) => panic!("the store was asked twice"),
            Turn::Stop => panic!("nobody asked for that"),
        }
    }
    ended.into_iter().map(|end| end.unwrap()).collect()
}

/// Runs a program, on a store of its own, and returns what became of it.
fn run(program: Vec<u8>) -> (Result<(), Error>, Env<'static>) {
    run_all(vec![program], &mut Store::default()).pop().unwrap()
}

/// Runs a text, and returns what became of it.
fn execute(text: &str) -> (Result<(), Error>, Env<'static>) {
    run(parse(text).unwrap())
}

#[test]
fn drop() {
    let (_, mut env) = execute("0x010203 DROP");
    assert_eq!(env.pop(), None);

    let (result, _) = execute("DROP");
    assert!(matches!(result.err(), Some(Error::EmptyStack)));
}

#[test]
fn dup() {
    let (_, mut env) = execute("0x010203 DUP");
    assert_eq!(Vec::from(env.pop().unwrap()), parse("0x010203").unwrap());
    assert_eq!(Vec::from(env.pop().unwrap()), parse("0x010203").unwrap());
    assert_eq!(env.pop(), None);

    let (result, _) = execute("DUP");
    assert!(matches!(result.err(), Some(Error::EmptyStack)));
}

#[test]
fn swap() {
    let (_, mut env) = execute("0x010203 0x030201 SWAP");
    assert_eq!(Vec::from(env.pop().unwrap()), parse("0x010203").unwrap());
    assert_eq!(Vec::from(env.pop().unwrap()), parse("0x030201").unwrap());
    assert_eq!(env.pop(), None);

    let (result, _) = execute("SWAP");
    assert!(matches!(result.err(), Some(Error::EmptyStack)));

    let (result, _) = execute("0x10 SWAP");
    assert!(matches!(result.err(), Some(Error::EmptyStack)));
}

#[test]
fn rot() {
    let (_, mut env) = execute("0x010203 0x030201 0x00 ROT");
    assert_eq!(Vec::from(env.pop().unwrap()), parse("0x010203").unwrap());
    assert_eq!(Vec::from(env.pop().unwrap()), parse("0x00").unwrap());
    assert_eq!(Vec::from(env.pop().unwrap()), parse("0x030201").unwrap());
    assert_eq!(env.pop(), None);

    let (result, _) = execute("0x010203 0x030201 ROT");
    assert!(matches!(result.err(), Some(Error::EmptyStack)));

    let (result, _) = execute("0x010203 ROT");
    assert!(matches!(result.err(), Some(Error::EmptyStack)));

    let (result, _) = execute("ROT");
    assert!(matches!(result.err(), Some(Error::EmptyStack)));
}

#[test]
fn over() {
    let (_, mut env) = execute("0x010203 0x00 OVER");
    assert_eq!(Vec::from(env.pop().unwrap()), parse("0x010203").unwrap());
    assert_eq!(Vec::from(env.pop().unwrap()), parse("0x00").unwrap());
    assert_eq!(Vec::from(env.pop().unwrap()), parse("0x010203").unwrap());

    let (result, _) = execute("0x00 OVER");
    assert!(matches!(result.err(), Some(Error::EmptyStack)));

    let (result, _) = execute("OVER");
    assert!(matches!(result.err(), Some(Error::EmptyStack)));
}

#[test]
fn depth() {
    let (_, mut env) = execute("0x010203 0x00 \"Hello\" DEPTH");
    assert_eq!(Vec::from(env.pop().unwrap()), parse("3").unwrap());
}

#[test]
fn concat() {
    let (_, mut env) = execute("0x10 0x20 CONCAT");
    assert_eq!(Vec::from(env.pop().unwrap()), parse("0x1020").unwrap());
    assert_eq!(env.pop(), None);

    let (result, _) = execute("0x20 CONCAT");
    assert!(matches!(result.err(), Some(Error::EmptyStack)));

    let (result, _) = execute("CONCAT");
    assert!(matches!(result.err(), Some(Error::EmptyStack)));
}

#[test]
fn eval() {
    let (_, mut env) = execute("[0x01 DUP [DUP] EVAL] EVAL DROP");
    assert_eq!(Vec::from(env.pop().unwrap()), parse("0x01").unwrap());
    assert_eq!(Vec::from(env.pop().unwrap()), parse("0x01").unwrap());
    assert_eq!(env.pop(), None);

    let (result, _) = execute("EVAL");
    assert!(matches!(result.err(), Some(Error::EmptyStack)));
}

#[test]
fn invalid_eval() {
    let (result, _) = execute("0x10 EVAL");
    assert!(result.is_err());
    assert!(matches!(result.err(), Some(Error::DecodingError)));
}

#[test]
fn write() {
    let (result, mut env) =
        execute("[\"Hello\" \"world\" ASSOC COMMIT] WRITE [\"Hello\" RETR] READ");
    assert!(!result.is_err());
    assert_eq!(Vec::from(env.pop().unwrap()), parse("\"world\"").unwrap());

    // overwrite
    let (result, _) =
        execute("[\"Hello\" \"world\" ASSOC \"Hello\" \"world\" ASSOC COMMIT] WRITE");
    assert!(result.is_err());

    // missing key
    let (result, _) =
        execute("[\"Hello\" \"world\" ASSOC COMMIT] WRITE [\"world\" RETR] READ");
    assert!(result.is_err());
}

#[test]
fn assocq() {
    let (result, mut env) = execute(
        "[\"Hello\" \"world\" ASSOC COMMIT] WRITE [\"Hello\" ASSOC? \"Bye\" ASSOC?] READ",
    );
    assert!(!result.is_err());
    assert_eq!(Vec::from(env.pop().unwrap()), parse("0x00").unwrap());
    assert_eq!(Vec::from(env.pop().unwrap()), parse("0x01").unwrap());
}

#[test]
fn commit() {
    let (result, _) = execute("[\"Hey\" \"everybody\" ASSOC] WRITE [\"Hey\" RETR] READ");
    assert!(result.is_err());
}

#[test]
fn underflow_takes_what_there_is() {
    for text in ["0x10 SWAP", "0x10 OVER", "0x10 CONCAT", "0x10 0x20 ROT"] {
        let (result, env) = execute(text);
        assert_eq!(result, Err(Error::EmptyStack));
        assert_eq!(env.stack_size(), 0);
    }
}

#[test]
fn other_values_stay_where_they_are() {
    let (_, env) = execute("0x01 0x02 0x03 0x04 ROT");
    assert_eq!(env.stack(), vec![&[1, 1][..], &[1, 3], &[1, 4], &[1, 2]]);
    let (_, env) = execute("0x01 0x02 0x03 SWAP");
    assert_eq!(env.stack(), vec![&[1, 1][..], &[1, 3], &[1, 2]]);
    let (_, env) = execute("0x01 0x02 0x03 OVER");
    assert_eq!(env.stack(), vec![&[1, 1][..], &[1, 2], &[1, 3], &[1, 2]]);
    let (_, env) = execute("0x01 0x02 0x03 CONCAT");
    assert_eq!(env.stack(), vec![&[1, 1][..], &[2, 2, 3]]);
}

#[test]
fn words_undo_each_other() {
    let (_, expected) = execute("0x01 0x02 0x03");
    for text in [
        "0x01 0x02 0x03 DUP DROP",
        "0x01 0x02 0x03 OVER DROP",
        "0x01 0x02 0x03 SWAP SWAP",
        "0x01 0x02 0x03 ROT ROT ROT",
    ] {
        let (result, env) = execute(text);
        assert!(result.is_ok());
        assert_eq!(env.stack(), expected.stack());
    }
}

#[test]
fn concat_associates() {
    let (_, left) = execute("\"ab\" \"cde\" CONCAT \"f\" CONCAT");
    let (_, right) = execute("\"ab\" \"cde\" \"f\" CONCAT CONCAT");
    assert_eq!(left.stack_top(), Some(&b"\x06abcdef"[..]));
    assert_eq!(left.stack(), right.stack());
}

#[test]
fn concat_widens_the_size_field() {
    let mut program = push_of(&[7; 100]);
    program.extend(push_of(&[8; 100]));
    program.extend(parse("CONCAT").unwrap());
    let (_, env) = run(program);
    let mut expected = vec![121, 200];
    expected.extend_from_slice(&[7; 100]);
    expected.extend_from_slice(&[8; 100]);
    assert_eq!(env.stack_top(), Some(&expected[..]));
}

#[test]
fn depth_has_its_least_significant_byte_first() {
    let (_, env) = execute("DEPTH");
    assert_eq!(env.stack_top(), Some(&[1, 0][..]));

    let mut text = "0x01 ".repeat(300);
    text.push_str("DEPTH");
    let (_, env) = execute(&text);
    assert_eq!(env.stack_top(), Some(&[2, 0x2C, 0x01][..]));
    assert_eq!(env.stack_size(), 301);
}

#[test]
fn evaluated_code_stands_in_the_program() {
    let (_, expected) = execute("0x01 0x02 0x03 SWAP");
    let (_, env) = execute("[0x01 0x02] EVAL 0x03 SWAP");
    assert_eq!(env.stack(), expected.stack());
    let (result, env) = execute("[] EVAL");
    assert!(result.is_ok());
    assert_eq!(env.stack_size(), 0);
}

#[test]
fn unknown_word() {
    let (result, env) = execute("0x01 FOO");
    assert_eq!(result, Err(Error::UnknownWord));
    assert_eq!(env.stack(), vec![&[1, 1][..]]);
}

#[test]
fn programs_that_cannot_be_decoded() {
    for program in [
        vec![],
        vec![5, 1],
        vec![124],
        vec![127],
        vec![128],
        vec![0x84, 0x44],
        vec![121, 3, 1, 2, 3],
    ] {
        assert_eq!(run(program).0, Err(Error::DecodingError));
    }
}

#[test]
fn no_transaction() {
    for (text, size) in [
        ("0x01 0x02 ASSOC", 2),
        ("COMMIT", 0),
        ("0x01 RETR", 0),
        ("0x01 ASSOC?", 0),
        ("[0x01 0x02 ASSOC] READ", 2),
        ("[COMMIT COMMIT] WRITE", 0),
    ] {
        let (result, env) = execute(text);
        assert_eq!(result, Err(Error::NoTransaction));
        assert_eq!(env.stack_size(), size);
    }
}

#[test]
fn storage_words_on_an_empty_stack() {
    for text in ["WRITE", "READ", "RETR", "ASSOC?", "[ASSOC] WRITE", "[0x01 ASSOC] WRITE"] {
        let (result, env) = execute(text);
        assert_eq!(result, Err(Error::EmptyStack));
        assert_eq!(env.stack_size(), 0);
    }
}

#[test]
fn duplicate_and_unknown_keys() {
    let (result, _) = execute("[\"k\" \"v\" ASSOC \"k\" \"w\" ASSOC COMMIT] WRITE");
    assert_eq!(result, Err(Error::DuplicateKey));
    let (result, env) = execute("0x01 [\"k\" RETR] READ");
    assert_eq!(result, Err(Error::UnknownKey));
    assert_eq!(env.stack(), vec![&[1, 1][..]]);
    let (result, _) = execute("[\"Hey\" \"everybody\" ASSOC] WRITE [\"Hey\" RETR] READ");
    assert_eq!(result, Err(Error::UnknownKey));
}

#[test]
fn a_write_transaction_sees_what_it_wrote() {
    let mut store = Store::default();
    let program =
        parse("[\"k\" \"v\" ASSOC \"k\" RETR \"k\" ASSOC? \"x\" ASSOC?] WRITE").unwrap();
    let (result, env) = run_all(vec![program], &mut store).pop().unwrap();
    assert!(result.is_ok());
    assert_eq!(env.stack(), vec![&b"\x01v"[..], &[1, 1], &[1, 0]]);
    assert!(store.committed.is_empty());
    assert!(store.write.is_none());
}

#[test]
fn keys_and_values_are_recorded_with_their_size() {
    let mut store = Store::default();
    let program = parse("[\"Hello\" \"world\" ASSOC COMMIT] WRITE").unwrap();
    run_all(vec![program], &mut store);
    let expected = BTreeMap::from([(b"\x05Hello".to_vec(), b"\x05world".to_vec())]);
    assert_eq!(store.committed, expected);
}

#[test]
fn environments_run_side_by_side() {
    let mut store = Store::default();
    let ends = run_all(
        vec![
            parse("[\"a\" \"1\" ASSOC \"a\" RETR COMMIT] WRITE").unwrap(),
            parse("[\"b\" \"2\" ASSOC \"b\" RETR COMMIT] WRITE").unwrap(),
            parse("0x01 0x02 CONCAT").unwrap(),
            parse("0x07 [\"a\" ASSOC?] READ").unwrap(),
        ],
        &mut store,
    );
    assert!(ends.iter().all(|(result, _)| result.is_ok()));
    assert_eq!(ends[0].1.stack(), vec![&b"\x011"[..]]);
    assert_eq!(ends[1].1.stack(), vec![&b"\x012"[..]]);
    assert_eq!(ends[2].1.stack(), vec![&[2, 1, 2][..]]);
    assert_eq!(ends[3].1.stack_size(), 2);
    assert_eq!(ends[3].1.stack()[0], &[1, 7][..]);
    assert_eq!(store.committed.len(), 2);
}
