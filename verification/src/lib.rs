//! # PumpkinScript
//!
//! PumpkinScript is a minimalistic concatenative, stack-based language inspired
//! by Forth.
//!
//! It is used to operate a low-level database "virtual machine": to manipulate, record and
//! retrieve data. Programs are byte arrays, in the form that [`binparser`] describes. There
//! are no types: every value on the stack is a byte array, too.
//!
//! * [`env`] has the stack and the heap that a program runs with.
//! * [`vm`] executes the instructions of a program, and [`scheduler`] schedules programs.
//! * [`storage`] has what a program asks of the store.
//! * [`model`] says what programs mean, [`runs`] how they are scheduled, and [`laws`] what
//!   follows from that.

pub mod binparser;
pub mod env;
pub mod error;
pub mod formatting;
pub mod ids;
pub mod laws;
pub mod model;
pub mod numbers;
pub mod runs;
pub mod scheduler;
pub mod storage;
pub mod vm;
pub mod words;

pub use binparser::{offset_by_size, Program};
pub use env::{Env, HEAP_SIZE, STACK_SIZE};
pub use error::{Error, ParseError, StorageError};
pub use ids::EnvId;
pub use scheduler::{RequestMessage, ResponseMessage};
pub use vm::VM;
