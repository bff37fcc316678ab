//! The built-in words in their binary form: a byte that is 128 plus the length of the
//! word, then the letters of the word. Words for internal use have a further byte, 128, in
//! front.

use vstd::prelude::*;

verus! {

// Category: Stack

/// `DROP` (a => )
pub const DROP: [u8; 5] = [0x84, 0x44, 0x52, 0x4F, 0x50];

/// `DUP` (a => a, a)
pub const DUP: [u8; 4] = [0x83, 0x44, 0x55, 0x50];

/// `SWAP` (a, b => b, a)
pub const SWAP: [u8; 5] = [0x84, 0x53, 0x57, 0x41, 0x50];

/// `ROT` (a, b, c => b, c, a)
pub const ROT: [u8; 4] = [0x83, 0x52, 0x4F, 0x54];

/// `OVER` (a, b => a, b, a)
pub const OVER: [u8; 5] = [0x84, 0x4F, 0x56, 0x45, 0x52];

/// `DEPTH`: pushes the number of values on the stack
pub const DEPTH: [u8; 6] = [0x85, 0x44, 0x45, 0x50, 0x54, 0x48];

// Category: Byte arrays

/// `CONCAT` (a, b => c)
pub const CONCAT: [u8; 7] = [0x86, 0x43, 0x4F, 0x4E, 0x43, 0x41, 0x54];

// Category: Control flow

/// `EVAL`: runs the code on top of the stack
pub const EVAL: [u8; 5] = [0x84, 0x45, 0x56, 0x41, 0x4C];

// Category: Storage

/// `WRITE`: runs the code on top of the stack in a write transaction
pub const WRITE: [u8; 6] = [0x85, 0x57, 0x52, 0x49, 0x54, 0x45];

/// The end of a write transaction (internal)
pub const WRITE_END: [u8; 7] = [0x80, 0x85, 0x57, 0x52, 0x49, 0x54, 0x45];

/// `READ`: runs the code on top of the stack in a read transaction
pub const READ: [u8; 5] = [0x84, 0x52, 0x45, 0x41, 0x44];

/// The end of a read transaction (internal)
pub const READ_END: [u8; 6] = [0x80, 0x84, 0x52, 0x45, 0x41, 0x44];

/// `ASSOC`: records a value under a key
pub const ASSOC: [u8; 6] = [0x85, 0x41, 0x53, 0x53, 0x4F, 0x43];

/// `ASSOC?`: whether there is a value under a key
pub const ASSOCQ: [u8; 7] = [0x86, 0x41, 0x53, 0x53, 0x4F, 0x43, 0x3F];

/// `RETR`: retrieves the value under a key
pub const RETR: [u8; 5] = [0x84, 0x52, 0x45, 0x54, 0x52];

/// `COMMIT`: commits the write transaction
pub const COMMIT: [u8; 7] = [0x86, 0x43, 0x4F, 0x4D, 0x4D, 0x49, 0x54];

/// Whether two byte slices hold the same bytes.
pub fn same_bytes(a: &[u8], b: &[u8]) -> (same: bool)
    ensures
        same == (a@ == b@),
{
    if a.len() != b.len() {
        return false;
    }
    let mut i: usize = 0;
    while i < a.len()
        invariant
            i <= a.len(),
            a.len() == b.len(),
            forall|j: int| 0 <= j < i ==> a@[j] == b@[j],
        decreases a.len() - i,
    {
        if a[i] != b[i] {
            return false;
        }
        i += 1;
    }
    assert(a@ =~= b@);
    true
}

} // verus!
