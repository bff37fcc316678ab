//! The byte representation of numbers.

use num_bigint::BigUint;
use vstd::arithmetic::power::{lemma_pow_adds, pow};
use vstd::prelude::*;

verus! {

/// The bytes of a number, least significant byte first, with no more bytes than needed, and
/// one byte for zero.
pub open spec fn le_bytes(n: nat) -> Seq<u8>
    decreases n,
{
    if n < 256 {
        seq![n as u8]
    } else {
        seq![(n % 256) as u8] + le_bytes(n / 256)
    }
}

/// Calls `num_bigint::BigUint::to_bytes_le` on a number: it returns the bytes of the number
/// in little-endian order, the last of which is not zero, or one zero byte for zero.
#[verifier::external_body]
pub(crate) fn to_bytes_le(n: usize) -> (bytes: Vec<u8>)
    ensures
        bytes@ == le_bytes(n as nat),
{
    BigUint::from(n).to_bytes_le()
}

/// A number that is less than a power of 256 has no more bytes than that.
proof fn lemma_le_bytes_len(n: nat, limit: nat)
    requires
        limit > 0,
        n < pow(256, limit),
    ensures
        0 < le_bytes(n).len() <= limit,
    decreases limit,
{
    reveal_with_fuel(pow, 2);
    if n >= 256 && limit > 1 {
        lemma_pow_adds(256, 1, (limit - 1) as nat);
        lemma_le_bytes_len(n / 256, (limit - 1) as nat);
    }
}

/// The number of values on a stack has few bytes.
pub proof fn lemma_depth_bytes(depth: nat)
    requires
        depth <= usize::MAX,
    ensures
        0 < le_bytes(depth).len() <= 8,
{
    reveal_with_fuel(pow, 9);
    assert(pow(256, 8) == 0x1_0000_0000_0000_0000);
    lemma_le_bytes_len(depth, 8);
}

} // verus!
