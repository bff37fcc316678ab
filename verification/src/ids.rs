//! Identification of the environments that a VM runs.

use snowflake::ProcessUniqueId;
use vstd::prelude::*;

verus! {

/// `snowflake::ProcessUniqueId`, of which nothing is known but whether two of them are the
/// same.
#[verifier::external_type_specification]
#[verifier::external_body]
pub struct ExProcessUniqueId(ProcessUniqueId);

/// Identifies an environment.
pub type EnvId = ProcessUniqueId;

/// Calls `==` on two `snowflake::ProcessUniqueId`, which compares the two numbers that an id
/// is made of: it holds if and only if the ids are the same.
#[verifier::external_body]
pub(crate) fn same_id(a: EnvId, b: EnvId) -> (same: bool)
    ensures
        same == (a == b),
{
    a == b
}

/// Whether somebody else than `pid` is the owner.
pub open spec fn locked_out(owner: Option<EnvId>, pid: EnvId) -> bool {
    owner matches Some(other) && other != pid
}

/// Whether somebody else than `pid` is the owner.
pub fn is_locked_out(owner: Option<EnvId>, pid: EnvId) -> (locked: bool)
    ensures
        locked == locked_out(owner, pid),
{
    match owner {
        Some(other) => !same_id(other, pid),
        None => false,
    }
}

} // verus!
