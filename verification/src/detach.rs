//! The two sides of a fork.

use vstd::prelude::*;

verus! {

/// The side of a fork on which a process finds itself.
#[derive(Debug, Clone, Copy, PartialEq, Eq, Hash, Structural)]
pub enum Fork {
    Parent,
    Child,
}

/// What a call of the system returned, told apart from its failure: `None`
/// for -1, with which such a call reports that it failed.
pub fn handle_err(res: i32) -> (r: Option<i32>)
    ensures
        r == if res == -1 {
            None
        } else {
            Some(res)
        },
{
    if res == -1 {
        None
    } else {
        Some(res)
    }
}

/// The side of a fork, from what the fork returned: the child where it
/// returned 0, the parent where it returned the child's id, and `None`
/// where it failed.
pub fn fork(res: i32) -> (r: Option<Fork>)
    ensures
        r == if res == -1 {
            None
        } else if res == 0 {
            Some(Fork::Child)
        } else {
            Some(Fork::Parent)
        },
{
    match handle_err(res) {
        None => None,
        Some(pid) => if pid == 0 {
            Some(Fork::Child)
        } else {
            Some(Fork::Parent)
        },
    }
}

/// The status with which the child of a fork leaves, from whether its work
/// failed.
pub fn exit_code(failed: bool) -> (r: i32)
    ensures
        r == if failed {
            1int
        } else {
            0int
        },
{
    if failed {
        1
    } else {
        0
    }
}

} // verus!
