//! The call that the host adds to its kernel to reach the game.

use crate::engine::init;
use vstd::prelude::*;

verus! {

/// What the call answers once it has run.
pub const SYSCALL_DONE: u64 = 1;

/// Sets up a fresh session for an easy game and answers `SYSCALL_DONE`. The
/// call carries no position yet, and the session is dropped when it returns.
pub fn chess_engine_syscall() -> (code: u64)
    ensures
        code == SYSCALL_DONE,
{
    let _chess_engine = init();
    SYSCALL_DONE
}

} // verus!
