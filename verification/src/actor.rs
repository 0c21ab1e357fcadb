//! The actor through which the host reaches the game.
//!
//! The host invokes the actor when a message from another subnet arrives.
//! Only the system actor may do so; the actor then makes the call that the
//! host has added to its kernel.

use crate::kernel::{chess_engine_syscall, SYSCALL_DONE};
use vstd::prelude::*;

verus! {

/// The name under which the actor is registered.
pub const CHESS_ENGINE_SYSCALL_ACTOR_NAME: &'static str = "chess_engine_syscall";

/// The id of the system actor, the only caller that is let in.
pub const SYSTEM_ACTOR_ID: u64 = 0;

/// Why the actor refused a call.
#[derive(Clone, Copy, Debug, PartialEq, Eq, Structural)]
pub enum ActorError {
    /// The caller is not the system actor.
    Forbidden,
}

/// The actor of the game.
pub struct Actor;

impl Actor {
    /// The name under which the actor is registered.
    pub fn name() -> (name: &'static str)
        ensures
            name@ == CHESS_ENGINE_SYSCALL_ACTOR_NAME@,
    {
        CHESS_ENGINE_SYSCALL_ACTOR_NAME
    }

    /// Runs the entry point for the caller with the given id: the system
    /// actor gets the answer of `chess_engine_syscall`, anyone else is
    /// refused.
    pub fn invoke(caller: u64) -> (result: Result<u64, ActorError>)
        ensures
            caller == SYSTEM_ACTOR_ID ==> result == Ok::<u64, ActorError>(SYSCALL_DONE),
            caller != SYSTEM_ACTOR_ID ==> result == Err::<u64, ActorError>(ActorError::Forbidden),
    {
        if caller != SYSTEM_ACTOR_ID {
            return Err(ActorError::Forbidden);
        }
        Ok(chess_engine_syscall())
    }
}

} // verus!
