//! How the library names actors.

use vstd::prelude::*;

verus! {

/// The number by which an actor is known; no two actors share one.
pub type ActorId = u64;

/// A reference to an actor.
///
/// What the supervision logic reads of an actor is its id; the caller finds the mailbox that
/// belongs to it.
#[derive(Debug, Clone, Copy, PartialEq, Eq, Structural)]
pub struct ActorCell {
    /// The id of the actor.
    pub id: ActorId,
}

impl ActorCell {
    /// The id of the actor that this cell refers to.
    pub fn get_id(&self) -> (id: ActorId)
        ensures
            id == self.id,
    {
        self.id
    }
}

} // verus!
