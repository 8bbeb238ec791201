use vstd::prelude::*;

verus! {

/// The two failure kinds of the game engine.
///
/// `Internal` marks an illegal state-machine transition (a bug in the
/// caller's turn logic), while `AgentError` marks a semantically invalid
/// request made by a decision-making agent, such as taking a treasure from
/// an empty tile. Both are recoverable results surfaced to the caller.
#[derive(Clone, Copy, Debug, PartialEq, Eq, Structural)]
pub enum DeepSeaError {
    Internal,
    AgentError,
}

pub type DeepSeaResult<T = ()> = Result<T, DeepSeaError>;

} // verus!
