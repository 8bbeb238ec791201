use vstd::prelude::*;

use crate::treasure::Treasure;

verus! {

/// A decision an agent makes about the treasure slot it is standing on:
/// leave it alone, pick it up, or put one of the held kinds back.
#[derive(Clone, Copy, Debug, PartialEq, Eq, Hash, Structural)]
pub enum TreasureDecision {
    Ignore,
    Take,
    Return(Treasure),
}

} // verus!
