use vstd::prelude::*;

verus! {

/// One line of the battle log, in the order events happened.
#[derive(Debug)]
pub struct BattleLogEvent {
    pub message: String,
}

} // verus!
