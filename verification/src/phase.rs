use vstd::prelude::*;

verus! {

/// The betting streets of a hand, in the order in which they are played.
#[derive(Debug, PartialEq, Eq, Copy, Clone, Hash, PartialOrd, Ord, Structural)]
pub enum Phase {
    PreFlop,
    Flop,
    Turn,
    River,
}

impl Phase {
    /// Position of the phase in play order, from 0 (pre-flop) to 3 (river).
    pub open spec fn index(self) -> int {
        match self {
            Phase::PreFlop => 0,
            Phase::Flop => 1,
            Phase::Turn => 2,
            Phase::River => 3,
        }
    }

    /// How many community cards lie on the board in this phase.
    pub open spec fn community_cards(self) -> int {
        match self {
            Phase::PreFlop => 0,
            Phase::Flop => 3,
            Phase::Turn => 4,
            Phase::River => 5,
        }
    }

    /// Position of the phase in play order.
    pub fn position(self) -> (index: u8)
        ensures
            index == self.index(),
    {
        match self {
            Phase::PreFlop => 0,
            Phase::Flop => 1,
            Phase::Turn => 2,
            Phase::River => 3,
        }
    }
}

} // verus!
