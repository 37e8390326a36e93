//! A player: a display name and a running score.

use vstd::prelude::*;

verus! {

/// One of the two participants. The score counts the boards this player has
/// won; forfeits and ties never increment it.
pub struct Player {
    pub name: String,
    pub points: u16,
}

/// The outcome of a round: the circle player (player 0), the crosses player
/// (player 1), or neither (a tie).
#[derive(Clone, Copy, PartialEq, Eq, Structural, Debug)]
pub enum WonPlayer {
    Circle,
    Crosses,
    Neither,
}

impl Player {
    /// Creates a player with the given display name and a score of zero.
    pub fn new(name: &str) -> (p: Player)
        ensures
            p.name@ == name@,
            p.points == 0,
    {
        Player { name: String::from_str(name), points: 0 }
    }

    /// Increments the score by exactly one.
    pub fn add_point(&mut self)
        requires
            old(self).points < u16::MAX,
        ensures
            final(self).points == old(self).points + 1,
            final(self).name@ == old(self).name@,
    {
        self.points = self.points + 1;
    }
}

} // verus!
