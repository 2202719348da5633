use vstd::prelude::*;
use crate::disc::DiscType;

verus! {

/// Who makes a participant's moves.
#[derive(Clone, Copy, Debug, PartialEq, Eq, Structural)]
pub enum PlayerType {
    Human,
    AI,
}

/// One of the two participants of a match: who moves for it, and the disc it
/// places next.
#[derive(Clone, Copy, Debug, PartialEq, Eq, Structural)]
pub struct Player {
    pub player_type: PlayerType,
    pub disc_type: DiscType,
}

impl Player {
    /// A participant of the given kind that places the given disc.
    pub fn new(player_type: PlayerType, disc_type: DiscType) -> (p: Self)
        ensures
            p == (Player { player_type, disc_type }),
    {
        Self { player_type, disc_type }
    }

    /// Makes the participant place another disc from now on.
    pub fn change_disc_type(&mut self, new_type: DiscType)
        ensures
            *final(self) == (Player { player_type: old(self).player_type, disc_type: new_type }),
    {
        self.disc_type = new_type;
    }
}

} // verus!
