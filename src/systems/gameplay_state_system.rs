use vstd::prelude::*;

use crate::resources::{Gameplay, GameplayState};
use crate::store::{all_spots_covered, Store};

verus! {

/// Declares the level won once every box spot holds a box.
pub struct GameplayStateSystem;

impl GameplayStateSystem {
    /// Moves the state to `Won` when every box spot is covered; a won game
    /// stays won, and the move counter is left alone.
    pub fn run(&mut self, store: &Store, gameplay: &mut Gameplay)
        ensures
            final(gameplay).state == if all_spots_covered(store@) {
                GameplayState::Won
            } else {
                old(gameplay).state
            },
            final(gameplay).moves_count == old(gameplay).moves_count,
    {
        if store.is_won() {
            gameplay.state = GameplayState::Won;
        }
    }
}

} // verus!
