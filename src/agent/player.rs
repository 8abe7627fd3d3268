use super::Agent;
use crate::card::{Card, Hand};
use vstd::prelude::*;

verus! {

/// The human side of the table. Its decisions come from outside the library,
/// one at a time, through `Game::player_act`.
pub struct Player {
    hand: Hand,
}

impl Player {
    pub fn new() -> (r: Player)
        ensures
            r.held() == Seq::<Card>::empty(),
    {
        Player { hand: Hand::new() }
    }
}

impl Agent for Player {
    closed spec fn held(&self) -> Seq<Card> {
        self.hand@
    }

    fn hand(&self) -> (r: &Hand) {
        &self.hand
    }

    fn mut_hand(&mut self) -> (r: &mut Hand) {
        &mut self.hand
    }

    fn name(&self) -> &'static str {
        "Player"
    }
}

} // verus!
