use super::{Action, Agent, Strategy};
use crate::card::{hand_value, Card, Hand};
use vstd::prelude::*;

verus! {

/// The hand value under which the house always draws.
pub const DEALER_STANDS_AT: usize = 17;

pub struct Dealer {
    hand: Hand,
}

impl Dealer {
    pub fn new() -> (r: Dealer)
        ensures
            r.held() == Seq::<Card>::empty(),
    {
        Dealer { hand: Hand::new() }
    }
}

/// The dealer's decision depends on its hand's value alone: two hands worth
/// the same are played alike, whatever card is shown, and the dealer hits
/// exactly when the value is under 17.
pub proof fn lemma_dealer_choice_by_value(
    c1: Seq<Card>,
    c2: Seq<Card>,
    t1: Option<Card>,
    t2: Option<Card>,
)
    requires
        hand_value(c1) == hand_value(c2),
    ensures
        Dealer::rule(c1, t1) == Dealer::rule(c2, t2),
        Dealer::rule(c1, t1) == Action::Hit <==> hand_value(c1) < 17,
{
}

impl Agent for Dealer {
    closed spec fn held(&self) -> Seq<Card> {
        self.hand@
    }

    fn hand(&self) -> (r: &Hand) {
        &self.hand
    }

    fn mut_hand(&mut self) -> (r: &mut Hand) {
        &mut self.hand
    }

    fn name(&self) -> &'static str {
        "Dealer"
    }
}

impl Strategy for Dealer {
    /// The house rule: draw while the hand is worth less than 17, else stand.
    open spec fn rule(cards: Seq<Card>, top_card: Option<Card>) -> Action {
        if hand_value(cards) < 17 {
            Action::Hit
        } else {
            Action::Stay
        }
    }

    fn action(&self, _top_card: Option<Card>) -> (r: Action) {
        if self.hand.val() < DEALER_STANDS_AT {
            Action::Hit
        } else {
            Action::Stay
        }
    }
}

} // verus!
