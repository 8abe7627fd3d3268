pub mod dealer;
pub mod player;

use crate::card::{hand_value, Card, Hand};
use vstd::prelude::*;

pub use self::dealer::Dealer;
pub use self::player::Player;

verus! {

#[derive(Clone, Copy, Debug, PartialEq, Eq, Structural)]
pub enum Action {
    Stay,
    Hit,
}

/// A participant of a round: it holds one hand and is known by a fixed name.
pub trait Agent {
    /// The cards the agent holds, in the order they were dealt.
    spec fn held(&self) -> Seq<Card>;

    fn hand(&self) -> (r: &Hand)
        ensures
            r@ == self.held(),
    ;

    fn mut_hand(&mut self) -> (r: &mut Hand)
        ensures
            r@ == old(self).held(),
            final(self).held() == final(r)@,
    ;

    fn name(&self) -> &'static str;

    fn val(&self) -> (r: usize)
        requires
            11 * self.held().len() <= usize::MAX,
        ensures
            r == hand_value(self.held()),
    {
        self.hand().val()
    }

    fn deal(&mut self, card: Card)
        ensures
            final(self).held() == old(self).held().push(card),
    {
        self.mut_hand().add(card);
    }
}

/// How an agent decides, given the dealer's visible card if it may see one.
/// The decision is a rule of the cards held and the card shown.
pub trait Strategy: Agent {
    /// The decision taken holding `cards` and shown `top_card`.
    spec fn rule(cards: Seq<Card>, top_card: Option<Card>) -> Action;

    fn action(&self, top_card: Option<Card>) -> (r: Action)
        requires
            11 * self.held().len() <= usize::MAX,
        ensures
            r == Self::rule(self.held(), top_card),
    ;
}

} // verus!
