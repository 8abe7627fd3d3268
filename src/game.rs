use crate::agent::{Action, Agent, Dealer, Player, Strategy};
use crate::card::{
    hand_value, lemma_aces_bounded, lemma_push_totals, lemma_value_at_least_len, Card, DECK_SIZE,
};
use crate::deck::Deck;
use vstd::multiset::Multiset;
use vstd::prelude::*;

verus! {

broadcast use vstd::seq_lib::group_to_multiset_ensures;

/// How one agent's turn ended.
#[derive(Clone, Copy, Debug, PartialEq, Eq, Structural)]
pub enum HandResult {
    Bust,
    Safe(usize),
    Blackjack,
}

/// How a round ended.
#[derive(Clone, Copy, Debug, PartialEq, Eq, Structural)]
pub enum RoundResult {
    PlayerWins,
    DealerWins,
    Push,
}

impl RoundResult {
    /// The announcement of the result.
    pub fn text(&self) -> (r: &'static str)
        ensures
            *self == RoundResult::PlayerWins ==> r@ == "Player wins"@,
            *self == RoundResult::DealerWins ==> r@ == "Dealer wins"@,
            *self == RoundResult::Push ==> r@ == "Push"@,
    {
        match self {
            RoundResult::PlayerWins => "Player wins",
            RoundResult::DealerWins => "Dealer wins",
            RoundResult::Push => "Push",
        }
    }
}

/// Where a round stands after a step of play.
#[derive(Clone, Copy, Debug, PartialEq, Eq, Structural)]
pub enum Turn {
    /// The player is to choose an action; the dealer shows this card.
    PlayerToAct(Card),
    /// The round is decided.
    Over(RoundResult),
}

/// The outcome of a round from the two turns' results.
pub open spec fn round_outcome(player: HandResult, dealer: HandResult) -> RoundResult {
    match player {
        HandResult::Bust => RoundResult::DealerWins,
        HandResult::Safe(p) => match dealer {
            HandResult::Blackjack => RoundResult::DealerWins,
            HandResult::Safe(d) => if p < d {
                RoundResult::DealerWins
            } else if p > d {
                RoundResult::PlayerWins
            } else {
                RoundResult::Push
            },
            HandResult::Bust => RoundResult::PlayerWins,
        },
        HandResult::Blackjack => match dealer {
            HandResult::Blackjack => RoundResult::Push,
            _ => RoundResult::PlayerWins,
        },
    }
}

/// How a hand that stopped drawing stands: bust over 21, else safe at its value.
pub open spec fn settled(cards: Seq<Card>) -> HandResult {
    if hand_value(cards) > 21 {
        HandResult::Bust
    } else {
        HandResult::Safe(hand_value(cards) as usize)
    }
}

/// The result of a turn that began holding `start` and ended holding `end`:
/// a start worth 21 is a blackjack, and no card is drawn to it.
pub open spec fn turn_result(start: Seq<Card>, end: Seq<Card>) -> HandResult {
    if hand_value(start) == 21 {
        HandResult::Blackjack
    } else {
        settled(end)
    }
}

/// The dealer's turn went by the house rule: from `start` it drew each card
/// while under 17 and stopped at 17 or more, unless it began at 21.
pub open spec fn dealer_drew(start: Seq<Card>, end: Seq<Card>) -> bool {
    &&& end.len() >= start.len()
    &&& end.take(start.len() as int) == start
    &&& if hand_value(start) == 21 {
        end == start
    } else {
        &&& hand_value(end) >= 17
        &&& forall|i: int|
            start.len() <= i < end.len() ==> #[trigger] hand_value(end.take(i)) < 17
    }
}

/// Decides a round from the results of the player's and the dealer's turns.
pub fn resolve(player: HandResult, dealer: HandResult) -> (r: RoundResult)
    ensures
        r == round_outcome(player, dealer),
{
    match player {
        HandResult::Bust => RoundResult::DealerWins,
        HandResult::Safe(player_val) => match dealer {
            HandResult::Bust => RoundResult::PlayerWins,
            HandResult::Safe(dealer_val) => {
                if player_val < dealer_val {
                    RoundResult::DealerWins
                } else if player_val > dealer_val {
                    RoundResult::PlayerWins
                } else {
                    RoundResult::Push
                }
            },
            HandResult::Blackjack => RoundResult::DealerWins,
        },
        HandResult::Blackjack => match dealer {
            HandResult::Blackjack => RoundResult::Push,
            HandResult::Safe(_) | HandResult::Bust => RoundResult::PlayerWins,
        },
    }
}

/// A turn that began holding `start` ended holding `end` by `T`'s rule: each
/// card was drawn to a hand under 21 for which the rule said hit, and the turn
/// ended at 21 or more, or where the rule said stay.
pub open spec fn drew_by_rule<T: Strategy>(start: Seq<Card>, end: Seq<Card>, top_card: Option<Card>) -> bool {
    &&& end.len() >= start.len()
    &&& end.take(start.len() as int) == start
    &&& forall|i: int|
        start.len() <= i < end.len() ==> hand_value(#[trigger] end.take(i)) < 21 && T::rule(
            end.take(i),
            top_card,
        ) == Action::Hit
    &&& hand_value(end) >= 21 || T::rule(end, top_card) == Action::Stay
}

/// Lets the agent draw by its strategy while its hand is worth less than 21
/// and the strategy says hit; the hand is then bust over 21, else safe.
fn accumulate_cards<T: Strategy>(agent: &mut T, deck: &mut Deck, top_card: Option<Card>) -> (r: HandResult)
    requires
        old(deck).count() + old(agent).held().len() >= 21,
        old(agent).held().len() <= 52,
    ensures
        drew_by_rule::<T>(old(agent).held(), final(agent).held(), top_card),
        r == settled(final(agent).held()),
        final(deck).count() + final(agent).held().len() == old(deck).count() + old(agent).held().len(),
        final(deck).pool().add(final(agent).held().skip(old(agent).held().len() as int).to_multiset())
            == old(deck).pool(),
        final(agent).held().len() <= 21 || final(agent).held() == old(agent).held(),
{
    let ghost start = agent.held();
    let ghost pool0 = deck.pool();
    proof {
        assert(start.skip(start.len() as int) =~= Seq::<Card>::empty());
        assert(deck.pool().add(Multiset::empty()) =~= deck.pool());
        assert(start.take(start.len() as int) =~= start);
    }
    while agent.val() < 21
        invariant
            agent.held().len() >= start.len(),
            agent.held().take(start.len() as int) == start,
            agent.held().len() <= 21 || agent.held() == start,
            agent.held().len() <= 52,
            forall|i: int|
                start.len() <= i < agent.held().len() ==> hand_value(
                    #[trigger] agent.held().take(i),
                ) < 21 && T::rule(agent.held().take(i), top_card) == Action::Hit,
            deck.count() + agent.held().len() == old(deck).count() + start.len(),
            old(deck).count() + start.len() >= 21,
            deck.pool().add(agent.held().skip(start.len() as int).to_multiset()) == pool0,
        ensures
            hand_value(agent.held()) >= 21 || T::rule(agent.held(), top_card) == Action::Stay,
        decreases 21 - agent.held().len(),
    {
        let ghost before = agent.held();
        proof {
            lemma_value_at_least_len(before);
        }
        match agent.action(top_card) {
            Action::Stay => {
                break;
            },
            Action::Hit => {
                let card = deck.deal(agent);
                proof {
                    lemma_push_totals(before, card);
                    lemma_value_at_least_len(agent.held());
                    assert(agent.held().take(before.len() as int) =~= before);
                    assert(agent.held().take(start.len() as int) =~= start);
                    let added = agent.held().skip(start.len() as int);
                    assert(added =~= before.skip(start.len() as int).push(card));
                    assert(deck.pool().add(added.to_multiset()) =~= deck.pool().insert(card).add(
                        before.skip(start.len() as int).to_multiset(),
                    ));
                    assert forall|i: int| start.len() <= i < agent.held().len() implies hand_value(
                        #[trigger] agent.held().take(i),
                    ) < 21 && T::rule(agent.held().take(i), top_card) == Action::Hit by {
                        if i < before.len() {
                            assert(agent.held().take(i) =~= before.take(i));
                        } else {
                            assert(agent.held().take(i) =~= before);
                        }
                    }
                }
            },
        }
    }
    proof {
        lemma_aces_bounded(agent.held());
    }
    let v = agent.val();
    if v > 21 {
        HandResult::Bust
    } else {
        HandResult::Safe(v)
    }
}

/// Plays one agent's turn: a hand worth 21 is a blackjack and draws nothing;
/// any other draws by the agent's strategy.
fn agent_play<T: Strategy>(agent: &mut T, deck: &mut Deck, top_card: Option<Card>) -> (r: HandResult)
    requires
        old(deck).count() + old(agent).held().len() >= 21,
        old(agent).held().len() <= 52,
    ensures
        hand_value(old(agent).held()) == 21 ==> final(agent).held() == old(agent).held(),
        hand_value(old(agent).held()) != 21 ==> drew_by_rule::<T>(
            old(agent).held(),
            final(agent).held(),
            top_card,
        ),
        r == turn_result(old(agent).held(), final(agent).held()),
        final(deck).count() + final(agent).held().len() == old(deck).count() + old(agent).held().len(),
        final(deck).pool().add(final(agent).held().skip(old(agent).held().len() as int).to_multiset())
            == old(deck).pool(),
        final(agent).held().len() <= 21 || final(agent).held() == old(agent).held(),
{
    if agent.val() == 21 {
        proof {
            assert(agent.held().skip(agent.held().len() as int) =~= Seq::<Card>::empty());
            assert(deck.pool().add(Multiset::empty()) =~= deck.pool());
        }
        HandResult::Blackjack
    } else {
        accumulate_cards(agent, deck, top_card)
    }
}

/// Under the invariant the shoe and both hands hold 52 cards between them,
/// counted as a multiset of card values too.
pub proof fn lemma_cards_in_play_count(g: &Game)
    requires
        g.wf(),
    ensures
        g.cards_in_play().len() == 52,
{
    g.lemma_in_play_len();
}

pub struct Game {
    deck: Deck,
    dealer: Dealer,
    player: Player,
}

impl Game {
    /// The player's cards.
    pub closed spec fn player_cards(&self) -> Seq<Card> {
        self.player.held()
    }

    /// The dealer's cards.
    pub closed spec fn dealer_cards(&self) -> Seq<Card> {
        self.dealer.held()
    }

    /// How many cards the shoe holds.
    pub closed spec fn shoe_count(&self) -> nat {
        self.deck.count()
    }

    /// Every card of the game: the shoe's and both hands'.
    pub closed spec fn cards_in_play(&self) -> Multiset<Card> {
        self.deck.pool().add(self.player.held().to_multiset()).add(self.dealer.held().to_multiset())
    }

    proof fn lemma_in_play_len(&self)
        ensures
            self.cards_in_play().len() == self.shoe_count() + self.player_cards().len()
                + self.dealer_cards().len(),
    {
    }

    /// No card is lost or made: the shoe and the hands hold a full set's number.
    pub open spec fn wf(&self) -> bool {
        self.shoe_count() + self.player_cards().len() + self.dealer_cards().len() == 52
    }

    /// Both hands are empty: no round is under way.
    pub open spec fn between_rounds(&self) -> bool {
        &&& self.player_cards() == Seq::<Card>::empty()
        &&& self.dealer_cards() == Seq::<Card>::empty()
    }

    /// The player is to act: the player's hand is worth less than 21 and the
    /// dealer holds the two cards of the opening deal.
    pub open spec fn awaiting_player(&self) -> bool {
        &&& hand_value(self.player_cards()) < 21
        &&& self.dealer_cards().len() == 2
    }

    /// A game with a freshly shuffled full shoe and empty hands.
    pub fn new() -> (r: Game)
        ensures
            r.wf(),
            r.between_rounds(),
            r.cards_in_play() == crate::card::full_deck().to_multiset(),
    {
        let deck = Deck::new_shuffled();
        let r = Game { deck, dealer: Dealer::new(), player: Player::new() };
        proof {
            assert(r.cards_in_play() =~= r.deck.pool());
            assert(r.deck.pool() =~= r.deck.draw_pile().to_multiset());
        }
        r
    }

    /// A game whose shoe deals `cards` from the last one backwards, with empty
    /// hands; `None` unless `cards` holds exactly as many cards as a full set.
    pub fn with_cards(cards: Vec<Card>) -> (r: Option<Game>)
        ensures
            r is Some <==> cards@.len() == 52,
            r matches Some(g) ==> g.wf() && g.between_rounds() && g.cards_in_play() == cards@.to_multiset(),
    {
        if cards.len() != DECK_SIZE {
            return None;
        }
        let ghost s = cards@;
        let deck = Deck::from_cards(cards);
        let r = Game { deck, dealer: Dealer::new(), player: Player::new() };
        proof {
            assert(r.cards_in_play() =~= s.to_multiset());
        }
        Some(r)
    }

    pub fn player(&self) -> (r: &Player)
        ensures
            r.held() == self.player_cards(),
    {
        &self.player
    }

    pub fn dealer(&self) -> (r: &Dealer)
        ensures
            r.held() == self.dealer_cards(),
    {
        &self.dealer
    }

    /// Deals the opening hands: two cards to the player, then two to the dealer.
    fn deal(&mut self)
        requires
            old(self).wf(),
            old(self).between_rounds(),
        ensures
            final(self).wf(),
            final(self).player_cards().len() == 2,
            final(self).dealer_cards().len() == 2,
            final(self).cards_in_play() == old(self).cards_in_play(),
    {
        let ghost pool0 = self.deck.pool();
        self.deck.deal_2(&mut self.player);
        self.deck.deal_2(&mut self.dealer);
        proof {
            assert(self.player.held().skip(0) =~= self.player.held());
            assert(self.dealer.held().skip(0) =~= self.dealer.held());
            assert(Seq::<Card>::empty().to_multiset() =~= Multiset::<Card>::empty());
            assert(self.cards_in_play() =~= pool0);
            assert(old(self).cards_in_play() =~= pool0);
        }
    }

    /// Gives both hands back to the shoe's discard pile.
    pub fn discard(&mut self)
        requires
            old(self).wf(),
        ensures
            final(self).wf(),
            final(self).between_rounds(),
            final(self).cards_in_play() == old(self).cards_in_play(),
    {
        self.deck.discard(&mut self.player);
        self.deck.discard(&mut self.dealer);
        proof {
            assert(Seq::<Card>::empty().to_multiset() =~= Multiset::<Card>::empty());
            assert(self.cards_in_play() =~= old(self).cards_in_play());
        }
    }

    /// Plays the dealer's turn and decides the round against the player's result.
    fn dealer_play(&mut self, player_result: HandResult) -> (r: RoundResult)
        requires
            old(self).wf(),
            old(self).player_cards().len() <= 21,
        ensures
            final(self).wf(),
            final(self).player_cards() == old(self).player_cards(),
            dealer_drew(old(self).dealer_cards(), final(self).dealer_cards()),
            r == round_outcome(
                player_result,
                turn_result(old(self).dealer_cards(), final(self).dealer_cards()),
            ),
            final(self).cards_in_play() == old(self).cards_in_play(),
    {
        let ghost d0 = self.dealer.held();
        let ghost pool0 = self.deck.pool();
        let dealer_result = agent_play(&mut self.dealer, &mut self.deck, None);
        proof {
            let d = self.dealer.held();
            if hand_value(d0) == 21 {
                assert(d.take(d0.len() as int) =~= d0);
            } else {
                assert forall|i: int| d0.len() <= i < d.len() implies #[trigger] hand_value(
                    d.take(i),
                ) < 17 by {
                    assert(Dealer::rule(d.take(i), None) == Action::Hit);
                }
            }
            let added = self.dealer.held().skip(d0.len() as int);
            assert(self.dealer.held() =~= d0 + added);
            vstd::seq_lib::lemma_multiset_commutative(d0, added);
            assert(self.cards_in_play() =~= old(self).cards_in_play());
        }
        resolve(player_result, dealer_result)
    }

    /// Starts a round: deals the opening hands, then settles at once a player
    /// blackjack (the dealer still plays, for a push) or a player bust;
    /// otherwise asks for the player's action, showing the dealer's last card.
    pub fn round(&mut self) -> (r: Turn)
        requires
            old(self).wf(),
            old(self).between_rounds(),
        ensures
            final(self).wf(),
            final(self).cards_in_play() == old(self).cards_in_play(),
            final(self).player_cards().len() == 2,
            final(self).dealer_cards().len() >= 2,
            ({
                let p = final(self).player_cards();
                let d = final(self).dealer_cards();
                let d0 = d.take(2);
                if hand_value(p) == 21 {
                    &&& dealer_drew(d0, d)
                    &&& r == Turn::Over(round_outcome(HandResult::Blackjack, turn_result(d0, d)))
                } else if hand_value(p) < 21 {
                    &&& d.len() == 2
                    &&& final(self).awaiting_player()
                    &&& r == Turn::PlayerToAct(d.last())
                } else {
                    &&& d.len() == 2
                    &&& r == Turn::Over(RoundResult::DealerWins)
                }
            }),
    {
        self.deal();
        let v = self.player.val();
        if v == 21 {
            let ghost d0 = self.dealer.held();
            let res = self.dealer_play(HandResult::Blackjack);
            proof {
                assert(self.dealer.held().take(2) =~= d0);
            }
            Turn::Over(res)
        } else if v < 21 {
            let top = self.dealer.hand().cards()[1];
            proof {
                assert(self.dealer.held().take(2) =~= self.dealer.held());
            }
            Turn::PlayerToAct(top)
        } else {
            proof {
                assert(self.dealer.held().take(2) =~= self.dealer.held());
            }
            Turn::Over(RoundResult::DealerWins)
        }
    }

    /// Carries out the player's action. A stay ends the player's turn at its
    /// value and the dealer plays; a hit deals one card, then the player acts
    /// again under 21, loses at once over 21, and stands at exactly 21.
    pub fn player_act(&mut self, action: Action) -> (r: Turn)
        requires
            old(self).wf(),
            old(self).awaiting_player(),
        ensures
            final(self).wf(),
            final(self).cards_in_play() == old(self).cards_in_play(),
            action == Action::Stay ==> {
                &&& final(self).player_cards() == old(self).player_cards()
                &&& dealer_drew(old(self).dealer_cards(), final(self).dealer_cards())
                &&& r == Turn::Over(
                    round_outcome(
                        HandResult::Safe(hand_value(old(self).player_cards()) as usize),
                        turn_result(old(self).dealer_cards(), final(self).dealer_cards()),
                    ),
                )
            },
            action == Action::Hit ==> {
                let p = final(self).player_cards();
                &&& p.len() == old(self).player_cards().len() + 1
                &&& p.drop_last() == old(self).player_cards()
                &&& hand_value(p) < 21 ==> {
                    &&& final(self).dealer_cards() == old(self).dealer_cards()
                    &&& final(self).awaiting_player()
                    &&& r == Turn::PlayerToAct(old(self).dealer_cards().last())
                }
                &&& hand_value(p) > 21 ==> {
                    &&& final(self).dealer_cards() == old(self).dealer_cards()
                    &&& r == Turn::Over(RoundResult::DealerWins)
                }
                &&& hand_value(p) == 21 ==> {
                    &&& dealer_drew(old(self).dealer_cards(), final(self).dealer_cards())
                    &&& r == Turn::Over(
                        round_outcome(
                            HandResult::Safe(21),
                            turn_result(old(self).dealer_cards(), final(self).dealer_cards()),
                        ),
                    )
                }
            },
    {
        proof {
            lemma_value_at_least_len(self.player.held());
        }
        match action {
            Action::Stay => {
                let v = self.player.val();
                Turn::Over(self.dealer_play(HandResult::Safe(v)))
            },
            Action::Hit => {
                let ghost p0 = self.player.held();
                let card = self.deck.deal(&mut self.player);
                proof {
                    assert(self.player.held().drop_last() =~= p0);
                    assert(self.cards_in_play() =~= old(self).cards_in_play());
                    lemma_push_totals(p0, card);
                    lemma_value_at_least_len(self.player.held());
                }
                let v = self.player.val();
                if v < 21 {
                    let top = self.dealer.hand().cards()[1];
                    Turn::PlayerToAct(top)
                } else if v > 21 {
                    Turn::Over(RoundResult::DealerWins)
                } else {
                    Turn::Over(self.dealer_play(HandResult::Safe(v)))
                }
            },
        }
    }
}

} // verus!
