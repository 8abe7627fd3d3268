use crate::agent::Agent;
use crate::card::{all_cards, full_deck, Card};
use rand::seq::SliceRandom;
use vstd::multiset::Multiset;
use vstd::prelude::*;

verus! {

broadcast use vstd::seq_lib::group_to_multiset_ensures;

/// Relies on rand's `SliceRandom::shuffle`, driven by the thread-local
/// generator: it only swaps elements, so it leaves a permutation of the cards.
#[verifier::external_body]
fn shuffle_cards(cards: &mut Vec<Card>)
    ensures
        final(cards)@.to_multiset() == old(cards)@.to_multiset(),
        final(cards)@.len() == old(cards)@.len(),
{
    let mut rng = rand::thread_rng();
    cards.shuffle(&mut rng);
}

/// The shoe: a pile to deal from and a pile of cards that finished hands gave back.
pub struct Deck {
    cards: Vec<Card>,
    discard: Vec<Card>,
}

impl Deck {
    /// The cards still to be dealt; the next one is the last.
    pub closed spec fn draw_pile(&self) -> Seq<Card> {
        self.cards@
    }

    /// The cards given back by finished hands.
    pub closed spec fn discard_pile(&self) -> Seq<Card> {
        self.discard@
    }

    /// How many cards the shoe holds, in both piles.
    pub open spec fn count(&self) -> nat {
        self.draw_pile().len() + self.discard_pile().len()
    }

    /// The cards the shoe holds, in both piles.
    pub open spec fn pool(&self) -> Multiset<Card> {
        self.draw_pile().to_multiset().add(self.discard_pile().to_multiset())
    }

    /// A shoe holding the full set in order, with nothing discarded.
    pub fn new() -> (r: Deck)
        ensures
            r.draw_pile() == full_deck(),
            r.discard_pile() == Seq::<Card>::empty(),
    {
        Deck { cards: all_cards(), discard: Vec::new() }
    }

    /// A shoe whose draw pile is `cards`, the last of them dealt first.
    pub fn from_cards(cards: Vec<Card>) -> (r: Deck)
        ensures
            r.draw_pile() == cards@,
            r.discard_pile() == Seq::<Card>::empty(),
    {
        Deck { cards, discard: Vec::new() }
    }

    /// A shoe holding the full set in random order, with nothing discarded.
    pub fn new_shuffled() -> (r: Deck)
        ensures
            r.draw_pile().to_multiset() == full_deck().to_multiset(),
            r.draw_pile().len() == 52,
            r.discard_pile() == Seq::<Card>::empty(),
    {
        let mut deck = Deck::new();
        deck.shuffle();
        deck
    }

    fn shuffle(&mut self)
        ensures
            final(self).draw_pile().to_multiset() == old(self).draw_pile().to_multiset(),
            final(self).draw_pile().len() == old(self).draw_pile().len(),
            final(self).discard_pile() == old(self).discard_pile(),
    {
        shuffle_cards(&mut self.cards);
    }

    /// Moves every discarded card into the draw pile and shuffles it.
    fn recycle(&mut self)
        ensures
            final(self).discard_pile() == Seq::<Card>::empty(),
            final(self).draw_pile().to_multiset() == old(self).pool(),
            final(self).draw_pile().len() == old(self).count(),
    {
        self.cards.append(&mut self.discard);
        proof {
            vstd::seq_lib::lemma_multiset_commutative(old(self).cards@, old(self).discard@);
        }
        self.shuffle();
    }

    /// Deals the next card to `agent` and returns it. An empty draw pile is
    /// first refilled from the discard pile, which is then empty.
    pub fn deal<T: Agent>(&mut self, agent: &mut T) -> (r: Card)
        requires
            old(self).count() > 0,
        ensures
            final(agent).held() == old(agent).held().push(r),
            final(self).count() + 1 == old(self).count(),
            final(self).pool().insert(r) == old(self).pool(),
            old(self).draw_pile().len() > 0 ==> {
                &&& r == old(self).draw_pile().last()
                &&& final(self).draw_pile() == old(self).draw_pile().drop_last()
                &&& final(self).discard_pile() == old(self).discard_pile()
            },
            old(self).draw_pile().len() == 0 ==> {
                &&& final(self).discard_pile() == Seq::<Card>::empty()
                &&& final(self).draw_pile().push(r).to_multiset() == old(self).discard_pile().to_multiset()
            },
    {
        let card = match self.cards.pop() {
            Some(card) => {
                proof {
                    assert(self.cards@.push(card) =~= old(self).cards@);
                }
                card
            },
            None => {
                self.recycle();
                proof {
                    assert(old(self).cards@ =~= Seq::<Card>::empty());
                    assert(old(self).cards@.to_multiset() =~= Multiset::<Card>::empty());
                    assert(old(self).pool() =~= old(self).discard@.to_multiset());
                }
                let ghost refilled = self.cards@;
                let card = self.cards.pop().unwrap();
                proof {
                    assert(self.cards@.push(card) =~= refilled);
                }
                card
            },
        };
        proof {
            assert(self.pool().insert(card) =~= self.cards@.push(card).to_multiset().add(
                self.discard@.to_multiset(),
            ));
        }
        agent.deal(card);
        card
    }

    /// Deals two cards to `agent`, one after the other, and returns the second.
    pub fn deal_2<T: Agent>(&mut self, agent: &mut T) -> (r: Card)
        requires
            old(self).count() >= 2,
        ensures
            final(agent).held().len() == old(agent).held().len() + 2,
            final(agent).held().take(old(agent).held().len() as int) == old(agent).held(),
            final(agent).held().last() == r,
            final(self).count() + 2 == old(self).count(),
            final(self).pool().add(final(agent).held().skip(old(agent).held().len() as int).to_multiset()) == old(self).pool(),
    {
        let ghost a0 = agent.held();
        let first = self.deal(agent);
        let second = self.deal(agent);
        proof {
            let added = agent.held().skip(a0.len() as int);
            assert(added =~= seq![first, second]);
            assert(agent.held().take(a0.len() as int) =~= a0);
            assert(seq![first].push(second) =~= added);
            assert(seq![first] =~= Seq::<Card>::empty().push(first));
            assert(added.to_multiset() =~= Multiset::<Card>::empty().insert(first).insert(second));
            assert(self.pool().add(added.to_multiset()) =~= self.pool().insert(second).insert(first));
        }
        second
    }

    /// Gives every card of `agent`'s hand back to the discard pile, leaving the hand empty.
    pub fn discard<T: Agent>(&mut self, agent: &mut T)
        ensures
            final(agent).held() == Seq::<Card>::empty(),
            final(self).draw_pile() == old(self).draw_pile(),
            final(self).discard_pile() == old(self).discard_pile() + old(agent).held(),
            final(self).count() == old(self).count() + old(agent).held().len(),
            final(self).pool() == old(self).pool().add(old(agent).held().to_multiset()),
    {
        self.discard.append(agent.mut_hand().mut_cards());
        proof {
            vstd::seq_lib::lemma_multiset_commutative(old(self).discard@, old(agent).held());
            assert(self.pool() =~= old(self).pool().add(old(agent).held().to_multiset()));
        }
    }
}

} // verus!
