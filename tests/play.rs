use blackjack::agent::{Action, Agent, Dealer, Player, Strategy};
use blackjack::card::{all_cards, Card, Rank, Suit};
use blackjack::deck::Deck;
use blackjack::game::{resolve, Game, HandResult, RoundResult, Turn};

fn card(rank: Rank, suit: Suit) -> Card {
    Card::new(rank, suit)
}

/// A full set arranged so that `first` are dealt in the order given.
fn stacked(first: &[Card]) -> Vec<Card> {
    let mut rest: Vec<Card> = all_cards()
        .into_iter()
        .filter(|c| !first.contains(c))
        .collect();
    for c in first.iter().rev() {
        rest.push(*c);
    }
    assert_eq!(rest.len(), 52);
    rest
}

#[test]
fn deal_pops_from_the_end() {
    let mut deck = Deck::new();
    let mut dealer = Dealer::new();
    let c = deck.deal(&mut dealer);
    assert_eq!(c, card(Rank::King, Suit::Diamonds));
    assert_eq!(dealer.hand().cards().len(), 1);
    let second = deck.deal_2(&mut dealer);
    assert_eq!(second, card(Rank::Jack, Suit::Diamonds));
    assert_eq!(dealer.hand().cards()[1], card(Rank::Queen, Suit::Diamonds));
    assert_eq!(dealer.val(), 30);
}

#[test]
fn discard_empties_the_hand_and_recycles_when_draw_is_empty() {
    let only = card(Rank::Five, Suit::Clubs);
    let mut deck = Deck::from_cards(vec![only]);
    let mut player = Player::new();
    assert_eq!(deck.deal(&mut player), only);
    deck.discard(&mut player);
    assert_eq!(player.hand().cards().len(), 0);
    // the draw pile is empty now: the discard pile is dealt from again
    assert_eq!(deck.deal(&mut player), only);
    assert_eq!(player.val(), 5);
}

#[test]
fn shuffled_shoe_holds_the_full_set() {
    let mut deck = Deck::new_shuffled();
    let mut player = Player::new();
    let mut seen: Vec<Card> = Vec::new();
    for _ in 0..52 {
        seen.push(deck.deal(&mut player));
    }
    let mut all = all_cards();
    for c in seen {
        let at = all.iter().position(|x| *x == c).unwrap();
        all.remove(at);
    }
    assert!(all.is_empty());
    assert_eq!(player.hand().cards().len(), 52);
}

#[test]
fn shuffling_changes_the_order() {
    let mut fresh = Deck::new();
    let mut in_order = Player::new();
    let mut tries = 0;
    loop {
        let mut deck = Deck::new_shuffled();
        let mut shuffled = Player::new();
        for _ in 0..52 {
            deck.deal(&mut shuffled);
        }
        if in_order.hand().cards().is_empty() {
            for _ in 0..52 {
                fresh.deal(&mut in_order);
            }
        }
        tries += 1;
        if shuffled.hand().cards() != in_order.hand().cards() {
            break;
        }
        assert!(tries < 3);
    }
}

#[test]
fn round_result_text() {
    assert_eq!(RoundResult::PlayerWins.text(), "Player wins");
    assert_eq!(RoundResult::DealerWins.text(), "Dealer wins");
    assert_eq!(RoundResult::Push.text(), "Push");
}

#[test]
fn dealer_hits_below_seventeen() {
    let mut dealer = Dealer::new();
    dealer.deal(card(Rank::Ten, Suit::Clubs));
    dealer.deal(card(Rank::Six, Suit::Clubs));
    assert_eq!(dealer.action(None), Action::Hit);
    assert_eq!(dealer.action(Some(card(Rank::Ace, Suit::Hearts))), Action::Hit);
    dealer.deal(card(Rank::Ace, Suit::Spades));
    assert_eq!(dealer.val(), 17);
    assert_eq!(dealer.action(None), Action::Stay);
    assert_eq!(dealer.name(), "Dealer");
}

#[test]
fn outcome_table() {
    assert_eq!(resolve(HandResult::Bust, HandResult::Blackjack), RoundResult::DealerWins);
    assert_eq!(resolve(HandResult::Bust, HandResult::Safe(18)), RoundResult::DealerWins);
    assert_eq!(resolve(HandResult::Bust, HandResult::Bust), RoundResult::DealerWins);
    assert_eq!(resolve(HandResult::Safe(20), HandResult::Blackjack), RoundResult::DealerWins);
    assert_eq!(resolve(HandResult::Safe(17), HandResult::Safe(18)), RoundResult::DealerWins);
    assert_eq!(resolve(HandResult::Safe(19), HandResult::Safe(18)), RoundResult::PlayerWins);
    assert_eq!(resolve(HandResult::Safe(18), HandResult::Safe(18)), RoundResult::Push);
    assert_eq!(resolve(HandResult::Safe(12), HandResult::Bust), RoundResult::PlayerWins);
    assert_eq!(resolve(HandResult::Blackjack, HandResult::Blackjack), RoundResult::Push);
    assert_eq!(resolve(HandResult::Blackjack, HandResult::Safe(21)), RoundResult::PlayerWins);
    assert_eq!(resolve(HandResult::Blackjack, HandResult::Bust), RoundResult::PlayerWins);
}

#[test]
fn stay_at_nineteen_against_dealer_bust() {
    let cards = stacked(&[
        card(Rank::Ten, Suit::Spades),
        card(Rank::Nine, Suit::Spades),
        card(Rank::Ten, Suit::Hearts),
        card(Rank::Six, Suit::Hearts),
        card(Rank::King, Suit::Clubs),
    ]);
    let mut game = Game::with_cards(cards).unwrap();
    let turn = game.round();
    assert_eq!(turn, Turn::PlayerToAct(card(Rank::Six, Suit::Hearts)));
    assert_eq!(game.player().val(), 19);
    assert_eq!(game.player_act(Action::Stay), Turn::Over(RoundResult::PlayerWins));
    assert_eq!(game.dealer().hand().cards().len(), 3);
    assert_eq!(game.dealer().val(), 26);
    game.discard();
    assert_eq!(game.player().hand().cards().len(), 0);
    assert_eq!(game.dealer().hand().cards().len(), 0);
}

#[test]
fn stay_at_nineteen_against_dealer_twenty_one() {
    let cards = stacked(&[
        card(Rank::Ten, Suit::Spades),
        card(Rank::Nine, Suit::Spades),
        card(Rank::Ten, Suit::Hearts),
        card(Rank::Six, Suit::Hearts),
        card(Rank::Five, Suit::Clubs),
    ]);
    let mut game = Game::with_cards(cards).unwrap();
    game.round();
    assert_eq!(game.player_act(Action::Stay), Turn::Over(RoundResult::DealerWins));
    assert_eq!(game.dealer().val(), 21);
}

#[test]
fn blackjack_against_blackjack_is_a_push() {
    let cards = stacked(&[
        card(Rank::Ace, Suit::Spades),
        card(Rank::King, Suit::Spades),
        card(Rank::Ace, Suit::Hearts),
        card(Rank::Queen, Suit::Hearts),
    ]);
    let mut game = Game::with_cards(cards).unwrap();
    assert_eq!(game.round(), Turn::Over(RoundResult::Push));
    assert_eq!(game.dealer().hand().cards().len(), 2);
}

#[test]
fn player_blackjack_beats_dealer_seventeen() {
    let cards = stacked(&[
        card(Rank::Ace, Suit::Spades),
        card(Rank::King, Suit::Spades),
        card(Rank::Ten, Suit::Hearts),
        card(Rank::Seven, Suit::Hearts),
    ]);
    let mut game = Game::with_cards(cards).unwrap();
    assert_eq!(game.round(), Turn::Over(RoundResult::PlayerWins));
}

#[test]
fn player_hits_then_busts() {
    let cards = stacked(&[
        card(Rank::Ten, Suit::Spades),
        card(Rank::Five, Suit::Spades),
        card(Rank::Ten, Suit::Hearts),
        card(Rank::Seven, Suit::Hearts),
        card(Rank::Two, Suit::Clubs),
        card(Rank::Queen, Suit::Clubs),
    ]);
    let mut game = Game::with_cards(cards).unwrap();
    let up = card(Rank::Seven, Suit::Hearts);
    assert_eq!(game.round(), Turn::PlayerToAct(up));
    assert_eq!(game.player_act(Action::Hit), Turn::PlayerToAct(up));
    assert_eq!(game.player().val(), 17);
    assert_eq!(game.player_act(Action::Hit), Turn::Over(RoundResult::DealerWins));
    assert_eq!(game.player().val(), 27);
    // the dealer does not draw against a busted player
    assert_eq!(game.dealer().hand().cards().len(), 2);
}

#[test]
fn hitting_to_twenty_one_stands_and_dealer_plays() {
    let cards = stacked(&[
        card(Rank::Ten, Suit::Spades),
        card(Rank::Five, Suit::Spades),
        card(Rank::Ten, Suit::Hearts),
        card(Rank::Seven, Suit::Hearts),
        card(Rank::Six, Suit::Clubs),
    ]);
    let mut game = Game::with_cards(cards).unwrap();
    game.round();
    assert_eq!(game.player_act(Action::Hit), Turn::Over(RoundResult::PlayerWins));
    assert_eq!(game.player().val(), 21);
}

#[test]
fn equal_safe_values_push() {
    let cards = stacked(&[
        card(Rank::Ten, Suit::Spades),
        card(Rank::Eight, Suit::Spades),
        card(Rank::Ten, Suit::Hearts),
        card(Rank::Eight, Suit::Hearts),
    ]);
    let mut game = Game::with_cards(cards).unwrap();
    game.round();
    assert_eq!(game.player_act(Action::Stay), Turn::Over(RoundResult::Push));
}

#[test]
fn a_game_needs_a_full_shoe() {
    assert!(Game::with_cards(vec![card(Rank::Two, Suit::Clubs)]).is_none());
    assert!(Game::with_cards(all_cards()).is_some());
}

#[test]
fn many_rounds_never_run_out() {
    let mut game = Game::new();
    for _ in 0..30 {
        let mut turn = game.round();
        while let Turn::PlayerToAct(_) = turn {
            turn = game.player_act(Action::Hit);
        }
        game.discard();
    }
    assert_eq!(game.player().hand().cards().len(), 0);
    assert_eq!(game.dealer().hand().cards().len(), 0);
}
