use vstd::prelude::*;
use vstd::string::StringExecFns;

verus! {

/// The highest total a hand can hold without busting.
pub const BLACKJACK: usize = 21;

/// The number of cards in a full set.
pub const DECK_SIZE: usize = 52;

#[derive(Clone, Copy, Debug, PartialEq, Eq, Structural)]
pub enum Rank {
    Ace,
    Two,
    Three,
    Four,
    Five,
    Six,
    Seven,
    Eight,
    Nine,
    Ten,
    Jack,
    Queen,
    King,
}

#[derive(Clone, Copy, Debug, PartialEq, Eq, Structural)]
pub enum Suit {
    Spades,
    Hearts,
    Clubs,
    Diamonds,
}

#[derive(Clone, Copy, Debug, PartialEq, Eq, Structural)]
pub struct Card {
    pub rank: Rank,
    pub suit: Suit,
}

/// The ranks in their natural order, Ace first.
pub open spec fn rank_seq() -> Seq<Rank> {
    seq![
        Rank::Ace, Rank::Two, Rank::Three, Rank::Four, Rank::Five, Rank::Six, Rank::Seven,
        Rank::Eight, Rank::Nine, Rank::Ten, Rank::Jack, Rank::Queen, Rank::King,
    ]
}

/// The suits in the order in which a fresh set is laid out.
pub open spec fn suit_seq() -> Seq<Suit> {
    seq![Suit::Spades, Suit::Hearts, Suit::Clubs, Suit::Diamonds]
}

/// The full set of cards: every rank of the first suit, then of the next, and so on.
pub open spec fn full_deck() -> Seq<Card> {
    Seq::new(52, |i: int| Card { rank: rank_seq()[i % 13], suit: suit_seq()[i / 13] })
}

/// A rank's base value: an Ace counts 11, a face card 10, any other its pips.
pub open spec fn rank_value(r: Rank) -> nat {
    match r {
        Rank::Ace => 11,
        Rank::Two => 2,
        Rank::Three => 3,
        Rank::Four => 4,
        Rank::Five => 5,
        Rank::Six => 6,
        Rank::Seven => 7,
        Rank::Eight => 8,
        Rank::Nine => 9,
        Rank::Ten | Rank::Jack | Rank::Queen | Rank::King => 10,
    }
}

pub open spec fn rank_text(r: Rank) -> Seq<char> {
    match r {
        Rank::Ace => "A"@,
        Rank::Two => "2"@,
        Rank::Three => "3"@,
        Rank::Four => "4"@,
        Rank::Five => "5"@,
        Rank::Six => "6"@,
        Rank::Seven => "7"@,
        Rank::Eight => "8"@,
        Rank::Nine => "9"@,
        Rank::Ten => "10"@,
        Rank::Jack => "J"@,
        Rank::Queen => "Q"@,
        Rank::King => "K"@,
    }
}

pub open spec fn suit_text(s: Suit) -> Seq<char> {
    match s {
        Suit::Spades => "♠"@,
        Suit::Hearts => "♥"@,
        Suit::Clubs => "♣"@,
        Suit::Diamonds => "♦"@,
    }
}

/// A card as text: the rank's abbreviation followed by the suit's glyph.
pub open spec fn card_text(c: Card) -> Seq<char> {
    rank_text(c.rank) + suit_text(c.suit)
}

/// The cards as text, separated by single spaces.
pub open spec fn cards_text(cards: Seq<Card>) -> Seq<char>
    decreases cards.len(),
{
    if cards.len() == 0 {
        Seq::empty()
    } else if cards.len() == 1 {
        card_text(cards[0])
    } else {
        cards_text(cards.drop_last()) + " "@ + card_text(cards.last())
    }
}

/// The sum of the base values, every Ace counted as 11.
pub open spec fn raw_total(cards: Seq<Card>) -> nat
    decreases cards.len(),
{
    if cards.len() == 0 {
        0
    } else {
        raw_total(cards.drop_last()) + rank_value(cards.last().rank)
    }
}

/// The number of Aces among the cards.
pub open spec fn ace_count(cards: Seq<Card>) -> nat
    decreases cards.len(),
{
    if cards.len() == 0 {
        0
    } else {
        ace_count(cards.drop_last()) + if cards.last().rank == Rank::Ace { 1nat } else { 0nat }
    }
}

/// The total when `k` of the Aces are counted as 1 and the others as 11.
pub open spec fn total_with_demoted(cards: Seq<Card>, k: nat) -> int {
    raw_total(cards) - 10 * k
}

/// The total with every Ace counted as 1.
pub open spec fn hard_total(cards: Seq<Card>) -> int {
    total_with_demoted(cards, ace_count(cards))
}

/// The blackjack value of a hand: the raw total, less 10 for each Ace that must
/// count as 1 to bring the total to 21 or under, as far as the Aces go.
pub open spec fn hand_value(cards: Seq<Card>) -> int {
    let s = raw_total(cards) as int;
    if s <= 21 {
        s
    } else {
        let needed = (s - 21 + 9) / 10;
        let k = if needed <= ace_count(cards) { needed } else { ace_count(cards) as int };
        s - 10 * k
    }
}

/// Whether `t` is the best count of the hand: the largest total of 21 or under
/// that some choice of Aces as 1 or 11 gives, or, where every choice busts, the
/// total with every Ace as 1.
pub open spec fn is_best_count(cards: Seq<Card>, t: int) -> bool {
    &&& exists|k: nat| k <= ace_count(cards) && t == total_with_demoted(cards, k)
    &&& if hard_total(cards) <= 21 {
        t <= 21 && forall|k: nat|
            k <= ace_count(cards) && total_with_demoted(cards, k) <= 21 ==> #[trigger] total_with_demoted(cards, k) <= t
    } else {
        t == hard_total(cards)
    }
}

pub proof fn lemma_aces_bounded(cards: Seq<Card>)
    ensures
        ace_count(cards) <= cards.len(),
        raw_total(cards) >= 10 * ace_count(cards) + cards.len(),
        raw_total(cards) <= 11 * cards.len(),
    decreases cards.len(),
{
    if cards.len() > 0 {
        lemma_aces_bounded(cards.drop_last());
    }
}

/// Every hand's value is its best count: the largest total of 21 or under that
/// some choice of Aces as 1 or 11 gives, else the total with every Ace as 1.
pub proof fn lemma_value_is_best_count(cards: Seq<Card>)
    ensures
        is_best_count(cards, hand_value(cards)),
{
    let s = raw_total(cards) as int;
    let a = ace_count(cards);
    lemma_aces_bounded(cards);
    if s <= 21 {
        assert(total_with_demoted(cards, 0) == s);
        assert forall|k: nat| k <= a && total_with_demoted(cards, k) <= 21
            implies #[trigger] total_with_demoted(cards, k) <= s by {}
    } else {
        let needed = (s - 21 + 9) / 10;
        assert(needed >= 1);
        if needed <= a {
            let kk = needed as nat;
            assert(total_with_demoted(cards, kk) == hand_value(cards));
            assert(s - 10 * needed <= 21);
            assert(s - 10 * (needed - 1) > 21);
            assert forall|k: nat| k <= a && total_with_demoted(cards, k) <= 21
                implies #[trigger] total_with_demoted(cards, k) <= hand_value(cards) by {
                assert(k >= needed);
            }
        } else {
            assert(total_with_demoted(cards, a) == hand_value(cards));
            assert(s - 10 * a > 21);
        }
    }
}

/// The value of a hand is never below the number of its cards.
pub proof fn lemma_value_at_least_len(cards: Seq<Card>)
    ensures
        hand_value(cards) >= hard_total(cards),
        hard_total(cards) >= cards.len(),
{
    lemma_aces_bounded(cards);
}

/// Adding a card adds its base value to the raw total, and at least 1 to the
/// total with every Ace counted as 1.
pub proof fn lemma_push_totals(cards: Seq<Card>, c: Card)
    ensures
        raw_total(cards.push(c)) == raw_total(cards) + rank_value(c.rank),
        ace_count(cards.push(c)) == ace_count(cards) + if c.rank == Rank::Ace { 1nat } else { 0nat },
        hard_total(cards.push(c)) >= hard_total(cards) + 1,
{
    assert(cards.push(c).drop_last() =~= cards);
}

impl Rank {
    pub fn all() -> (r: [Rank; 13])
        ensures
            r@ == rank_seq(),
    {
        let r = [
            Rank::Ace, Rank::Two, Rank::Three, Rank::Four, Rank::Five, Rank::Six, Rank::Seven,
            Rank::Eight, Rank::Nine, Rank::Ten, Rank::Jack, Rank::Queen, Rank::King,
        ];
        assert(r@ =~= rank_seq());
        r
    }

    pub fn initial_val(&self) -> (r: usize)
        ensures
            r == rank_value(*self),
    {
        match self {
            Rank::Ace => 11,
            Rank::Two => 2,
            Rank::Three => 3,
            Rank::Four => 4,
            Rank::Five => 5,
            Rank::Six => 6,
            Rank::Seven => 7,
            Rank::Eight => 8,
            Rank::Nine => 9,
            Rank::Ten => 10,
            Rank::Jack => 10,
            Rank::Queen => 10,
            Rank::King => 10,
        }
    }

    /// The rank's abbreviation.
    pub fn text(&self) -> (r: &'static str)
        ensures
            r@ == rank_text(*self),
    {
        match self {
            Rank::Ace => "A",
            Rank::Two => "2",
            Rank::Three => "3",
            Rank::Four => "4",
            Rank::Five => "5",
            Rank::Six => "6",
            Rank::Seven => "7",
            Rank::Eight => "8",
            Rank::Nine => "9",
            Rank::Ten => "10",
            Rank::Jack => "J",
            Rank::Queen => "Q",
            Rank::King => "K",
        }
    }
}

impl vstd::std_specs::convert::TryFromSpecImpl<usize> for Rank {
    open spec fn obeys_try_from_spec() -> bool {
        true
    }

    open spec fn try_from_spec(value: usize) -> Result<Rank, &'static str> {
        if value == 0 {
            Err("No card for zero")
        } else if value <= 13 {
            Ok(rank_seq()[value - 1])
        } else {
            Err("No card for value greater than thirteen")
        }
    }
}

impl core::convert::TryFrom<usize> for Rank {
    type Error = &'static str;

    /// The rank whose number is `value`: 1 is the Ace, 11 to 13 the face cards.
    fn try_from(value: usize) -> (r: Result<Rank, &'static str>) {
        match value {
            0 => Err("No card for zero"),
            1 => Ok(Rank::Ace),
            2 => Ok(Rank::Two),
            3 => Ok(Rank::Three),
            4 => Ok(Rank::Four),
            5 => Ok(Rank::Five),
            6 => Ok(Rank::Six),
            7 => Ok(Rank::Seven),
            8 => Ok(Rank::Eight),
            9 => Ok(Rank::Nine),
            10 => Ok(Rank::Ten),
            11 => Ok(Rank::Jack),
            12 => Ok(Rank::Queen),
            13 => Ok(Rank::King),
            _ => Err("No card for value greater than thirteen"),
        }
    }
}

impl Suit {
    pub fn all() -> (r: [Suit; 4])
        ensures
            r@ == suit_seq(),
    {
        let r = [Suit::Spades, Suit::Hearts, Suit::Clubs, Suit::Diamonds];
        assert(r@ =~= suit_seq());
        r
    }

    /// The suit's glyph.
    pub fn text(&self) -> (r: &'static str)
        ensures
            r@ == suit_text(*self),
    {
        match self {
            Suit::Spades => "♠",
            Suit::Hearts => "♥",
            Suit::Clubs => "♣",
            Suit::Diamonds => "♦",
        }
    }
}

impl Card {
    pub fn new(rank: Rank, suit: Suit) -> (r: Card)
        ensures
            r == (Card { rank, suit }),
    {
        Card { rank, suit }
    }

    pub fn initial_val(&self) -> (r: usize)
        ensures
            r == rank_value(self.rank),
    {
        self.rank.initial_val()
    }

    /// The card as text, as in `A♠` or `10♦`.
    pub fn to_string(&self) -> (r: String)
        ensures
            r@ == card_text(*self),
    {
        let mut s = String::from_str(self.rank.text());
        s.append(self.suit.text());
        s
    }
}

/// Every card of a full set, once each.
pub fn all_cards() -> (r: Vec<Card>)
    ensures
        r@ == full_deck(),
{
    let suits = Suit::all();
    let ranks = Rank::all();
    let mut r: Vec<Card> = Vec::new();
    let mut si: usize = 0;
    while si < 4
        invariant
            si <= 4,
            suits@ == suit_seq(),
            ranks@ == rank_seq(),
            r@ == full_deck().take(13 * si as int),
        decreases 4 - si,
    {
        let mut ri: usize = 0;
        while ri < 13
            invariant
                si < 4,
                ri <= 13,
                suits@ == suit_seq(),
                ranks@ == rank_seq(),
                r@ == full_deck().take(13 * si as int + ri as int),
            decreases 13 - ri,
        {
            r.push(Card::new(ranks[ri], suits[si]));
            proof {
                let n = 13 * si as int + ri as int;
                assert(n % 13 == ri as int && n / 13 == si as int) by (nonlinear_arith)
                    requires n == 13 * si as int + ri as int, ri < 13;
                assert(r@ =~= full_deck().take(n + 1));
            }
            ri = ri + 1;
        }
        si = si + 1;
    }
    assert(r@ =~= full_deck());
    r
}

fn div_ceil(x: usize, y: usize) -> (r: usize)
    requires
        x >= 1,
        y >= 1,
    ensures
        r == (x + y - 1) / (y as int),
{
    proof {
        assert((x - 1) / (y as int) + 1 == (x + y - 1) / (y as int)) by (nonlinear_arith)
            requires x >= 1, y >= 1;
    }
    (x - 1) / y + 1
}

pub struct Hand {
    cards: Vec<Card>,
}

impl View for Hand {
    type V = Seq<Card>;

    closed spec fn view(&self) -> Seq<Card> {
        self.cards@
    }
}

impl Hand {
    pub fn new() -> (r: Hand)
        ensures
            r@ == Seq::<Card>::empty(),
    {
        Hand { cards: Vec::new() }
    }

    /// The blackjack value of the hand.
    pub fn val(&self) -> (r: usize)
        requires
            11 * self@.len() <= usize::MAX,
        ensures
            r == hand_value(self@),
    {
        let mut num_aces: usize = 0;
        let mut sum: usize = 0;
        let mut i: usize = 0;
        while i < self.cards.len()
            invariant
                11 * self@.len() <= usize::MAX,
                i <= self@.len(),
                sum == raw_total(self@.take(i as int)),
                num_aces == ace_count(self@.take(i as int)),
                num_aces <= i,
            decreases self@.len() - i,
        {
            let card = self.cards[i];
            proof {
                let p = self@.take(i as int + 1);
                assert(p.drop_last() =~= self@.take(i as int));
                lemma_aces_bounded(p);
            }
            if card.rank == Rank::Ace {
                num_aces = num_aces + 1;
            }
            sum = sum + card.initial_val();
            i = i + 1;
        }
        assert(self@.take(i as int) =~= self@);
        if sum > BLACKJACK {
            // demoting an Ace from 11 to 1 takes 10 off the total
            let num_aces_needed = div_ceil(sum - BLACKJACK, 10);
            let k = if num_aces_needed < num_aces { num_aces_needed } else { num_aces };
            proof {
                lemma_aces_bounded(self@);
            }
            sum - 10 * k
        } else {
            sum
        }
    }

    pub fn add(&mut self, card: Card)
        ensures
            final(self)@ == old(self)@.push(card),
    {
        self.cards.push(card);
    }

    pub fn cards(&self) -> (r: &Vec<Card>)
        ensures
            r@ == self@,
    {
        &self.cards
    }

    pub fn mut_cards(&mut self) -> (r: &mut Vec<Card>)
        ensures
            r@ == old(self)@,
            final(self)@ == final(r)@,
    {
        &mut self.cards
    }

    fn cards_string(cards: &[Card], from: usize) -> (r: String)
        requires
            from <= cards@.len(),
        ensures
            r@ == cards_text(cards@.skip(from as int)),
    {
        let mut s = String::new();
        let mut i: usize = from;
        while i < cards.len()
            invariant
                from <= i <= cards@.len(),
                s@ == cards_text(cards@.subrange(from as int, i as int)),
            decreases cards@.len() - i,
        {
            let c = cards[i].to_string();
            if i > from {
                s.append(" ");
            }
            s.append(c.as_str());
            proof {
                let p = cards@.subrange(from as int, i as int + 1);
                assert(p.drop_last() =~= cards@.subrange(from as int, i as int));
            }
            i = i + 1;
        }
        assert(cards@.subrange(from as int, i as int) =~= cards@.skip(from as int));
        s
    }

    /// All the cards as text, separated by spaces.
    pub fn hand_string(&self) -> (r: String)
        ensures
            r@ == cards_text(self@),
    {
        assert(self@.skip(0) =~= self@);
        Hand::cards_string(self.cards.as_slice(), 0)
    }

    /// The cards but the first (the one dealt face down), as text.
    pub fn hidden_hand_string(&self) -> (r: String)
        ensures
            self@.len() > 0 ==> r@ == cards_text(self@.skip(1)),
            self@.len() == 0 ==> r@ == Seq::<char>::empty(),
    {
        if self.cards.len() == 0 {
            String::new()
        } else {
            Hand::cards_string(self.cards.as_slice(), 1)
        }
    }
}

} // verus!
