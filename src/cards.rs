//! Cards, seats and the play/discard actions of the game the policies learn.
use crate::random::shuffled_positions;
use vstd::prelude::*;

verus! {

#[derive(Clone, Copy, Debug, PartialEq, Eq, Structural)]
pub enum Suit {
    Spade,
    Heart,
    Diamond,
    Club,
}

#[derive(Clone, Copy, Debug, PartialEq, Eq, Structural)]
pub enum Rank {
    Nine,
    Ten,
    Jack,
    Queen,
    King,
    Ace,
}

#[derive(Clone, Copy, Debug, PartialEq, Eq, Structural)]
pub struct Card {
    pub suit: Suit,
    pub rank: Rank,
}

#[derive(Clone, Copy, Debug, PartialEq, Eq, Structural)]
pub enum Position {
    North,
    East,
    South,
    West,
}

/// The seat that plays after `player`, clockwise.
pub open spec fn next_seat(player: Position) -> Position {
    match player {
        Position::North => Position::East,
        Position::East => Position::South,
        Position::South => Position::West,
        Position::West => Position::North,
    }
}

/// The seat to the left of `player`, which plays next.
pub fn left_player(player: &Position) -> (r: &Position)
    ensures
        *r == next_seat(*player),
{
    match player {
        Position::North => &Position::East,
        Position::East => &Position::South,
        Position::South => &Position::West,
        Position::West => &Position::North,
    }
}

/// Everything a player can do, in the order of the network's output layer:
/// playing each card, discarding each card, then the bids.
#[derive(Clone, Copy, Debug, PartialEq, Eq, Structural)]
pub enum Action {
    PlaySpadeNine,
    PlaySpadeTen,
    PlaySpadeJack,
    PlaySpadeQueen,
    PlaySpadeKing,
    PlaySpadeAce,
    PlayHeartNine,
    PlayHeartTen,
    PlayHeartJack,
    PlayHeartQueen,
    PlayHeartKing,
    PlayHeartAce,
    PlayDiamondNine,
    PlayDiamondTen,
    PlayDiamondJack,
    PlayDiamondQueen,
    PlayDiamondKing,
    PlayDiamondAce,
    PlayClubNine,
    PlayClubTen,
    PlayClubJack,
    PlayClubQueen,
    PlayClubKing,
    PlayClubAce,
    DiscardSpadeNine,
    DiscardSpadeTen,
    DiscardSpadeJack,
    DiscardSpadeQueen,
    DiscardSpadeKing,
    DiscardSpadeAce,
    DiscardHeartNine,
    DiscardHeartTen,
    DiscardHeartJack,
    DiscardHeartQueen,
    DiscardHeartKing,
    DiscardHeartAce,
    DiscardDiamondNine,
    DiscardDiamondTen,
    DiscardDiamondJack,
    DiscardDiamondQueen,
    DiscardDiamondKing,
    DiscardDiamondAce,
    DiscardClubNine,
    DiscardClubTen,
    DiscardClubJack,
    DiscardClubQueen,
    DiscardClubKing,
    DiscardClubAce,
    MakeUpcard,
    MakeUpcardAlone,
    PassUpcard,
    MakeSuitSpade,
    MakeSuitHeart,
    MakeSuitDiamond,
    MakeSuitClub,
    MakeSuitSpadeAlone,
    MakeSuitHeartAlone,
    MakeSuitDiamondAlone,
    MakeSuitClubAlone,
    PassSuit,
}

impl Action {
    /// The output node that scores this action.
    pub open spec fn spec_index(self) -> int {
        match self {
            Action::PlaySpadeNine => 0,
            Action::PlaySpadeTen => 1,
            Action::PlaySpadeJack => 2,
            Action::PlaySpadeQueen => 3,
            Action::PlaySpadeKing => 4,
            Action::PlaySpadeAce => 5,
            Action::PlayHeartNine => 6,
            Action::PlayHeartTen => 7,
            Action::PlayHeartJack => 8,
            Action::PlayHeartQueen => 9,
            Action::PlayHeartKing => 10,
            Action::PlayHeartAce => 11,
            Action::PlayDiamondNine => 12,
            Action::PlayDiamondTen => 13,
            Action::PlayDiamondJack => 14,
            Action::PlayDiamondQueen => 15,
            Action::PlayDiamondKing => 16,
            Action::PlayDiamondAce => 17,
            Action::PlayClubNine => 18,
            Action::PlayClubTen => 19,
            Action::PlayClubJack => 20,
            Action::PlayClubQueen => 21,
            Action::PlayClubKing => 22,
            Action::PlayClubAce => 23,
            Action::DiscardSpadeNine => 24,
            Action::DiscardSpadeTen => 25,
            Action::DiscardSpadeJack => 26,
            Action::DiscardSpadeQueen => 27,
            Action::DiscardSpadeKing => 28,
            Action::DiscardSpadeAce => 29,
            Action::DiscardHeartNine => 30,
            Action::DiscardHeartTen => 31,
            Action::DiscardHeartJack => 32,
            Action::DiscardHeartQueen => 33,
            Action::DiscardHeartKing => 34,
            Action::DiscardHeartAce => 35,
            Action::DiscardDiamondNine => 36,
            Action::DiscardDiamondTen => 37,
            Action::DiscardDiamondJack => 38,
            Action::DiscardDiamondQueen => 39,
            Action::DiscardDiamondKing => 40,
            Action::DiscardDiamondAce => 41,
            Action::DiscardClubNine => 42,
            Action::DiscardClubTen => 43,
            Action::DiscardClubJack => 44,
            Action::DiscardClubQueen => 45,
            Action::DiscardClubKing => 46,
            Action::DiscardClubAce => 47,
            Action::MakeUpcard => 48,
            Action::MakeUpcardAlone => 49,
            Action::PassUpcard => 50,
            Action::MakeSuitSpade => 51,
            Action::MakeSuitHeart => 52,
            Action::MakeSuitDiamond => 53,
            Action::MakeSuitClub => 54,
            Action::MakeSuitSpadeAlone => 55,
            Action::MakeSuitHeartAlone => 56,
            Action::MakeSuitDiamondAlone => 57,
            Action::MakeSuitClubAlone => 58,
            Action::PassSuit => 59,
        }
    }

    /// The output node that scores this action.
    pub fn index(&self) -> (r: usize)
        ensures
            r == self.spec_index(),
            r < 60,
    {
        match self {
            Action::PlaySpadeNine => 0,
            Action::PlaySpadeTen => 1,
            Action::PlaySpadeJack => 2,
            Action::PlaySpadeQueen => 3,
            Action::PlaySpadeKing => 4,
            Action::PlaySpadeAce => 5,
            Action::PlayHeartNine => 6,
            Action::PlayHeartTen => 7,
            Action::PlayHeartJack => 8,
            Action::PlayHeartQueen => 9,
            Action::PlayHeartKing => 10,
            Action::PlayHeartAce => 11,
            Action::PlayDiamondNine => 12,
            Action::PlayDiamondTen => 13,
            Action::PlayDiamondJack => 14,
            Action::PlayDiamondQueen => 15,
            Action::PlayDiamondKing => 16,
            Action::PlayDiamondAce => 17,
            Action::PlayClubNine => 18,
            Action::PlayClubTen => 19,
            Action::PlayClubJack => 20,
            Action::PlayClubQueen => 21,
            Action::PlayClubKing => 22,
            Action::PlayClubAce => 23,
            Action::DiscardSpadeNine => 24,
            Action::DiscardSpadeTen => 25,
            Action::DiscardSpadeJack => 26,
            Action::DiscardSpadeQueen => 27,
            Action::DiscardSpadeKing => 28,
            Action::DiscardSpadeAce => 29,
            Action::DiscardHeartNine => 30,
            Action::DiscardHeartTen => 31,
            Action::DiscardHeartJack => 32,
            Action::DiscardHeartQueen => 33,
            Action::DiscardHeartKing => 34,
            Action::DiscardHeartAce => 35,
            Action::DiscardDiamondNine => 36,
            Action::DiscardDiamondTen => 37,
            Action::DiscardDiamondJack => 38,
            Action::DiscardDiamondQueen => 39,
            Action::DiscardDiamondKing => 40,
            Action::DiscardDiamondAce => 41,
            Action::DiscardClubNine => 42,
            Action::DiscardClubTen => 43,
            Action::DiscardClubJack => 44,
            Action::DiscardClubQueen => 45,
            Action::DiscardClubKing => 46,
            Action::DiscardClubAce => 47,
            Action::MakeUpcard => 48,
            Action::MakeUpcardAlone => 49,
            Action::PassUpcard => 50,
            Action::MakeSuitSpade => 51,
            Action::MakeSuitHeart => 52,
            Action::MakeSuitDiamond => 53,
            Action::MakeSuitClub => 54,
            Action::MakeSuitSpadeAlone => 55,
            Action::MakeSuitHeartAlone => 56,
            Action::MakeSuitDiamondAlone => 57,
            Action::MakeSuitClubAlone => 58,
            Action::PassSuit => 59,
        }
    }
}

/// The card at position `i` of the deck order: suits spade, heart, diamond,
/// club, and within each the ranks from nine to ace.
pub open spec fn card_at(i: int) -> Card {
    Card { suit: suit_at(i / 6), rank: rank_at(i % 6) }
}

pub open spec fn suit_at(i: int) -> Suit {
    if i == 0 {
        Suit::Spade
    } else if i == 1 {
        Suit::Heart
    } else if i == 2 {
        Suit::Diamond
    } else {
        Suit::Club
    }
}

pub open spec fn rank_at(i: int) -> Rank {
    if i == 0 {
        Rank::Nine
    } else if i == 1 {
        Rank::Ten
    } else if i == 2 {
        Rank::Jack
    } else if i == 3 {
        Rank::Queen
    } else if i == 4 {
        Rank::King
    } else {
        Rank::Ace
    }
}

/// The card that `action` plays, if it plays one.
pub open spec fn played_card(action: Action) -> Option<Card> {
    let i = action.spec_index();
    if i < 24 {
        Some(card_at(i))
    } else {
        None
    }
}

/// The card that `action` discards, if it discards one.
pub open spec fn discarded_card(action: Action) -> Option<Card> {
    let i = action.spec_index();
    if 24 <= i < 48 {
        Some(card_at(i - 24))
    } else {
        None
    }
}

fn card_played_by(action: &Action) -> (r: Option<Card>)
    ensures
        r == played_card(*action),
{
    match action {
        Action::PlaySpadeNine => Some(Card { suit: Suit::Spade, rank: Rank::Nine }),
        Action::PlaySpadeTen => Some(Card { suit: Suit::Spade, rank: Rank::Ten }),
        Action::PlaySpadeJack => Some(Card { suit: Suit::Spade, rank: Rank::Jack }),
        Action::PlaySpadeQueen => Some(Card { suit: Suit::Spade, rank: Rank::Queen }),
        Action::PlaySpadeKing => Some(Card { suit: Suit::Spade, rank: Rank::King }),
        Action::PlaySpadeAce => Some(Card { suit: Suit::Spade, rank: Rank::Ace }),
        Action::PlayHeartNine => Some(Card { suit: Suit::Heart, rank: Rank::Nine }),
        Action::PlayHeartTen => Some(Card { suit: Suit::Heart, rank: Rank::Ten }),
        Action::PlayHeartJack => Some(Card { suit: Suit::Heart, rank: Rank::Jack }),
        Action::PlayHeartQueen => Some(Card { suit: Suit::Heart, rank: Rank::Queen }),
        Action::PlayHeartKing => Some(Card { suit: Suit::Heart, rank: Rank::King }),
        Action::PlayHeartAce => Some(Card { suit: Suit::Heart, rank: Rank::Ace }),
        Action::PlayDiamondNine => Some(Card { suit: Suit::Diamond, rank: Rank::Nine }),
        Action::PlayDiamondTen => Some(Card { suit: Suit::Diamond, rank: Rank::Ten }),
        Action::PlayDiamondJack => Some(Card { suit: Suit::Diamond, rank: Rank::Jack }),
        Action::PlayDiamondQueen => Some(Card { suit: Suit::Diamond, rank: Rank::Queen }),
        Action::PlayDiamondKing => Some(Card { suit: Suit::Diamond, rank: Rank::King }),
        Action::PlayDiamondAce => Some(Card { suit: Suit::Diamond, rank: Rank::Ace }),
        Action::PlayClubNine => Some(Card { suit: Suit::Club, rank: Rank::Nine }),
        Action::PlayClubTen => Some(Card { suit: Suit::Club, rank: Rank::Ten }),
        Action::PlayClubJack => Some(Card { suit: Suit::Club, rank: Rank::Jack }),
        Action::PlayClubQueen => Some(Card { suit: Suit::Club, rank: Rank::Queen }),
        Action::PlayClubKing => Some(Card { suit: Suit::Club, rank: Rank::King }),
        Action::PlayClubAce => Some(Card { suit: Suit::Club, rank: Rank::Ace }),
        _ => None,
    }
}

fn card_discarded_by(action: &Action) -> (r: Option<Card>)
    ensures
        r == discarded_card(*action),
{
    match action {
        Action::DiscardSpadeNine => Some(Card { suit: Suit::Spade, rank: Rank::Nine }),
        Action::DiscardSpadeTen => Some(Card { suit: Suit::Spade, rank: Rank::Ten }),
        Action::DiscardSpadeJack => Some(Card { suit: Suit::Spade, rank: Rank::Jack }),
        Action::DiscardSpadeQueen => Some(Card { suit: Suit::Spade, rank: Rank::Queen }),
        Action::DiscardSpadeKing => Some(Card { suit: Suit::Spade, rank: Rank::King }),
        Action::DiscardSpadeAce => Some(Card { suit: Suit::Spade, rank: Rank::Ace }),
        Action::DiscardHeartNine => Some(Card { suit: Suit::Heart, rank: Rank::Nine }),
        Action::DiscardHeartTen => Some(Card { suit: Suit::Heart, rank: Rank::Ten }),
        Action::DiscardHeartJack => Some(Card { suit: Suit::Heart, rank: Rank::Jack }),
        Action::DiscardHeartQueen => Some(Card { suit: Suit::Heart, rank: Rank::Queen }),
        Action::DiscardHeartKing => Some(Card { suit: Suit::Heart, rank: Rank::King }),
        Action::DiscardHeartAce => Some(Card { suit: Suit::Heart, rank: Rank::Ace }),
        Action::DiscardDiamondNine => Some(Card { suit: Suit::Diamond, rank: Rank::Nine }),
        Action::DiscardDiamondTen => Some(Card { suit: Suit::Diamond, rank: Rank::Ten }),
        Action::DiscardDiamondJack => Some(Card { suit: Suit::Diamond, rank: Rank::Jack }),
        Action::DiscardDiamondQueen => Some(Card { suit: Suit::Diamond, rank: Rank::Queen }),
        Action::DiscardDiamondKing => Some(Card { suit: Suit::Diamond, rank: Rank::King }),
        Action::DiscardDiamondAce => Some(Card { suit: Suit::Diamond, rank: Rank::Ace }),
        Action::DiscardClubNine => Some(Card { suit: Suit::Club, rank: Rank::Nine }),
        Action::DiscardClubTen => Some(Card { suit: Suit::Club, rank: Rank::Ten }),
        Action::DiscardClubJack => Some(Card { suit: Suit::Club, rank: Rank::Jack }),
        Action::DiscardClubQueen => Some(Card { suit: Suit::Club, rank: Rank::Queen }),
        Action::DiscardClubKing => Some(Card { suit: Suit::Club, rank: Rank::King }),
        Action::DiscardClubAce => Some(Card { suit: Suit::Club, rank: Rank::Ace }),
        _ => None,
    }
}

/// The action that plays `card`.
pub fn get_card_play_action(card: &Card) -> (r: Action)
    ensures
        played_card(r) == Some(*card),
{
    match (card.suit, card.rank) {
        (Suit::Spade, Rank::Nine) => Action::PlaySpadeNine,
        (Suit::Spade, Rank::Ten) => Action::PlaySpadeTen,
        (Suit::Spade, Rank::Jack) => Action::PlaySpadeJack,
        (Suit::Spade, Rank::Queen) => Action::PlaySpadeQueen,
        (Suit::Spade, Rank::King) => Action::PlaySpadeKing,
        (Suit::Spade, Rank::Ace) => Action::PlaySpadeAce,
        (Suit::Heart, Rank::Nine) => Action::PlayHeartNine,
        (Suit::Heart, Rank::Ten) => Action::PlayHeartTen,
        (Suit::Heart, Rank::Jack) => Action::PlayHeartJack,
        (Suit::Heart, Rank::Queen) => Action::PlayHeartQueen,
        (Suit::Heart, Rank::King) => Action::PlayHeartKing,
        (Suit::Heart, Rank::Ace) => Action::PlayHeartAce,
        (Suit::Diamond, Rank::Nine) => Action::PlayDiamondNine,
        (Suit::Diamond, Rank::Ten) => Action::PlayDiamondTen,
        (Suit::Diamond, Rank::Jack) => Action::PlayDiamondJack,
        (Suit::Diamond, Rank::Queen) => Action::PlayDiamondQueen,
        (Suit::Diamond, Rank::King) => Action::PlayDiamondKing,
        (Suit::Diamond, Rank::Ace) => Action::PlayDiamondAce,
        (Suit::Club, Rank::Nine) => Action::PlayClubNine,
        (Suit::Club, Rank::Ten) => Action::PlayClubTen,
        (Suit::Club, Rank::Jack) => Action::PlayClubJack,
        (Suit::Club, Rank::Queen) => Action::PlayClubQueen,
        (Suit::Club, Rank::King) => Action::PlayClubKing,
        (Suit::Club, Rank::Ace) => Action::PlayClubAce,
    }
}

/// `i` is the first slot of `hand` that holds `card`.
pub open spec fn first_slot_holding(hand: Seq<Option<Card>>, card: Card, i: int) -> bool {
    &&& 0 <= i < hand.len()
    &&& hand[i] == Some(card)
    &&& forall|j: int| 0 <= j < i ==> #[trigger] hand[j] != Some(card)
}

/// Empties the first slot of `hand` that holds `card`.
fn take_from_hand(hand: &mut [Option<Card>; 6], card: Card)
    requires
        old(hand)@.contains(Some(card)),
    ensures
        exists|i: int|
            first_slot_holding(old(hand)@, card, i) && final(hand)@ == old(hand)@.update(i, None),
{
    let mut i: usize = 0;
    while i < 6
        invariant
            i <= 6,
            *hand == *old(hand),
            forall|j: int| 0 <= j < i ==> #[trigger] hand@[j] != Some(card),
        decreases 6 - i,
    {
        let holds = match hand[i] {
            Some(c) => c == card,
            None => false,
        };
        if holds {
            let ghost before = hand@;
            hand[i] = None;
            assert(first_slot_holding(before, card, i as int));
            return;
        }
        i += 1;
    }
    proof {
        let k = choose|k: int| 0 <= k < old(hand)@.len() && old(hand)@[k] == Some(card);
        assert(hand@[k] != Some(card));
    }
}

/// Plays the card that `action` names from `hand`, emptying the first slot
/// that holds it, and returns the card. The action must play a card that
/// the hand holds: the rules offer no other.
pub fn play_from_hand(hand: &mut [Option<Card>; 6], action: &Action) -> (r: Card)
    requires
        played_card(*action) is Some,
        old(hand)@.contains(Some(played_card(*action)->Some_0)),
    ensures
        Some(r) == played_card(*action),
        exists|i: int| first_slot_holding(old(hand)@, r, i) && final(hand)@ == old(hand)@.update(i, None),
{
    let card = match card_played_by(action) {
        Some(c) => c,
        None => vstd::pervasive::unreached(),
    };
    take_from_hand(hand, card);
    card
}

/// Discards the card that `action` names from `hand`, emptying the first
/// slot that holds it. The action must discard a card that the hand holds.
pub fn discard_from_hand(hand: &mut [Option<Card>; 6], action: &Action)
    requires
        discarded_card(*action) is Some,
        old(hand)@.contains(Some(discarded_card(*action)->Some_0)),
    ensures
        exists|i: int|
            first_slot_holding(old(hand)@, discarded_card(*action)->Some_0, i) && final(hand)@
                == old(hand)@.update(i, None),
{
    let card = match card_discarded_by(action) {
        Some(c) => c,
        None => vstd::pervasive::unreached(),
    };
    take_from_hand(hand, card);
}

/// The other suit of the same colour.
pub open spec fn partner_suit(suit: Suit) -> Suit {
    match suit {
        Suit::Spade => Suit::Club,
        Suit::Club => Suit::Spade,
        Suit::Heart => Suit::Diamond,
        Suit::Diamond => Suit::Heart,
    }
}

/// The suit a card follows: the jack of the trump suit's partner (the left
/// bower) counts as trump, every other card as its own suit.
pub open spec fn effective_suit(card: Card, trump_suit: Suit) -> Suit {
    if card.rank == Rank::Jack && card.suit == partner_suit(trump_suit) {
        trump_suit
    } else {
        card.suit
    }
}

pub open spec fn rank_order(rank: Rank) -> int {
    match rank {
        Rank::Nine => 1,
        Rank::Ten => 2,
        Rank::Jack => 3,
        Rank::Queen => 4,
        Rank::King => 5,
        Rank::Ace => 6,
    }
}

/// How strongly `card` takes a trick led in `lead_suit`: a card that
/// follows neither trump nor the lead has no strength; trump beats the
/// lead suit; within trump the jack of trump (the right bower) ranks
/// highest, then the left bower, then ace down to nine; within the lead
/// suit ace down to nine.
pub open spec fn trick_power(card: Card, lead_suit: Suit, trump_suit: Suit) -> int {
    let suit = effective_suit(card, trump_suit);
    if suit == trump_suit {
        if card.rank == Rank::Jack {
            if card.suit == trump_suit {
                20
            } else {
                19
            }
        } else {
            10 + rank_order(card.rank)
        }
    } else if suit == lead_suit {
        rank_order(card.rank)
    } else {
        0
    }
}

fn adjust_card_suit(card: &Card, trump_suit: &Suit) -> (r: Suit)
    ensures
        r == effective_suit(*card, *trump_suit),
{
    match (card.rank, card.suit, trump_suit) {
        (Rank::Jack, Suit::Spade, Suit::Club)
        | (Rank::Jack, Suit::Club, Suit::Spade)
        | (Rank::Jack, Suit::Diamond, Suit::Heart)
        | (Rank::Jack, Suit::Heart, Suit::Diamond) => *trump_suit,
        _ => card.suit,
    }
}

fn rank_value(rank: Rank) -> (r: u8)
    ensures
        r == rank_order(rank),
{
    match rank {
        Rank::Nine => 1,
        Rank::Ten => 2,
        Rank::Jack => 3,
        Rank::Queen => 4,
        Rank::King => 5,
        Rank::Ace => 6,
    }
}

fn card_power(card: &Card, lead_suit: Suit, trump_suit: Suit) -> (r: u8)
    ensures
        r == trick_power(*card, lead_suit, trump_suit),
{
    let suit = adjust_card_suit(card, &trump_suit);
    if suit == trump_suit {
        match card.rank {
            Rank::Jack => if card.suit == trump_suit {
                20
            } else {
                19
            },
            rank => 10 + rank_value(rank),
        }
    } else if suit == lead_suit {
        rank_value(card.rank)
    } else {
        0
    }
}

/// Whether `card` takes the trick from `winning_card`, the best card played
/// so far under `lead_suit`. The first card of a trick, with nothing to beat,
/// always takes it.
pub fn card_wins(
    card: &Card,
    winning_card: &Option<Card>,
    lead_suit: &Option<Suit>,
    trump_suit: &Suit,
) -> (r: bool)
    ensures
        r == match (*winning_card, *lead_suit) {
            (Some(w), Some(l)) => trick_power(*card, l, *trump_suit) > trick_power(w, l, *trump_suit),
            _ => true,
        },
{
    match (winning_card, lead_suit) {
        (Some(winning), Some(lead)) => card_power(card, *lead, *trump_suit) > card_power(
            winning,
            *lead,
            *trump_suit,
        ),
        _ => true,
    }
}

pub open spec fn suit_index(suit: Suit) -> int {
    match suit {
        Suit::Spade => 0,
        Suit::Heart => 1,
        Suit::Diamond => 2,
        Suit::Club => 3,
    }
}

pub open spec fn rank_index(rank: Rank) -> int {
    match rank {
        Rank::Nine => 0,
        Rank::Ten => 1,
        Rank::Jack => 2,
        Rank::Queen => 3,
        Rank::King => 4,
        Rank::Ace => 5,
    }
}

/// The position of `card` in the deck order, the inverse of `card_at`.
pub open spec fn card_index(card: Card) -> int {
    suit_index(card.suit) * 6 + rank_index(card.rank)
}

proof fn lemma_card_index(card: Card)
    ensures
        0 <= card_index(card) < 24,
        card_at(card_index(card)) == card,
{
    vstd::arithmetic::div_mod::lemma_fundamental_div_mod_converse(
        card_index(card),
        6,
        suit_index(card.suit),
        rank_index(card.rank),
    );
}

proof fn lemma_card_at(i: int)
    requires
        0 <= i < 24,
    ensures
        card_index(card_at(i)) == i,
{
    vstd::arithmetic::div_mod::lemma_fundamental_div_mod(i, 6);
    assert(0 <= i % 6 < 6);
    assert(0 <= i / 6 < 4);
}

fn card_position(card: &Card) -> (r: usize)
    ensures
        r == card_index(*card),
        r < 24,
{
    let suit: usize = match card.suit {
        Suit::Spade => 0,
        Suit::Heart => 1,
        Suit::Diamond => 2,
        Suit::Club => 3,
    };
    let rank: usize = match card.rank {
        Rank::Nine => 0,
        Rank::Ten => 1,
        Rank::Jack => 2,
        Rank::Queen => 3,
        Rank::King => 4,
        Rank::Ace => 5,
    };
    suit * 6 + rank
}

/// The hand holds a card of `lead_suit`, by printed suit, when one was led.
pub open spec fn must_follow(hand: Seq<Option<Card>>, lead_suit: Option<Suit>) -> bool {
    &&& lead_suit is Some
    &&& exists|j: int|
        0 <= j < hand.len() && (#[trigger] hand[j]) is Some && hand[j]->Some_0.suit
            == lead_suit->Some_0
}

/// Action `a` plays a card of `hand` that may be played: any card when the
/// hand cannot follow the lead, else a card of the lead suit.
pub open spec fn playable(hand: Seq<Option<Card>>, lead_suit: Option<Suit>, a: int) -> bool {
    &&& 0 <= a < 24
    &&& hand.contains(Some(card_at(a)))
    &&& (!must_follow(hand, lead_suit) || card_at(a).suit == lead_suit->Some_0)
}

/// The play actions open to a player holding `hand` in a trick led in
/// `lead_suit` (`None`: the player leads). A player who holds the lead suit
/// must follow it.
pub fn get_play_available_actions(hand: &[Option<Card>; 6], lead_suit: &Option<Suit>) -> (r: [bool; 60])
    ensures
        forall|a: int| 0 <= a < 60 ==> #[trigger] r@[a] == playable(hand@, *lead_suit, a),
{
    let mut follow = false;
    if let Some(lead) = lead_suit {
        let mut j: usize = 0;
        while j < 6
            invariant
                j <= 6,
                *lead_suit == Some(*lead),
                follow <==> exists|t: int|
                    0 <= t < j && (#[trigger] hand@[t]) is Some && hand@[t]->Some_0.suit == *lead,
            decreases 6 - j,
        {
            if let Some(c) = hand[j] {
                if c.suit == *lead {
                    follow = true;
                }
            }
            j += 1;
        }
    }
    let mut r = [false; 60];
    let mut slot: usize = 0;
    while slot < 6
        invariant
            slot <= 6,
            follow == must_follow(hand@, *lead_suit),
            forall|a: int|
                0 <= a < 60 ==> #[trigger] r@[a] == (0 <= a < 24 && (exists|t: int|
                    0 <= t < slot && hand@[t] == Some(card_at(a))) && (!follow || card_at(a).suit
                    == lead_suit->Some_0)),
        decreases 6 - slot,
    {
        if let Some(c) = hand[slot] {
            let allowed = match lead_suit {
                Some(lead) => !follow || c.suit == *lead,
                None => true,
            };
            if allowed {
                let k = card_position(&c);
                proof {
                    lemma_card_index(c);
                }
                r[k] = true;
            }
        }
        proof {
            assert forall|a: int| 0 <= a < 60 implies #[trigger] r@[a] == (0 <= a < 24 && (exists|t: int|
                0 <= t < slot + 1 && hand@[t] == Some(card_at(a))) && (!follow || card_at(a).suit
                == lead_suit->Some_0)) by {
                if 0 <= a < 24 {
                    lemma_card_at(a);
                    if hand@[slot as int] == Some(card_at(a)) {
                        assert(hand@[slot as int] is Some);
                    }
                }
            }
        }
        slot += 1;
    }
    proof {
        assert forall|a: int| 0 <= a < 60 implies #[trigger] r@[a] == playable(hand@, *lead_suit, a) by {
            if 0 <= a < 24 {
                if hand@.contains(Some(card_at(a))) {
                    let t = choose|t: int| 0 <= t < hand@.len() && hand@[t] == Some(card_at(a));
                    assert(hand@[t] == Some(card_at(a)));
                }
            }
        }
    }
    r
}

/// The discard actions open to a player holding `hand`: one for each card in it.
pub fn get_discard_available_actions(hand: &[Option<Card>; 6]) -> (r: [bool; 60])
    ensures
        forall|a: int|
            0 <= a < 60 ==> #[trigger] r@[a] == (24 <= a < 48 && hand@.contains(Some(card_at(a - 24)))),
{
    let mut r = [false; 60];
    let mut slot: usize = 0;
    while slot < 6
        invariant
            slot <= 6,
            forall|a: int|
                0 <= a < 60 ==> #[trigger] r@[a] == (24 <= a < 48 && exists|t: int|
                    0 <= t < slot && hand@[t] == Some(card_at(a - 24))),
        decreases 6 - slot,
    {
        if let Some(c) = hand[slot] {
            let k = card_position(&c);
            proof {
                lemma_card_index(c);
            }
            r[k + 24] = true;
        }
        proof {
            assert forall|a: int| 0 <= a < 60 implies #[trigger] r@[a] == (24 <= a < 48 && exists|t: int|
                0 <= t < slot + 1 && hand@[t] == Some(card_at(a - 24))) by {
                if 24 <= a < 48 {
                    lemma_card_at(a - 24);
                    if hand@[slot as int] == Some(card_at(a - 24)) {
                        assert(hand@[slot as int] is Some);
                    }
                }
            }
        }
        slot += 1;
    }
    proof {
        assert forall|a: int| 0 <= a < 60 implies #[trigger] r@[a] == (24 <= a < 48 && hand@.contains(
            Some(card_at(a - 24)),
        )) by {
            if 24 <= a < 48 && hand@.contains(Some(card_at(a - 24))) {
                let t = choose|t: int| 0 <= t < hand@.len() && hand@[t] == Some(card_at(a - 24));
                assert(hand@[t] == Some(card_at(a - 24)));
            }
        }
    }
    r
}

/// The bids open once the upcard of `suit` has been turned down: naming any
/// other suit as trump, alone or not, or passing.
pub fn get_bid_suit_available_actions(suit: &Suit) -> (r: [bool; 60])
    ensures
        forall|a: int|
            0 <= a < 60 ==> #[trigger] r@[a] == (a == Action::PassSuit.spec_index() || (
            Action::MakeSuitSpade.spec_index() <= a < Action::MakeSuitSpadeAlone.spec_index()
                && suit_at(a - Action::MakeSuitSpade.spec_index()) != *suit) || (
            Action::MakeSuitSpadeAlone.spec_index() <= a < Action::PassSuit.spec_index() && suit_at(
                a - Action::MakeSuitSpadeAlone.spec_index(),
            ) != *suit)),
{
    let mut r = [false; 60];
    r[Action::PassSuit.index()] = true;
    if *suit != Suit::Spade {
        r[Action::MakeSuitSpade.index()] = true;
        r[Action::MakeSuitSpadeAlone.index()] = true;
    }
    if *suit != Suit::Heart {
        r[Action::MakeSuitHeart.index()] = true;
        r[Action::MakeSuitHeartAlone.index()] = true;
    }
    if *suit != Suit::Diamond {
        r[Action::MakeSuitDiamond.index()] = true;
        r[Action::MakeSuitDiamondAlone.index()] = true;
    }
    if *suit != Suit::Club {
        r[Action::MakeSuitClub.index()] = true;
        r[Action::MakeSuitClubAlone.index()] = true;
    }
    r
}

/// The card at position `k` of the deck order.
fn card_from_position(k: usize) -> (r: Card)
    requires
        k < 24,
    ensures
        r == card_at(k as int),
{
    let suit = match k / 6 {
        0 => Suit::Spade,
        1 => Suit::Heart,
        2 => Suit::Diamond,
        _ => Suit::Club,
    };
    let rank = match k % 6 {
        0 => Rank::Nine,
        1 => Rank::Ten,
        2 => Rank::Jack,
        3 => Rank::Queen,
        4 => Rank::King,
        _ => Rank::Ace,
    };
    Card { suit, rank }
}

/// A hand of five cards of `cards` from `start` on, with its sixth slot empty.
pub open spec fn dealt_hand(cards: Seq<Card>, start: int) -> Seq<Option<Card>> {
    seq![
        Some(cards[start]),
        Some(cards[start + 1]),
        Some(cards[start + 2]),
        Some(cards[start + 3]),
        Some(cards[start + 4]),
        None,
    ]
}

/// Deals from a shuffled deck: five cards to each of four hands, in turn by
/// fives, and the next card as the upcard. No card is dealt twice.
pub fn deal() -> (r: (
    [Option<Card>; 6],
    [Option<Card>; 6],
    [Option<Card>; 6],
    [Option<Card>; 6],
    Card,
))
    ensures
        exists|cards: Seq<Card>|
            {
                &&& cards.len() == 21
                &&& cards.no_duplicates()
                &&& r.0@ == dealt_hand(cards, 0)
                &&& r.1@ == dealt_hand(cards, 5)
                &&& r.2@ == dealt_hand(cards, 10)
                &&& r.3@ == dealt_hand(cards, 15)
                &&& r.4 == cards[20]
            },
{
    let order = shuffled_positions(24);
    let mut cards: Vec<Card> = Vec::with_capacity(21);
    let mut k: usize = 0;
    while k < 21
        invariant
            order@.len() == 24,
            order@.no_duplicates(),
            forall|i: int| 0 <= i < 24 ==> #[trigger] order@[i] < 24,
            k <= 21,
            cards@.len() == k,
            forall|i: int| 0 <= i < k ==> #[trigger] cards@[i] == card_at(order@[i] as int),
        decreases 21 - k,
    {
        cards.push(card_from_position(order[k]));
        k += 1;
    }
    proof {
        assert forall|i: int, j: int| 0 <= i < 21 && 0 <= j < 21 && i != j implies cards@[i] != cards@[j] by {
            lemma_card_at(order@[i] as int);
            lemma_card_at(order@[j] as int);
        }
    }
    let r = (
        [Some(cards[0]), Some(cards[1]), Some(cards[2]), Some(cards[3]), Some(cards[4]), None],
        [Some(cards[5]), Some(cards[6]), Some(cards[7]), Some(cards[8]), Some(cards[9]), None],
        [Some(cards[10]), Some(cards[11]), Some(cards[12]), Some(cards[13]), Some(cards[14]), None],
        [Some(cards[15]), Some(cards[16]), Some(cards[17]), Some(cards[18]), Some(cards[19]), None],
        cards[20],
    );
    assert(r.0@ =~= dealt_hand(cards@, 0));
    assert(r.1@ =~= dealt_hand(cards@, 5));
    assert(r.2@ =~= dealt_hand(cards@, 10));
    assert(r.3@ =~= dealt_hand(cards@, 15));
    r
}

} // verus!
