use euchre_neat::cards::{
    card_wins, deal, discard_from_hand, get_bid_suit_available_actions, get_card_play_action,
    get_discard_available_actions, get_play_available_actions, left_player, play_from_hand, Action,
    Card, Position, Rank, Suit,
};

const SUITS: [Suit; 4] = [Suit::Spade, Suit::Heart, Suit::Diamond, Suit::Club];
const RANKS: [Rank; 6] = [Rank::Nine, Rank::Ten, Rank::Jack, Rank::Queen, Rank::King, Rank::Ace];

fn card(suit: Suit, rank: Rank) -> Card {
    Card { suit, rank }
}

#[test]
fn left_player_goes_clockwise() {
    assert_eq!(left_player(&Position::North), &Position::East);
    assert_eq!(left_player(&Position::East), &Position::South);
    assert_eq!(left_player(&Position::South), &Position::West);
    assert_eq!(left_player(&Position::West), &Position::North);
}

#[test]
fn actions_are_numbered_in_output_order() {
    assert_eq!(Action::PlaySpadeNine.index(), 0);
    assert_eq!(Action::PlayHeartJack.index(), 8);
    assert_eq!(Action::PlayClubAce.index(), 23);
    assert_eq!(Action::DiscardSpadeNine.index(), 24);
    assert_eq!(Action::DiscardClubAce.index(), 47);
    assert_eq!(Action::MakeUpcard.index(), 48);
    assert_eq!(Action::PassSuit.index(), 59);
}

#[test]
fn every_card_has_a_play_action_that_plays_it() {
    for (s, &suit) in SUITS.iter().enumerate() {
        for (r, &rank) in RANKS.iter().enumerate() {
            let c = card(suit, rank);
            let action = get_card_play_action(&c);
            assert_eq!(action.index(), s * 6 + r);
            let mut hand = [None, Some(card(Suit::Heart, Rank::Nine)), Some(c), None, Some(c), None];
            if c == card(Suit::Heart, Rank::Nine) {
                hand[1] = None;
            }
            assert_eq!(play_from_hand(&mut hand, &action), c);
            assert_eq!(hand[2], None);
            assert_eq!(hand[4], Some(c));
        }
    }
}

#[test]
fn discard_empties_the_slot_of_the_named_card() {
    let mut hand = [
        Some(card(Suit::Club, Rank::Ace)),
        Some(card(Suit::Spade, Rank::Ten)),
        None,
        Some(card(Suit::Diamond, Rank::Queen)),
        None,
        Some(card(Suit::Heart, Rank::King)),
    ];
    discard_from_hand(&mut hand, &Action::DiscardDiamondQueen);
    assert_eq!(hand[3], None);
    assert_eq!(hand[0], Some(card(Suit::Club, Rank::Ace)));
    discard_from_hand(&mut hand, &Action::DiscardClubAce);
    assert_eq!(hand[0], None);
    assert_eq!(hand[5], Some(card(Suit::Heart, Rank::King)));
}

#[test]
fn first_card_of_a_trick_always_wins() {
    let c = card(Suit::Spade, Rank::Nine);
    assert!(card_wins(&c, &None, &None, &Suit::Heart));
    assert!(card_wins(&c, &None, &Some(Suit::Club), &Suit::Heart));
}

#[test]
fn bowers_rank_above_the_rest_of_trump() {
    let trump = Suit::Heart;
    let lead = Some(Suit::Heart);
    let right = card(Suit::Heart, Rank::Jack);
    let left = card(Suit::Diamond, Rank::Jack);
    let ace = card(Suit::Heart, Rank::Ace);
    assert!(card_wins(&right, &Some(left), &lead, &trump));
    assert!(!card_wins(&left, &Some(right), &lead, &trump));
    assert!(card_wins(&left, &Some(ace), &lead, &trump));
    assert!(!card_wins(&ace, &Some(left), &lead, &trump));
    assert!(card_wins(&ace, &Some(card(Suit::Heart, Rank::King)), &lead, &trump));
    assert!(!card_wins(&card(Suit::Heart, Rank::Nine), &Some(card(Suit::Heart, Rank::Ten)), &lead, &trump));
}

#[test]
fn trump_beats_the_lead_suit_and_off_suits_never_win() {
    let trump = Suit::Spade;
    let lead = Some(Suit::Diamond);
    let led_ace = card(Suit::Diamond, Rank::Ace);
    assert!(card_wins(&card(Suit::Spade, Rank::Nine), &Some(led_ace), &lead, &trump));
    assert!(card_wins(&card(Suit::Club, Rank::Jack), &Some(led_ace), &lead, &trump));
    assert!(!card_wins(&card(Suit::Club, Rank::Ace), &Some(card(Suit::Diamond, Rank::Nine)), &lead, &trump));
    assert!(!card_wins(&card(Suit::Heart, Rank::Ace), &Some(card(Suit::Diamond, Rank::Nine)), &lead, &trump));
    assert!(!card_wins(&led_ace, &Some(card(Suit::Spade, Rank::Nine)), &lead, &trump));
}

#[test]
fn within_the_lead_suit_ace_is_high_and_the_jack_is_plain() {
    let trump = Suit::Spade;
    let lead = Some(Suit::Heart);
    assert!(card_wins(&card(Suit::Heart, Rank::Ace), &Some(card(Suit::Heart, Rank::King)), &lead, &trump));
    assert!(card_wins(&card(Suit::Heart, Rank::Queen), &Some(card(Suit::Heart, Rank::Jack)), &lead, &trump));
    assert!(card_wins(&card(Suit::Heart, Rank::Jack), &Some(card(Suit::Heart, Rank::Ten)), &lead, &trump));
    assert!(!card_wins(&card(Suit::Heart, Rank::Ten), &Some(card(Suit::Heart, Rank::Jack)), &lead, &trump));
}

fn marked(mask: &[bool; 60]) -> Vec<usize> {
    (0..60).filter(|&a| mask[a]).collect()
}

#[test]
fn a_player_who_holds_the_lead_suit_must_follow_it() {
    let hand = [
        Some(card(Suit::Heart, Rank::Ten)),
        None,
        Some(card(Suit::Spade, Rank::Ace)),
        Some(card(Suit::Heart, Rank::King)),
        Some(card(Suit::Club, Rank::Nine)),
        None,
    ];
    let follow = get_play_available_actions(&hand, &Some(Suit::Heart));
    assert_eq!(marked(&follow), vec![Action::PlayHeartTen.index(), Action::PlayHeartKing.index()]);
    let void = get_play_available_actions(&hand, &Some(Suit::Diamond));
    assert_eq!(
        marked(&void),
        vec![
            Action::PlaySpadeAce.index(),
            Action::PlayHeartTen.index(),
            Action::PlayHeartKing.index(),
            Action::PlayClubNine.index()
        ]
    );
    let lead = get_play_available_actions(&hand, &None);
    assert_eq!(marked(&lead), marked(&void));
}

#[test]
fn every_card_in_hand_may_be_discarded() {
    let hand = [
        Some(card(Suit::Diamond, Rank::Jack)),
        Some(card(Suit::Spade, Rank::Nine)),
        None,
        Some(card(Suit::Club, Rank::Ace)),
        None,
        None,
    ];
    assert_eq!(
        marked(&get_discard_available_actions(&hand)),
        vec![
            Action::DiscardSpadeNine.index(),
            Action::DiscardDiamondJack.index(),
            Action::DiscardClubAce.index()
        ]
    );
    assert!(marked(&get_discard_available_actions(&[None; 6])).is_empty());
}

#[test]
fn the_turned_down_suit_cannot_be_named() {
    let bids = get_bid_suit_available_actions(&Suit::Diamond);
    assert_eq!(
        marked(&bids),
        vec![
            Action::MakeSuitSpade.index(),
            Action::MakeSuitHeart.index(),
            Action::MakeSuitClub.index(),
            Action::MakeSuitSpadeAlone.index(),
            Action::MakeSuitHeartAlone.index(),
            Action::MakeSuitClubAlone.index(),
            Action::PassSuit.index()
        ]
    );
}

#[test]
fn a_deal_gives_five_cards_each_and_an_upcard_all_different() {
    for _ in 0..20 {
        let (a, b, c, d, upcard) = deal();
        let mut seen = vec![upcard];
        for hand in [a, b, c, d] {
            assert_eq!(hand[5], None);
            for slot in 0..5 {
                seen.push(hand[slot].unwrap());
            }
        }
        for i in 0..seen.len() {
            for j in 0..i {
                assert_ne!(seen[i], seen[j]);
            }
        }
    }
}

#[test]
fn deals_come_from_a_shuffled_deck() {
    let first = deal();
    let differs = (0..20).any(|_| deal() != first);
    assert!(differs);
}
