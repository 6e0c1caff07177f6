use euchre_neat::tournament::{MatchTally, Tournament};

#[test]
fn two_straight_wins_decide_a_match() {
    let mut t = MatchTally::new();
    assert_eq!(t.winner(), None);
    t.record(true);
    assert_eq!(t.winner(), None);
    t.record(true);
    assert_eq!(t.winner(), Some(true));
    assert_eq!((t.first_wins, t.second_wins), (2, 0));
}

#[test]
fn a_split_match_goes_to_a_third_game() {
    let mut t = MatchTally::new();
    t.record(true);
    t.record(false);
    assert_eq!(t.winner(), None);
    t.record(false);
    assert_eq!(t.winner(), Some(false));
    assert_eq!((t.first_wins, t.second_wins), (1, 2));
}

fn run(t: &mut Tournament, first_always_wins: bool) -> usize {
    let mut rounds = 0;
    loop {
        let pairs = t.pairings();
        if pairs.is_empty() {
            return rounds;
        }
        let results = vec![first_always_wins; pairs.len()];
        t.record(&pairs, &results);
        rounds += 1;
    }
}

#[test]
fn new_bracket_is_all_alive() {
    let t = Tournament::new(4);
    assert_eq!(t.alive, vec![true; 4]);
}

#[test]
fn pairs_follow_index_order_among_the_alive() {
    let mut t = Tournament::new(8);
    assert_eq!(t.pairings(), vec![(0, 1), (2, 3), (4, 5), (6, 7)]);
    t.record(&vec![(0, 1), (2, 3), (4, 5), (6, 7)], &vec![true, false, false, true]);
    assert_eq!(t.alive, vec![true, false, false, true, false, true, true, false]);
    assert_eq!(t.pairings(), vec![(0, 3), (5, 6)]);
}

#[test]
fn power_of_two_bracket_ends_with_one_champion_after_log2_rounds() {
    for (size, rounds) in [(2, 1), (4, 2), (8, 3), (16, 4), (1024, 10)] {
        for first in [true, false] {
            let mut t = Tournament::new(size);
            assert_eq!(run(&mut t, first), rounds);
            assert_eq!(t.alive.iter().filter(|&&a| a).count(), 1);
            let champion = t.champion().unwrap();
            assert!(t.alive[champion]);
            assert_eq!(champion, if first { 0 } else { size - 1 });
        }
    }
}

#[test]
fn odd_counts_give_the_last_alive_a_bye() {
    let mut t = Tournament::new(6);
    t.record(&t.pairings(), &vec![true, true, true]);
    assert_eq!(t.alive, vec![true, false, true, false, true, false]);
    assert_eq!(t.pairings(), vec![(0, 2)]);
    t.record(&vec![(0, 2)], &vec![false]);
    assert_eq!(t.alive, vec![false, false, true, false, true, false]);
    assert_eq!(t.pairings(), vec![(2, 4)]);
    assert_eq!(run(&mut t, true), 1);
    assert_eq!(t.champion(), Some(2));
}

#[test]
fn no_champion_while_several_or_none_are_alive() {
    let t = Tournament::new(2);
    assert_eq!(t.champion(), None);
    let empty = Tournament::new(0);
    assert_eq!(empty.champion(), None);
    assert!(empty.pairings().is_empty());
    let single = Tournament::new(1);
    assert_eq!(single.champion(), Some(0));
}
