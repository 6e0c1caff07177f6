//! Matches and the final single-elimination bracket. Games are played by the
//! caller; these types decide what a result means.
//!
//! A bracket pairs the organisms still alive in index order; when an odd
//! number are alive, the last of them has a bye and stays alive. A bracket
//! that starts from a power of two has no byes.
use vstd::prelude::*;

verus! {

broadcast use vstd::seq_lib::lemma_seq_contains_after_push;

/// The games won by each side of a best-of-three match so far.
#[derive(Clone, Copy, Debug, PartialEq, Eq, Structural)]
pub struct MatchTally {
    pub first_wins: u8,
    pub second_wins: u8,
}

impl MatchTally {
    /// No side has won two games yet, so no side can have won more.
    pub open spec fn undecided(&self) -> bool {
        self.first_wins < 2 && self.second_wins < 2
    }

    /// The tally is one that games can produce: it stops at two wins.
    pub open spec fn wf(&self) -> bool {
        &&& self.first_wins <= 2
        &&& self.second_wins <= 2
        &&& !(self.first_wins == 2 && self.second_wins == 2)
    }

    pub fn new() -> (r: Self)
        ensures
            r.first_wins == 0,
            r.second_wins == 0,
    {
        MatchTally { first_wins: 0, second_wins: 0 }
    }

    /// Counts one more game, won by the first side if `first_won`. Three
    /// games always decide the match.
    pub fn record(&mut self, first_won: bool)
        requires
            old(self).wf(),
            old(self).undecided(),
        ensures
            final(self).wf(),
            first_won ==> final(self).first_wins == old(self).first_wins + 1
                && final(self).second_wins == old(self).second_wins,
            !first_won ==> final(self).second_wins == old(self).second_wins + 1
                && final(self).first_wins == old(self).first_wins,
            old(self).first_wins + old(self).second_wins == 2 ==> !final(self).undecided(),
    {
        if first_won {
            self.first_wins = self.first_wins + 1;
        } else {
            self.second_wins = self.second_wins + 1;
        }
    }

    /// `Some(true)` once the first side has won two games, `Some(false)` once
    /// the second has, `None` while the match goes on.
    pub fn winner(&self) -> (r: Option<bool>)
        requires
            self.wf(),
        ensures
            r == (if self.first_wins == 2 {
                Some(true)
            } else if self.second_wins == 2 {
                Some(false)
            } else {
                None::<bool>
            }),
    {
        if self.first_wins == 2 {
            Some(true)
        } else if self.second_wins == 2 {
            Some(false)
        } else {
            None
        }
    }
}

/// The positions of `s` that are alive, in increasing order.
pub open spec fn alive_positions(s: Seq<bool>) -> Seq<usize>
    decreases s.len(),
{
    if s.len() == 0 {
        Seq::empty()
    } else {
        let rest = alive_positions(s.drop_last());
        if s.last() {
            rest.push((s.len() - 1) as usize)
        } else {
            rest
        }
    }
}

/// Consecutive elements of `positions`, two by two; an odd last one is left out.
pub open spec fn pair_off(positions: Seq<usize>) -> Seq<(usize, usize)> {
    Seq::new(positions.len() / 2, |i: int| (positions[2 * i], positions[2 * i + 1]))
}

/// The matches of a round of the bracket whose alive marks are `s`.
pub open spec fn round_pairs(s: Seq<bool>) -> Seq<(usize, usize)> {
    pair_off(alive_positions(s))
}

/// The losers of `pairs`, match by match.
pub open spec fn losers(pairs: Seq<(usize, usize)>, first_won: Seq<bool>) -> Seq<usize> {
    Seq::new(pairs.len(), |i: int| if first_won[i] { pairs[i].1 } else { pairs[i].0 })
}

/// The alive marks after a round whose `i`-th match the first side won
/// when `first_won[i]` holds.
pub open spec fn after_round(s: Seq<bool>, first_won: Seq<bool>) -> Seq<bool> {
    let lost = losers(round_pairs(s), first_won);
    Seq::new(s.len(), |p: int| s[p] && !lost.contains(p as usize))
}

/// The alive marks after one round for each element of `results`, in order.
pub open spec fn after_rounds(s: Seq<bool>, results: Seq<Seq<bool>>) -> Seq<bool>
    decreases results.len(),
{
    if results.len() == 0 {
        s
    } else {
        after_rounds(after_round(s, results[0]), results.drop_first())
    }
}

/// The positions alive in `s`.
pub open spec fn alive_set(s: Seq<bool>) -> Set<usize> {
    Set::new(|p: usize| p < s.len() && s[p as int])
}

/// How many are alive in `s`.
pub open spec fn alive_count(s: Seq<bool>) -> nat {
    alive_set(s).len()
}

/// `i` is the only position alive in `s`.
pub open spec fn sole_survivor(s: Seq<bool>, i: int) -> bool {
    &&& 0 <= i < s.len()
    &&& s[i]
    &&& forall|j: int| 0 <= j < s.len() && j != i ==> !#[trigger] s[j]
}

pub open spec fn two_to(k: nat) -> nat
    decreases k,
{
    if k == 0 {
        1
    } else {
        2 * two_to((k - 1) as nat)
    }
}

proof fn lemma_alive_positions(s: Seq<bool>)
    requires
        s.len() <= usize::MAX,
    ensures
        forall|i: int, j: int|
            0 <= i < j < alive_positions(s).len() ==> #[trigger] alive_positions(s)[i]
                < #[trigger] alive_positions(s)[j],
        forall|i: int| 0 <= i < alive_positions(s).len() ==> #[trigger] alive_positions(s)[i] < s.len(),
        forall|p: usize| #[trigger] alive_positions(s).contains(p) <==> (p < s.len() && s[p as int]),
    decreases s.len(),
{
    if s.len() > 0 {
        lemma_alive_positions(s.drop_last());
        let rest = alive_positions(s.drop_last());
        assert forall|p: usize| #[trigger] alive_positions(s).contains(p) <==> (p < s.len()
            && s[p as int]) by {
            if s.last() {
                assert(alive_positions(s) == rest.push((s.len() - 1) as usize));
                if rest.contains(p) {
                    let t = choose|t: int| 0 <= t < rest.len() && rest[t] == p;
                    assert(alive_positions(s)[t] == p);
                }
                if alive_positions(s).contains(p) {
                    let t = choose|t: int| 0 <= t < alive_positions(s).len() && alive_positions(s)[t] == p;
                    if t < rest.len() {
                        assert(rest[t] == p);
                    }
                }
                if p == s.len() - 1 {
                    assert(alive_positions(s)[rest.len() as int] == p);
                }
            }
            if p < s.len() - 1 {
                assert(s.drop_last()[p as int] == s[p as int]);
            }
        }
    }
}

/// A round of a bracket with `c` alive leaves `c - c / 2` alive: one of
/// each pair is eliminated, and an odd one out has a bye.
pub proof fn lemma_round_count(s: Seq<bool>, first_won: Seq<bool>)
    requires
        s.len() <= usize::MAX,
    ensures
        alive_set(s).finite(),
        alive_set(after_round(s, first_won)).finite(),
        alive_count(after_round(s, first_won)) == alive_count(s) - alive_count(s) / 2,
{
    let ap = alive_positions(s);
    lemma_alive_positions(s);
    assert(ap.no_duplicates());
    ap.unique_seq_to_set();
    assert(ap.to_set() =~= alive_set(s));
    let pairs = round_pairs(s);
    let lost = losers(pairs, first_won);
    assert forall|i: int| 0 <= i < lost.len() implies #[trigger] lost[i] == ap[2 * i] || lost[i] == ap[2
        * i + 1] by {}
    assert forall|i: int, j: int| 0 <= i < lost.len() && 0 <= j < lost.len() && i != j implies lost[i]
        != lost[j] by {
        assert(lost[i] == ap[2 * i] || lost[i] == ap[2 * i + 1]);
        assert(lost[j] == ap[2 * j] || lost[j] == ap[2 * j + 1]);
        if i < j {
            assert(ap[2 * i + 1] < ap[2 * j]);
        } else {
            assert(ap[2 * j + 1] < ap[2 * i]);
        }
        assert(ap[2 * i] < ap[2 * i + 1]);
        assert(ap[2 * j] < ap[2 * j + 1]);
    }
    assert(lost.no_duplicates());
    lost.unique_seq_to_set();
    let a = alive_set(s);
    let l = lost.to_set();
    assert(l.subset_of(a)) by {
        assert forall|p: usize| l.contains(p) implies a.contains(p) by {
            let i = choose|i: int| 0 <= i < lost.len() && lost[i] == p;
            assert(lost[i] == ap[2 * i] || lost[i] == ap[2 * i + 1]);
            assert(ap.contains(ap[2 * i]));
            assert(ap.contains(ap[2 * i + 1]));
        }
    }
    assert(a.intersect(l) =~= l);
    vstd::set_lib::lemma_set_difference_len(a, l);
    assert(alive_set(after_round(s, first_won)) =~= a.difference(l));
}

/// A bracket that starts with `2^k` organisms alive leaves exactly one alive
/// after `k` rounds, whoever wins each match.
pub proof fn lemma_bracket_converges(alive: Seq<bool>, k: nat, results: Seq<Seq<bool>>)
    requires
        alive.len() <= usize::MAX,
        alive_count(alive) == two_to(k),
        results.len() == k,
    ensures
        alive_count(after_rounds(alive, results)) == 1,
        exists|i: int| sole_survivor(after_rounds(alive, results), i),
    decreases k,
{
    if k == 0 {
        lemma_round_count(alive, Seq::empty());
        lemma_one_alive(alive);
    } else {
        let next = after_round(alive, results[0]);
        lemma_round_count(alive, results[0]);
        assert(two_to(k) == 2 * two_to((k - 1) as nat));
        lemma_bracket_converges(next, (k - 1) as nat, results.drop_first());
    }
}

/// When exactly one is alive, it is the sole survivor.
proof fn lemma_one_alive(s: Seq<bool>)
    requires
        s.len() <= usize::MAX,
        alive_set(s).finite(),
        alive_count(s) == 1,
    ensures
        exists|i: int| sole_survivor(s, i),
{
    let a = alive_set(s);
    vstd::set_lib::lemma_set_empty_equivalency_len(a);
    let i = choose|i: usize| a.contains(i);
    assert forall|j: int| 0 <= j < s.len() && j != i implies !#[trigger] s[j] by {
        if s[j] {
            let other = j as usize;
            let one = Set::<usize>::empty().insert(i);
            let both = one.insert(other);
            assert(one.len() == 1);
            assert(!one.contains(other));
            assert(both.len() == 2);
            assert(a.contains(other));
            assert(both.subset_of(a));
            vstd::set_lib::lemma_len_subset(both, a);
        }
    }
    assert(sole_survivor(s, i as int));
}

/// The alive marks of a single-elimination bracket.
pub struct Tournament {
    pub alive: Vec<bool>,
}

impl Tournament {
    /// A bracket of `size` organisms, all alive.
    pub fn new(size: usize) -> (r: Self)
        ensures
            r.alive@ == Seq::new(size as nat, |p: int| true),
    {
        let mut alive: Vec<bool> = Vec::with_capacity(size);
        let mut p: usize = 0;
        while p < size
            invariant
                p <= size,
                alive@ == Seq::new(p as nat, |t: int| true),
            decreases size - p,
        {
            alive.push(true);
            p += 1;
            assert(alive@ =~= Seq::new(p as nat, |t: int| true));
        }
        Tournament { alive }
    }

    /// This round's matches: the alive positions, in index order, two by
    /// two. Empty once at most one is alive.
    pub fn pairings(&self) -> (r: Vec<(usize, usize)>)
        ensures
            r@ == round_pairs(self.alive@),
    {
        let n = self.alive.len();
        let mut r: Vec<(usize, usize)> = Vec::new();
        let mut pending: Option<usize> = None;
        let mut p: usize = 0;
        while p < n
            invariant
                n == self.alive@.len(),
                p <= n,
                r@ == pair_off(alive_positions(self.alive@.subrange(0, p as int))),
                pending == (if alive_positions(self.alive@.subrange(0, p as int)).len() % 2 == 1 {
                    Some(alive_positions(self.alive@.subrange(0, p as int)).last())
                } else {
                    None::<usize>
                }),
            decreases n - p,
        {
            let ghost before = alive_positions(self.alive@.subrange(0, p as int));
            assert(self.alive@.subrange(0, p + 1).drop_last() =~= self.alive@.subrange(0, p as int));
            if self.alive[p] {
                let ghost after = before.push(p);
                assert(alive_positions(self.alive@.subrange(0, p + 1)) == after);
                match pending {
                    None => {
                        pending = Some(p);
                        assert(pair_off(after) =~= pair_off(before));
                    },
                    Some(a) => {
                        r.push((a, p));
                        pending = None;
                        assert(pair_off(after) =~= pair_off(before).push((a, p)));
                    },
                }
            }
            p += 1;
        }
        assert(self.alive@.subrange(0, n as int) =~= self.alive@);
        r
    }

    /// Eliminates the loser of each of this round's matches: the second of
    /// `pairs[i]` if `first_won[i]`, else the first.
    pub fn record(&mut self, pairs: &Vec<(usize, usize)>, first_won: &Vec<bool>)
        requires
            pairs@ == round_pairs(old(self).alive@),
            first_won@.len() == pairs@.len(),
        ensures
            final(self).alive@ == after_round(old(self).alive@, first_won@),
            alive_count(final(self).alive@) == alive_count(old(self).alive@) - alive_count(
                old(self).alive@,
            ) / 2,
    {
        let ghost start = self.alive@;
        let ghost lost = losers(pairs@, first_won@);
        let n = self.alive.len();
        proof {
            lemma_alive_positions(start);
        }
        let mut i: usize = 0;
        while i < pairs.len()
            invariant
                n == start.len(),
                pairs@ == round_pairs(start),
                first_won@.len() == pairs@.len(),
                lost == losers(pairs@, first_won@),
                forall|t: int|
                    0 <= t < alive_positions(start).len() ==> #[trigger] alive_positions(start)[t] < n,
                i <= pairs@.len(),
                self.alive@ == Seq::new(
                    n as nat,
                    |p: int| start[p] && !lost.subrange(0, i as int).contains(p as usize),
                ),
            decreases pairs@.len() - i,
        {
            let (a, b) = pairs[i];
            let loser = if first_won[i] {
                b
            } else {
                a
            };
            assert(loser == lost[i as int]);
            let ghost pre = lost.subrange(0, i as int);
            self.alive[loser] = false;
            i += 1;
            let ghost cur = lost.subrange(0, i as int);
            assert(cur =~= pre.push(loser));
            assert forall|p: int| 0 <= p < n implies #[trigger] self.alive@[p] == (start[p]
                && !cur.contains(p as usize)) by {
                assert(cur.contains(p as usize) <==> (pre.contains(p as usize) || p as usize == loser));
            }
            assert(self.alive@ =~= Seq::new(
                n as nat,
                |p: int| start[p] && !lost.subrange(0, i as int).contains(p as usize),
            ));
        }
        assert(lost.subrange(0, pairs@.len() as int) =~= lost);
        assert(self.alive@ =~= after_round(start, first_won@));
        proof {
            lemma_round_count(start, first_won@);
        }
    }

    /// The only organism still alive, if exactly one is.
    pub fn champion(&self) -> (r: Option<usize>)
        ensures
            r matches Some(i) ==> sole_survivor(self.alive@, i as int),
            r is None ==> forall|i: int| !sole_survivor(self.alive@, i),
    {
        let n = self.alive.len();
        let mut found: Option<usize> = None;
        let mut p: usize = 0;
        while p < n
            invariant
                n == self.alive@.len(),
                p <= n,
                match found {
                    None => forall|j: int| 0 <= j < p ==> !#[trigger] self.alive@[j],
                    Some(i) => i < p && self.alive@[i as int] && forall|j: int|
                        0 <= j < p && j != i ==> !#[trigger] self.alive@[j],
                },
            decreases n - p,
        {
            if self.alive[p] {
                if found.is_some() {
                    return None;
                }
                found = Some(p);
            }
            p += 1;
        }
        found
    }
}

} // verus!
