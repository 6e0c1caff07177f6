//! Organisms, the population, and the decisions of each generation: who
//! meets whom, who is retained as a breeder, which breeders parent each new
//! child, and how the population is replaced. Matches and crossovers are run
//! by the caller, in parallel if it likes, between these steps.
use crate::neural_network::NeuralNetwork;
use crate::random::{sample_two, shuffled_positions};
use vstd::prelude::*;

verus! {

broadcast use vstd::seq_lib::lemma_seq_contains_after_push;

/// Why a run cannot start.
#[derive(Clone, Copy, Debug, PartialEq, Eq, Structural)]
pub enum ConfigError {
    /// The population size is zero or not a multiple of 4.
    InvalidPopulationSize,
    /// The starting population does not hold one genome per organism.
    StartingPopulationMismatch,
}

/// A population size that pairs up into matches and then into breeders.
pub open spec fn valid_population_size(n: int) -> bool {
    n > 0 && n % 4 == 0
}

/// The settings of one evolution run.
pub struct EvolutionConfig {
    pub population_size: usize,
    pub generations: usize,
    pub thread_count: usize,
    pub out_dir: String,
    /// A directory of saved genomes to start from instead of random ones.
    pub starting_population_dir: Option<String>,
    /// Skip writing every organism after each generation.
    pub no_gen_save: bool,
}

impl EvolutionConfig {
    /// Checks the population size, then, when a starting population was
    /// found with `starting_files` genomes, that it has one per organism.
    pub fn validate(&self, starting_files: Option<usize>) -> (r: Result<(), ConfigError>)
        ensures
            !valid_population_size(self.population_size as int) ==> r == Err::<(), ConfigError>(
                ConfigError::InvalidPopulationSize,
            ),
            valid_population_size(self.population_size as int) && starting_files is Some
                && starting_files->Some_0 != self.population_size ==> r == Err::<(), ConfigError>(
                ConfigError::StartingPopulationMismatch,
            ),
            valid_population_size(self.population_size as int) && (starting_files is None
                || starting_files->Some_0 == self.population_size) ==> r is Ok,
    {
        if self.population_size == 0 || self.population_size % 4 != 0 {
            return Err(ConfigError::InvalidPopulationSize);
        }
        match starting_files {
            Some(count) => if count != self.population_size {
                Err(ConfigError::StartingPopulationMismatch)
            } else {
                Ok(())
            },
            None => Ok(()),
        }
    }
}

/// A genome with its bookkeeping.
#[derive(Clone, Debug, PartialEq)]
pub struct Organism {
    pub brain: Option<NeuralNetwork>,
    /// Consecutive generations that it has been retained as a breeder.
    pub lifetime: usize,
    /// The generation in which its genome was created.
    pub generation: usize,
}

impl Organism {
    /// An organism that has no genome yet.
    pub fn new() -> (r: Self)
        ensures
            r.brain is None,
            r.lifetime == 0,
            r.generation == 0,
    {
        Organism { brain: None, lifetime: 0, generation: 0 }
    }
}

/// A member of a population `current` generations old: it has a genome,
/// and was neither created nor retained longer ago than the run began.
pub open spec fn organism_wf(o: Organism, current: usize) -> bool {
    &&& o.brain is Some
    &&& o.brain->Some_0.wf()
    &&& o.lifetime + o.generation <= current
}

/// The positions of `pairs` are below `n` and all different.
pub open spec fn disjoint_pairs(pairs: Seq<(usize, usize)>, n: int) -> bool {
    &&& forall|i: int|
        0 <= i < pairs.len() ==> (#[trigger] pairs[i]).0 < n && pairs[i].1 < n && pairs[i].0
            != pairs[i].1
    &&& forall|i: int, j: int|
        0 <= i < j < pairs.len() ==> (#[trigger] pairs[i]).0 != (#[trigger] pairs[j]).0
            && pairs[i].0 != pairs[j].1 && pairs[i].1 != pairs[j].0 && pairs[i].1 != pairs[j].1
}

/// The position that wins a match: the first of the pair if it won.
pub open spec fn winner(pair: (usize, usize), first_won: bool) -> usize {
    if first_won {
        pair.0
    } else {
        pair.1
    }
}

/// The winners of the matches, match by match.
pub open spec fn winners(pairs: Seq<(usize, usize)>, first_won: Seq<bool>) -> Seq<usize> {
    Seq::new(pairs.len(), |i: int| winner(pairs[i], first_won[i]))
}

/// `plan` says, position by position below `n`, whether the organism there
/// is retained (`None`: it won its match) or replaced by a child of two
/// different winners.
pub open spec fn is_breeding_plan(plan: Seq<Option<(usize, usize)>>, breeders: Seq<usize>, n: int) -> bool {
    &&& plan.len() == n
    &&& forall|p: int| 0 <= p < n ==> ((#[trigger] plan[p]) is None <==> breeders.contains(p as usize))
    &&& forall|p: int|
        0 <= p < n && (#[trigger] plan[p]) is Some ==> breeders.contains(plan[p]->Some_0.0)
            && breeders.contains(plan[p]->Some_0.1) && plan[p]->Some_0.0 != plan[p]->Some_0.1
}

/// The positions that a plan retains.
pub open spec fn retained(plan: Seq<Option<(usize, usize)>>) -> Set<usize> {
    Set::new(|p: usize| p < plan.len() && plan[p as int] is None)
}

/// The whole population of one generation.
pub struct Population {
    pub organisms: Vec<Organism>,
    /// Generations completed so far.
    pub generation: usize,
}

impl Population {
    pub open spec fn wf(&self) -> bool {
        &&& valid_population_size(self.organisms@.len() as int)
        &&& forall|i: int|
            0 <= i < self.organisms@.len() ==> organism_wf(
                #[trigger] self.organisms@[i],
                self.generation,
            )
    }

    /// `next` is this population after one generation in which each
    /// position with no child kept its organism one generation longer, and
    /// each position with a child took it as a fresh organism.
    pub open spec fn is_followed_by(
        &self,
        children: Seq<Option<NeuralNetwork>>,
        next: Population,
    ) -> bool {
        &&& next.generation == self.generation + 1
        &&& next.organisms@.len() == self.organisms@.len()
        &&& forall|i: int|
            0 <= i < self.organisms@.len() && (#[trigger] children[i]) is None ==> next.organisms@[i]
                == (Organism {
                brain: self.organisms@[i].brain,
                lifetime: (self.organisms@[i].lifetime + 1) as usize,
                generation: self.organisms@[i].generation,
            })
        &&& forall|i: int|
            0 <= i < self.organisms@.len() && (#[trigger] children[i]) is Some ==> next.organisms@[i]
                == (Organism { brain: children[i], lifetime: 0, generation: next.generation })
    }

    /// The population of generation zero, one organism per genome, in order.
    /// Fails unless the count of genomes is a positive multiple of 4.
    pub fn new(brains: Vec<NeuralNetwork>) -> (r: Result<Self, ConfigError>)
        requires
            forall|i: int| 0 <= i < brains@.len() ==> (#[trigger] brains@[i]).wf(),
        ensures
            !valid_population_size(brains@.len() as int) ==> r == Err::<Self, ConfigError>(
                ConfigError::InvalidPopulationSize,
            ),
            valid_population_size(brains@.len() as int) ==> r is Ok,
            r is Ok ==> {
                let p = r->Ok_0;
                &&& p.wf()
                &&& p.generation == 0
                &&& p.organisms@.len() == brains@.len()
                &&& forall|i: int|
                    0 <= i < brains@.len() ==> #[trigger] p.organisms@[i] == (Organism {
                        brain: Some(brains@[i]),
                        lifetime: 0,
                        generation: 0,
                    })
            },
    {
        let n = brains.len();
        if n == 0 || n % 4 != 0 {
            return Err(ConfigError::InvalidPopulationSize);
        }
        let ghost all = brains@;
        let mut rest = brains;
        let mut organisms: Vec<Organism> = Vec::with_capacity(n);
        let mut k: usize = 0;
        while k < n
            invariant
                n == all.len(),
                valid_population_size(n as int),
                forall|i: int| 0 <= i < all.len() ==> (#[trigger] all[i]).wf(),
                k <= n,
                rest@ == all.subrange(k as int, n as int),
                organisms@.len() == k,
                forall|i: int|
                    0 <= i < k ==> #[trigger] organisms@[i] == (Organism {
                        brain: Some(all[i]),
                        lifetime: 0,
                        generation: 0,
                    }),
            decreases n - k,
        {
            let brain = rest.remove(0);
            organisms.push(Organism { brain: Some(brain), lifetime: 0, generation: 0 });
            k += 1;
            assert(rest@ =~= all.subrange(k as int, n as int));
        }
        Ok(Population { organisms, generation: 0 })
    }

    /// The genome of the organism at `i`.
    pub fn brain(&self, i: usize) -> (r: &NeuralNetwork)
        requires
            self.wf(),
            i < self.organisms@.len(),
        ensures
            self.organisms@[i as int].brain == Some(*r),
            r.wf(),
    {
        assert(organism_wf(self.organisms@[i as int], self.generation));
        match &self.organisms[i] {
            Organism { brain: Some(b), .. } => b,
            Organism { brain: None, .. } => vstd::pervasive::unreached(),
        }
    }

    /// This generation's matches: the positions in a random order, paired
    /// off two by two, so that every organism plays exactly one match.
    pub fn match_pairs(&self) -> (r: Vec<(usize, usize)>)
        requires
            self.wf(),
        ensures
            2 * r@.len() == self.organisms@.len(),
            disjoint_pairs(r@, self.organisms@.len() as int),
    {
        let order = shuffled_positions(self.organisms.len());
        pair_up(&order)
    }

    /// Who breeds the next generation: the winner of each match is retained,
    /// and every other position gets two different winners, drawn at
    /// random, as the parents of its replacement. `first_won[i]` says whether
    /// the first of `pairs[i]` won.
    pub fn breeding_plan(&self, pairs: &Vec<(usize, usize)>, first_won: &Vec<bool>) -> (r: Vec<
        Option<(usize, usize)>,
    >)
        requires
            self.wf(),
            2 * pairs@.len() == self.organisms@.len(),
            disjoint_pairs(pairs@, self.organisms@.len() as int),
            first_won@.len() == pairs@.len(),
        ensures
            is_breeding_plan(r@, winners(pairs@, first_won@), self.organisms@.len() as int),
    {
        let n = self.organisms.len();
        let m = pairs.len();
        let ghost w = winners(pairs@, first_won@);
        let mut breeders: Vec<usize> = Vec::with_capacity(m);
        let mut is_breeder: Vec<bool> = Vec::with_capacity(n);
        let mut p: usize = 0;
        while p < n
            invariant
                p <= n,
                is_breeder@ == Seq::new(p as nat, |k: int| false),
            decreases n - p,
        {
            is_breeder.push(false);
            p += 1;
            assert(is_breeder@ =~= Seq::new(p as nat, |k: int| false));
        }
        let mut i: usize = 0;
        while i < m
            invariant
                m == pairs@.len(),
                first_won@.len() == m,
                2 * m == n,
                disjoint_pairs(pairs@, n as int),
                w == winners(pairs@, first_won@),
                i <= m,
                is_breeder@.len() == n,
                breeders@ == w.subrange(0, i as int),
                forall|q: int| 0 <= q < n ==> (#[trigger] is_breeder@[q] <==> breeders@.contains(q as usize)),
            decreases m - i,
        {
            let (a, b) = pairs[i];
            let won = if first_won[i] {
                a
            } else {
                b
            };
            breeders.push(won);
            is_breeder[won] = true;
            i += 1;
            assert(breeders@ =~= w.subrange(0, i as int));
        }
        assert(breeders@ =~= w);
        let mut plan: Vec<Option<(usize, usize)>> = Vec::with_capacity(n);
        let mut q: usize = 0;
        while q < n
            invariant
                m == pairs@.len(),
                first_won@.len() == m,
                2 * m == n,
                n >= 4,
                is_breeder@.len() == n,
                breeders@ == w,
                w.len() == m,
                disjoint_pairs(pairs@, n as int),
                w == winners(pairs@, first_won@),
                forall|x: int| 0 <= x < n ==> (#[trigger] is_breeder@[x] <==> w.contains(x as usize)),
                q <= n,
                plan@.len() == q,
                forall|x: int| 0 <= x < q ==> ((#[trigger] plan@[x]) is None <==> w.contains(x as usize)),
                forall|x: int|
                    0 <= x < q && (#[trigger] plan@[x]) is Some ==> w.contains(plan@[x]->Some_0.0)
                        && w.contains(plan@[x]->Some_0.1) && plan@[x]->Some_0.0 != plan@[x]->Some_0.1,
            decreases n - q,
        {
            if is_breeder[q] {
                plan.push(None);
            } else {
                let (j, k) = sample_two(m);
                let parents = (breeders[j], breeders[k]);
                proof {
                    assert(w[j as int] == winner(pairs@[j as int], first_won@[j as int]));
                    assert(w[k as int] == winner(pairs@[k as int], first_won@[k as int]));
                    if j < k {
                        assert(pairs@[j as int].0 != pairs@[k as int].0);
                    } else {
                        assert(pairs@[k as int].0 != pairs@[j as int].0);
                    }
                    assert(w.contains(parents.0));
                    assert(w.contains(parents.1));
                }
                plan.push(Some(parents));
            }
            q += 1;
        }
        plan
    }

    /// The child that crossing the genomes at `parents` gives.
    pub fn child_of(&self, parents: (usize, usize), mutation_rate: u32, mutation_magnitude: i64) -> (r:
        NeuralNetwork)
        requires
            self.wf(),
            parents.0 < self.organisms@.len(),
            parents.1 < self.organisms@.len(),
            mutation_rate > 0 ==> 0 <= mutation_magnitude,
        ensures
            NeuralNetwork::is_offspring(
                r,
                self.organisms@[parents.0 as int].brain->Some_0,
                self.organisms@[parents.1 as int].brain->Some_0,
                mutation_rate,
                mutation_magnitude,
            ),
    {
        let a = self.brain(parents.0);
        let b = self.brain(parents.1);
        a.crossover(b, mutation_rate, mutation_magnitude)
    }

    /// Ends a generation: each position without a child keeps its organism,
    /// retained one generation longer; each position with a child takes it
    /// as a fresh organism of the new generation.
    pub fn advance(&mut self, children: Vec<Option<NeuralNetwork>>)
        requires
            old(self).wf(),
            old(self).generation < usize::MAX,
            children@.len() == old(self).organisms@.len(),
            forall|i: int|
                0 <= i < children@.len() && (#[trigger] children@[i]) is Some
                    ==> children@[i]->Some_0.wf(),
        ensures
            final(self).wf(),
            old(self).is_followed_by(children@, *final(self)),
    {
        let ghost before = *self;
        let ghost all = children@;
        let next = self.generation + 1;
        let n = self.organisms.len();
        let mut rest = children;
        let mut k: usize = n;
        while k > 0
            invariant
                n == before.organisms@.len(),
                all.len() == n,
                before.wf(),
                next == before.generation + 1,
                forall|i: int| 0 <= i < n && (#[trigger] all[i]) is Some ==> all[i]->Some_0.wf(),
                k <= n,
                rest@ == all.subrange(0, k as int),
                self.generation == before.generation,
                self.organisms@.len() == n,
                forall|i: int| 0 <= i < k ==> #[trigger] self.organisms@[i] == before.organisms@[i],
                forall|i: int|
                    k <= i < n && (#[trigger] all[i]) is None ==> self.organisms@[i] == (Organism {
                        brain: before.organisms@[i].brain,
                        lifetime: (before.organisms@[i].lifetime + 1) as usize,
                        generation: before.organisms@[i].generation,
                    }),
                forall|i: int|
                    k <= i < n && (#[trigger] all[i]) is Some ==> self.organisms@[i] == (Organism {
                        brain: all[i],
                        lifetime: 0,
                        generation: next,
                    }),
            decreases k,
        {
            k -= 1;
            let child = rest.pop();
            assert(child == Some(all[k as int]));
            assert(rest@ =~= all.subrange(0, k as int));
            proof {
                assert(organism_wf(before.organisms@[k as int], before.generation));
            }
            match child {
                Some(Some(brain)) => {
                    self.organisms[k] = Organism { brain: Some(brain), lifetime: 0, generation: next };
                },
                _ => {
                    let lifetime = self.organisms[k].lifetime + 1;
                    self.organisms[k].lifetime = lifetime;
                },
            }
        }
        self.generation = next;
        proof {
            assert forall|i: int| 0 <= i < n implies organism_wf(
                #[trigger] self.organisms@[i],
                self.generation,
            ) by {
                assert(organism_wf(before.organisms@[i], before.generation));
                if all[i] is None {
                } else {
                }
            }
        }
    }
}

/// The positions whose organism's lifetime grew by one from `before` to
/// `after`.
pub open spec fn lengthened(before: Population, after: Population) -> Set<usize> {
    Set::new(
        |p: usize|
            p < before.organisms@.len() && after.organisms@[p as int].lifetime
                == before.organisms@[p as int].lifetime + 1,
    )
}

/// Across a generation the population keeps its size; the organisms whose
/// lifetime grows by one are exactly the winners that the plan retains, half
/// of the population; every other organism is a fresh child of lifetime zero,
/// created in the new generation.
pub proof fn lemma_generation_turnover(
    before: Population,
    pairs: Seq<(usize, usize)>,
    first_won: Seq<bool>,
    plan: Seq<Option<(usize, usize)>>,
    children: Seq<Option<NeuralNetwork>>,
    after: Population,
)
    requires
        before.wf(),
        before.generation < usize::MAX,
        2 * pairs.len() == before.organisms@.len(),
        disjoint_pairs(pairs, before.organisms@.len() as int),
        first_won.len() == pairs.len(),
        is_breeding_plan(plan, winners(pairs, first_won), before.organisms@.len() as int),
        children.len() == plan.len(),
        forall|p: int| 0 <= p < plan.len() ==> ((#[trigger] children[p]) is None <==> plan[p] is None),
        before.is_followed_by(children, after),
    ensures
        after.organisms@.len() == before.organisms@.len(),
        lengthened(before, after) == retained(plan),
        retained(plan).finite(),
        retained(plan).len() == before.organisms@.len() / 2,
        forall|p: int|
            0 <= p < before.organisms@.len() && !retained(plan).contains(p as usize) ==> (
            #[trigger] after.organisms@[p]).lifetime == 0 && after.organisms@[p].generation
                == after.generation,
{
    let n = before.organisms@.len();
    let w = winners(pairs, first_won);
    assert forall|i: int, j: int| 0 <= i < j < w.len() implies w[i] != w[j] by {
        assert(pairs[i].0 != pairs[j].0);
    }
    assert(w.no_duplicates());
    w.unique_seq_to_set();
    assert(retained(plan) =~= w.to_set());
    assert forall|p: usize| lengthened(before, after).contains(p) <==> retained(plan).contains(p) by {
        if p < n {
            assert(organism_wf(before.organisms@[p as int], before.generation));
            if plan[p as int] is None {
                assert(children[p as int] is None);
            } else {
                assert(children[p as int] is Some);
            }
        }
    }
    assert(lengthened(before, after) =~= retained(plan));
    assert forall|p: int|
        0 <= p < n && !retained(plan).contains(p as usize) implies (
        #[trigger] after.organisms@[p]).lifetime == 0 && after.organisms@[p].generation
            == after.generation by {
        assert(plan[p] is Some);
        assert(children[p] is Some);
    }
}

/// Consecutive positions of `order`, two by two: when `order` lists every
/// position once, every position plays exactly one match.
pub fn pair_up(order: &Vec<usize>) -> (r: Vec<(usize, usize)>)
    requires
        order@.len() % 2 == 0,
        order@.no_duplicates(),
        forall|i: int| 0 <= i < order@.len() ==> #[trigger] order@[i] < order@.len(),
    ensures
        2 * r@.len() == order@.len(),
        forall|i: int| 0 <= i < r@.len() ==> #[trigger] r@[i] == (order@[2 * i], order@[2 * i + 1]),
        disjoint_pairs(r@, order@.len() as int),
{
    let len = order.len();
    let half = len / 2;
    let mut r: Vec<(usize, usize)> = Vec::with_capacity(half);
    let mut i: usize = 0;
    while i < half
        invariant
            2 * half == order@.len(),
            order@.len() <= usize::MAX,
            i <= half,
            r@.len() == i,
            forall|t: int| 0 <= t < i ==> #[trigger] r@[t] == (order@[2 * t], order@[2 * t + 1]),
        decreases half - i,
    {
        r.push((order[2 * i], order[2 * i + 1]));
        i += 1;
    }
    assert forall|a: int, b: int| 0 <= a < b < r@.len() implies (#[trigger] r@[a]).0 != (
    #[trigger] r@[b]).0 && r@[a].0 != r@[b].1 && r@[a].1 != r@[b].0 && r@[a].1 != r@[b].1 by {
        assert(r@[a] == (order@[2 * a], order@[2 * a + 1]));
        assert(r@[b] == (order@[2 * b], order@[2 * b + 1]));
    }
    assert forall|a: int| 0 <= a < r@.len() implies (#[trigger] r@[a]).0 < order@.len() && r@[a].1
        < order@.len() && r@[a].0 != r@[a].1 by {
        assert(r@[a] == (order@[2 * a], order@[2 * a + 1]));
    }
    r
}

} // verus!
