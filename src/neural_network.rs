//! The genome: a fixed-topology, sparsely connected feed-forward network with
//! one hidden layer, and its genetic operators.
//!
//! Weights and biases are fixed-point numbers: one unit of weight is
//! `WEIGHT_SCALE`. Probabilities are given in parts of `PROBABILITY_SCALE`.
//! Edge `(i, j)` of a layer with `m` destination nodes is stored at
//! `i * m + j` (row-major by source node). Each input is a feature of the
//! game state that is either set or not.
use crate::random::{coin, random_below, random_between};
use vstd::prelude::*;

verus! {

/// Features of a game state that the network reads.
pub const INPUT_NODES: usize = 554;

/// Actions that the network scores.
pub const OUTPUT_NODES: usize = 60;

/// Hidden nodes: two thirds of the input and output nodes together.
pub const HIDDEN_NODES: usize = (INPUT_NODES + OUTPUT_NODES) * 2 / 3;

/// Edges from the input layer to the hidden layer.
pub const INPUT_EDGES: usize = INPUT_NODES * HIDDEN_NODES;

/// Edges from the hidden layer to the output layer.
pub const OUTPUT_EDGES: usize = HIDDEN_NODES * OUTPUT_NODES;

/// The fixed-point value of a weight or bias of 1.
pub const WEIGHT_SCALE: i64 = 1_000_000_000;

/// Fresh weights and biases are drawn from `[-INITIAL_BOUND, INITIAL_BOUND]`,
/// half a unit either way.
pub const INITIAL_BOUND: i64 = 500_000_000;

/// The probability 1.
pub const PROBABILITY_SCALE: u32 = 1_000_000;

/// Mutation rate used when breeding a generation: one in a hundred.
pub const BREEDING_MUTATION_RATE: u32 = PROBABILITY_SCALE / 100;

/// Mutation magnitude used when breeding a generation: a tenth of a unit.
pub const BREEDING_MUTATION_MAGNITUDE: i64 = 100_000_000;

/// The elementwise function that a node applies to its weighted sum.
#[derive(Clone, Copy, Debug, PartialEq, Eq, Structural)]
pub enum ActivationKind {
    /// The logistic function.
    Sigmoid,
    /// `max(x, x / 100)`.
    LeakyRelu,
    /// The hyperbolic tangent.
    Tanh,
}

/// A kind drawn uniformly from the three.
fn random_kind() -> (r: ActivationKind) {
    match random_below(3) {
        0 => ActivationKind::Sigmoid,
        1 => ActivationKind::LeakyRelu,
        _ => ActivationKind::Tanh,
    }
}

/// The genome of one policy.
#[derive(Clone, Debug, PartialEq)]
pub struct NeuralNetwork {
    /// Input `i` to hidden node `j` at `i * HIDDEN_NODES + j`.
    pub weights_input_hidden: Vec<i64>,
    /// Hidden node `j` to output node `k` at `j * OUTPUT_NODES + k`.
    pub weights_hidden_output: Vec<i64>,
    /// Whether each input-to-hidden edge takes part in inference.
    pub connections_input_hidden: Vec<bool>,
    /// Whether each hidden-to-output edge takes part in inference.
    pub connections_hidden_output: Vec<bool>,
    pub hidden_biases: Vec<i64>,
    pub final_biases: Vec<i64>,
    pub hidden_activations: Vec<ActivationKind>,
    pub final_activations: Vec<ActivationKind>,
}

/// Every element of `s` lies in `[-bound, bound]`.
pub open spec fn within(s: Seq<i64>, bound: i64) -> bool {
    forall|k: int| 0 <= k < s.len() ==> -bound <= #[trigger] s[k] <= bound
}

pub open spec fn distance(x: i64, y: i64) -> int {
    if x >= y {
        x - y
    } else {
        y - x
    }
}

/// Edge `(w, c)` of a child descends from the parent edge `(pw, pc)`: its
/// flag is the parent's unless mutation can happen, and toggled when
/// mutation is certain; its weight is the parent's unless mutation can happen
/// and the edge ends up enabled, in which case it is at most `magnitude` away.
pub open spec fn edge_descends(w: i64, c: bool, pw: i64, pc: bool, rate: u32, magnitude: i64) -> bool {
    &&& (c == pc || rate > 0)
    &&& (rate >= PROBABILITY_SCALE ==> c == !pc)
    &&& if rate > 0 && c {
        distance(w, pw) <= magnitude
    } else {
        w == pw
    }
}

/// Node `(b, k)` of a child descends from the parent node `(pb, pk)`: bias
/// and kind are the parent's unless mutation can happen, and then the bias is
/// at most `magnitude` away.
pub open spec fn node_descends(
    b: i64,
    k: ActivationKind,
    pb: i64,
    pk: ActivationKind,
    rate: u32,
    magnitude: i64,
) -> bool {
    &&& (k == pk || rate > 0)
    &&& if rate > 0 {
        distance(b, pb) <= magnitude
    } else {
        b == pb
    }
}

/// Each edge of the child layer `(w, c)` descends, weight and flag together,
/// from the same edge of parent `a` or of parent `b`.
pub open spec fn edges_descend(
    w: Seq<i64>,
    c: Seq<bool>,
    aw: Seq<i64>,
    ac: Seq<bool>,
    bw: Seq<i64>,
    bc: Seq<bool>,
    rate: u32,
    magnitude: i64,
) -> bool {
    forall|e: int|
        0 <= e < w.len() ==> edge_descends(#[trigger] w[e], c[e], aw[e], ac[e], rate, magnitude)
            || edge_descends(w[e], c[e], bw[e], bc[e], rate, magnitude)
}

/// Each node of the child layer `(bias, kind)` descends, bias and kind
/// together, from the same node of parent `a` or of parent `b`.
pub open spec fn nodes_descend(
    bias: Seq<i64>,
    kind: Seq<ActivationKind>,
    ab: Seq<i64>,
    ak: Seq<ActivationKind>,
    bb: Seq<i64>,
    bk: Seq<ActivationKind>,
    rate: u32,
    magnitude: i64,
) -> bool {
    forall|n: int|
        0 <= n < bias.len() ==> node_descends(#[trigger] bias[n], kind[n], ab[n], ak[n], rate, magnitude)
            || node_descends(bias[n], kind[n], bb[n], bk[n], rate, magnitude)
}

impl NeuralNetwork {
    /// Every array has the length that the topology gives it.
    pub open spec fn wf(&self) -> bool {
        &&& self.weights_input_hidden@.len() == INPUT_EDGES
        &&& self.weights_hidden_output@.len() == OUTPUT_EDGES
        &&& self.connections_input_hidden@.len() == INPUT_EDGES
        &&& self.connections_hidden_output@.len() == OUTPUT_EDGES
        &&& self.hidden_biases@.len() == HIDDEN_NODES
        &&& self.final_biases@.len() == OUTPUT_NODES
        &&& self.hidden_activations@.len() == HIDDEN_NODES
        &&& self.final_activations@.len() == OUTPUT_NODES
    }

    /// `child` is a possible result of crossing `a` with `b` and mutating at
    /// `rate` by at most `magnitude`.
    pub open spec fn is_offspring(child: Self, a: Self, b: Self, rate: u32, magnitude: i64) -> bool {
        &&& child.wf()
        &&& edges_descend(
            child.weights_input_hidden@,
            child.connections_input_hidden@,
            a.weights_input_hidden@,
            a.connections_input_hidden@,
            b.weights_input_hidden@,
            b.connections_input_hidden@,
            rate,
            magnitude,
        )
        &&& edges_descend(
            child.weights_hidden_output@,
            child.connections_hidden_output@,
            a.weights_hidden_output@,
            a.connections_hidden_output@,
            b.weights_hidden_output@,
            b.connections_hidden_output@,
            rate,
            magnitude,
        )
        &&& nodes_descend(
            child.hidden_biases@,
            child.hidden_activations@,
            a.hidden_biases@,
            a.hidden_activations@,
            b.hidden_biases@,
            b.hidden_activations@,
            rate,
            magnitude,
        )
        &&& nodes_descend(
            child.final_biases@,
            child.final_activations@,
            a.final_biases@,
            a.final_activations@,
            b.final_biases@,
            b.final_activations@,
            rate,
            magnitude,
        )
    }

    /// A network with zero weights and biases, every edge enabled and every
    /// node logistic.
    pub fn new() -> (r: Self)
        ensures
            r.wf(),
            r.weights_input_hidden@ == Seq::new(INPUT_EDGES as nat, |e: int| 0i64),
            r.weights_hidden_output@ == Seq::new(OUTPUT_EDGES as nat, |e: int| 0i64),
            r.connections_input_hidden@ == Seq::new(INPUT_EDGES as nat, |e: int| true),
            r.connections_hidden_output@ == Seq::new(OUTPUT_EDGES as nat, |e: int| true),
            r.hidden_biases@ == Seq::new(HIDDEN_NODES as nat, |n: int| 0i64),
            r.final_biases@ == Seq::new(OUTPUT_NODES as nat, |n: int| 0i64),
            r.hidden_activations@ == Seq::new(HIDDEN_NODES as nat, |n: int| ActivationKind::Sigmoid),
            r.final_activations@ == Seq::new(OUTPUT_NODES as nat, |n: int| ActivationKind::Sigmoid),
    {
        NeuralNetwork {
            weights_input_hidden: filled(0i64, INPUT_EDGES),
            weights_hidden_output: filled(0i64, OUTPUT_EDGES),
            connections_input_hidden: filled(true, INPUT_EDGES),
            connections_hidden_output: filled(true, OUTPUT_EDGES),
            hidden_biases: filled(0i64, HIDDEN_NODES),
            final_biases: filled(0i64, OUTPUT_NODES),
            hidden_activations: filled(ActivationKind::Sigmoid, HIDDEN_NODES),
            final_activations: filled(ActivationKind::Sigmoid, OUTPUT_NODES),
        }
    }

    /// Replaces every field with fresh random values: weights and biases
    /// uniform in `[-INITIAL_BOUND, INITIAL_BOUND]`, each edge enabled on a
    /// fair coin, each kind uniform among the three.
    pub fn init(&mut self)
        ensures
            final(self).wf(),
            within(final(self).weights_input_hidden@, INITIAL_BOUND),
            within(final(self).weights_hidden_output@, INITIAL_BOUND),
            within(final(self).hidden_biases@, INITIAL_BOUND),
            within(final(self).final_biases@, INITIAL_BOUND),
    {
        self.weights_input_hidden = random_values(INPUT_EDGES);
        self.weights_hidden_output = random_values(OUTPUT_EDGES);
        self.connections_input_hidden = random_flags(INPUT_EDGES);
        self.connections_hidden_output = random_flags(OUTPUT_EDGES);
        self.hidden_biases = random_values(HIDDEN_NODES);
        self.final_biases = random_values(OUTPUT_NODES);
        self.hidden_activations = random_kinds(HIDDEN_NODES);
        self.final_activations = random_kinds(OUTPUT_NODES);
    }

    /// A child of `self` and `partner`. Each node takes its bias and kind
    /// from one parent, and each edge its weight and flag from one parent,
    /// every choice on its own fair coin. Then each node's bias is perturbed
    /// and its kind redrawn, each with probability `mutation_rate`; each
    /// edge's flag is toggled with that probability, and the weight of an edge
    /// that ends up enabled is perturbed with it too. A perturbation is uniform
    /// in `[-mutation_magnitude, mutation_magnitude]`. The parents are only read.
    /// The choices are drawn here and applied by `inherit_edges` and
    /// `inherit_nodes`, whose results are exact for any draw.
    pub fn crossover(&self, partner: &Self, mutation_rate: u32, mutation_magnitude: i64) -> (r: Self)
        requires
            self.wf(),
            partner.wf(),
            mutation_rate > 0 ==> 0 <= mutation_magnitude,
        ensures
            Self::is_offspring(r, *self, *partner, mutation_rate, mutation_magnitude),
    {
        let (rate, magnitude) = (mutation_rate, mutation_magnitude);
        let (from_a, toggle, delta) = draw_edge_choices(INPUT_EDGES, rate, magnitude);
        let (weights_input_hidden, connections_input_hidden) = inherit_edges(
            &self.weights_input_hidden,
            &self.connections_input_hidden,
            &partner.weights_input_hidden,
            &partner.connections_input_hidden,
            &from_a,
            &toggle,
            &delta,
        );
        proof {
            lemma_edges_descend(
                weights_input_hidden@,
                connections_input_hidden@,
                self.weights_input_hidden@,
                self.connections_input_hidden@,
                partner.weights_input_hidden@,
                partner.connections_input_hidden@,
                from_a@,
                toggle@,
                delta@,
                rate,
                magnitude,
            );
        }
        let (from_a, toggle, delta) = draw_edge_choices(OUTPUT_EDGES, rate, magnitude);
        let (weights_hidden_output, connections_hidden_output) = inherit_edges(
            &self.weights_hidden_output,
            &self.connections_hidden_output,
            &partner.weights_hidden_output,
            &partner.connections_hidden_output,
            &from_a,
            &toggle,
            &delta,
        );
        proof {
            lemma_edges_descend(
                weights_hidden_output@,
                connections_hidden_output@,
                self.weights_hidden_output@,
                self.connections_hidden_output@,
                partner.weights_hidden_output@,
                partner.connections_hidden_output@,
                from_a@,
                toggle@,
                delta@,
                rate,
                magnitude,
            );
        }
        let (from_a, delta, redraw) = draw_node_choices(HIDDEN_NODES, rate, magnitude);
        let (hidden_biases, hidden_activations) = inherit_nodes(
            &self.hidden_biases,
            &self.hidden_activations,
            &partner.hidden_biases,
            &partner.hidden_activations,
            &from_a,
            &delta,
            &redraw,
        );
        proof {
            lemma_nodes_descend(
                hidden_biases@,
                hidden_activations@,
                self.hidden_biases@,
                self.hidden_activations@,
                partner.hidden_biases@,
                partner.hidden_activations@,
                from_a@,
                delta@,
                redraw@,
                rate,
                magnitude,
            );
        }
        let (from_a, delta, redraw) = draw_node_choices(OUTPUT_NODES, rate, magnitude);
        let (final_biases, final_activations) = inherit_nodes(
            &self.final_biases,
            &self.final_activations,
            &partner.final_biases,
            &partner.final_activations,
            &from_a,
            &delta,
            &redraw,
        );
        proof {
            lemma_nodes_descend(
                final_biases@,
                final_activations@,
                self.final_biases@,
                self.final_activations@,
                partner.final_biases@,
                partner.final_activations@,
                from_a@,
                delta@,
                redraw@,
                rate,
                magnitude,
            );
        }
        NeuralNetwork {
            weights_input_hidden,
            weights_hidden_output,
            connections_input_hidden,
            connections_hidden_output,
            hidden_biases,
            final_biases,
            hidden_activations,
            final_activations,
        }
    }
}

/// With a mutation rate of zero nothing is blended: every edge of a child,
/// weight and flag, is the same edge of one parent, and every node, bias and
/// kind, is the same node of one parent.
pub proof fn lemma_unmutated_child_copies(
    child: NeuralNetwork,
    a: NeuralNetwork,
    b: NeuralNetwork,
    magnitude: i64,
)
    requires
        NeuralNetwork::is_offspring(child, a, b, 0, magnitude),
    ensures
        forall|e: int|
            0 <= e < INPUT_EDGES ==> (#[trigger] child.weights_input_hidden@[e]
                == a.weights_input_hidden@[e] && child.connections_input_hidden@[e]
                == a.connections_input_hidden@[e]) || (child.weights_input_hidden@[e]
                == b.weights_input_hidden@[e] && child.connections_input_hidden@[e]
                == b.connections_input_hidden@[e]),
        forall|e: int|
            0 <= e < OUTPUT_EDGES ==> (#[trigger] child.weights_hidden_output@[e]
                == a.weights_hidden_output@[e] && child.connections_hidden_output@[e]
                == a.connections_hidden_output@[e]) || (child.weights_hidden_output@[e]
                == b.weights_hidden_output@[e] && child.connections_hidden_output@[e]
                == b.connections_hidden_output@[e]),
        forall|n: int|
            0 <= n < HIDDEN_NODES ==> (#[trigger] child.hidden_biases@[n] == a.hidden_biases@[n]
                && child.hidden_activations@[n] == a.hidden_activations@[n]) || (
            child.hidden_biases@[n] == b.hidden_biases@[n] && child.hidden_activations@[n]
                == b.hidden_activations@[n]),
        forall|n: int|
            0 <= n < OUTPUT_NODES ==> (#[trigger] child.final_biases@[n] == a.final_biases@[n]
                && child.final_activations@[n] == a.final_activations@[n]) || (
            child.final_biases@[n] == b.final_biases@[n] && child.final_activations@[n]
                == b.final_activations@[n]),
{
}

/// Whatever the mutation rate, every weight and bias of a child is at most
/// `magnitude` away from the same weight or bias of one of its parents.
pub proof fn lemma_mutation_is_bounded(
    child: NeuralNetwork,
    a: NeuralNetwork,
    b: NeuralNetwork,
    rate: u32,
    magnitude: i64,
)
    requires
        0 <= magnitude,
        NeuralNetwork::is_offspring(child, a, b, rate, magnitude),
    ensures
        forall|e: int|
            0 <= e < INPUT_EDGES ==> distance(
                #[trigger] child.weights_input_hidden@[e],
                a.weights_input_hidden@[e],
            ) <= magnitude || distance(child.weights_input_hidden@[e], b.weights_input_hidden@[e])
                <= magnitude,
        forall|e: int|
            0 <= e < OUTPUT_EDGES ==> distance(
                #[trigger] child.weights_hidden_output@[e],
                a.weights_hidden_output@[e],
            ) <= magnitude || distance(child.weights_hidden_output@[e], b.weights_hidden_output@[e])
                <= magnitude,
        forall|n: int|
            0 <= n < HIDDEN_NODES ==> distance(#[trigger] child.hidden_biases@[n], a.hidden_biases@[n])
                <= magnitude || distance(child.hidden_biases@[n], b.hidden_biases@[n]) <= magnitude,
        forall|n: int|
            0 <= n < OUTPUT_NODES ==> distance(#[trigger] child.final_biases@[n], a.final_biases@[n])
                <= magnitude || distance(child.final_biases@[n], b.final_biases@[n]) <= magnitude,
{
}

/// `choice` is the available action with the greatest score, the lowest such
/// index on a tie.
pub open spec fn is_best_available(scores: Seq<i64>, available: Seq<bool>, choice: int) -> bool {
    &&& 0 <= choice < scores.len()
    &&& available[choice]
    &&& forall|i: int| 0 <= i < scores.len() && #[trigger] available[i] ==> scores[i] <= scores[choice]
    &&& forall|i: int| 0 <= i < choice && #[trigger] available[i] ==> scores[i] < scores[choice]
}

/// The last step of choosing an action: of the actions marked available, the
/// one whose output scores highest, the lowest index on a tie. `scores` are
/// the output activations, in any form that orders as they do. At least one
/// action must be available: the rules of the game guarantee it, and a call
/// without one is a broken contract, not a runtime condition.
pub fn choose_action(scores: &Vec<i64>, available: &Vec<bool>) -> (r: usize)
    requires
        available@.len() == scores@.len(),
        exists|i: int| 0 <= i < available@.len() && available@[i],
    ensures
        is_best_available(scores@, available@, r as int),
{
    let mut best: Option<usize> = None;
    let mut i: usize = 0;
    while i < scores.len()
        invariant
            available@.len() == scores@.len(),
            i <= scores@.len(),
            match best {
                None => forall|t: int| 0 <= t < i ==> !#[trigger] available@[t],
                Some(b) => b < i && available@[b as int] && (forall|t: int|
                    0 <= t < i && #[trigger] available@[t] ==> scores@[t] <= scores@[b as int]) && (
                forall|t: int| 0 <= t < b && #[trigger] available@[t] ==> scores@[t] < scores@[b as int]),
            },
        decreases scores@.len() - i,
    {
        if available[i] {
            match best {
                None => best = Some(i),
                Some(b) => if scores[i] > scores[b] {
                    best = Some(i);
                },
            }
        }
        i += 1;
    }
    match best {
        Some(b) => b,
        None => {
            proof {
                let w = choose|w: int| 0 <= w < available@.len() && available@[w];
                assert(available@[w]);
            }
            0
        },
    }
}

/// How many of `s` are true.
pub open spec fn count_true(s: Seq<bool>) -> nat
    decreases s.len(),
{
    if s.len() == 0 {
        0
    } else {
        count_true(s.drop_last()) + if s.last() {
            1nat
        } else {
            0nat
        }
    }
}

/// How many of `s` are `kind`.
pub open spec fn count_kind(s: Seq<ActivationKind>, kind: ActivationKind) -> nat
    decreases s.len(),
{
    if s.len() == 0 {
        0
    } else {
        count_kind(s.drop_last(), kind) + if s.last() == kind {
            1nat
        } else {
            0nat
        }
    }
}

/// Counts over a genome: enabled and disabled edges, and nodes of each kind.
#[derive(Clone, Copy, Debug, PartialEq, Eq, Structural)]
pub struct GenomeStats {
    pub connected: usize,
    pub disconnected: usize,
    pub sigmoid: usize,
    pub leaky_relu: usize,
    pub tanh: usize,
}

fn enabled_count(s: &Vec<bool>) -> (r: usize)
    ensures
        r == count_true(s@),
        r <= s@.len(),
{
    let mut r: usize = 0;
    let mut i: usize = 0;
    while i < s.len()
        invariant
            i <= s@.len(),
            r == count_true(s@.subrange(0, i as int)),
            r <= i,
        decreases s@.len() - i,
    {
        assert(s@.subrange(0, i + 1).drop_last() =~= s@.subrange(0, i as int));
        if s[i] {
            r += 1;
        }
        i += 1;
    }
    assert(s@.subrange(0, s@.len() as int) =~= s@);
    r
}

fn kind_count(s: &Vec<ActivationKind>, kind: ActivationKind) -> (r: usize)
    ensures
        r == count_kind(s@, kind),
        r <= s@.len(),
{
    let mut r: usize = 0;
    let mut i: usize = 0;
    while i < s.len()
        invariant
            i <= s@.len(),
            r == count_kind(s@.subrange(0, i as int), kind),
            r <= i,
        decreases s@.len() - i,
    {
        assert(s@.subrange(0, i + 1).drop_last() =~= s@.subrange(0, i as int));
        if s[i] == kind {
            r += 1;
        }
        i += 1;
    }
    assert(s@.subrange(0, s@.len() as int) =~= s@);
    r
}

impl NeuralNetwork {
    /// The genome's enabled and disabled edges, over both layers, and its
    /// nodes of each kind, over both layers.
    pub fn stats(&self) -> (r: GenomeStats)
        requires
            self.wf(),
        ensures
            r.connected == count_true(self.connections_input_hidden@) + count_true(
                self.connections_hidden_output@,
            ),
            r.connected + r.disconnected == INPUT_EDGES + OUTPUT_EDGES,
            r.sigmoid == count_kind(self.hidden_activations@, ActivationKind::Sigmoid) + count_kind(
                self.final_activations@,
                ActivationKind::Sigmoid,
            ),
            r.leaky_relu == count_kind(self.hidden_activations@, ActivationKind::LeakyRelu)
                + count_kind(self.final_activations@, ActivationKind::LeakyRelu),
            r.tanh == count_kind(self.hidden_activations@, ActivationKind::Tanh) + count_kind(
                self.final_activations@,
                ActivationKind::Tanh,
            ),
    {
        let hidden_edges = enabled_count(&self.connections_input_hidden);
        let output_edges = enabled_count(&self.connections_hidden_output);
        let connected = hidden_edges + output_edges;
        GenomeStats {
            connected,
            disconnected: INPUT_EDGES + OUTPUT_EDGES - connected,
            sigmoid: kind_count(&self.hidden_activations, ActivationKind::Sigmoid) + kind_count(
                &self.final_activations,
                ActivationKind::Sigmoid,
            ),
            leaky_relu: kind_count(&self.hidden_activations, ActivationKind::LeakyRelu) + kind_count(
                &self.final_activations,
                ActivationKind::LeakyRelu,
            ),
            tanh: kind_count(&self.hidden_activations, ActivationKind::Tanh) + kind_count(
                &self.final_activations,
                ActivationKind::Tanh,
            ),
        }
    }
}

/// `n` copies of `value`.
fn filled<T: Copy>(value: T, n: usize) -> (r: Vec<T>)
    ensures
        r@ == Seq::new(n as nat, |k: int| value),
{
    let mut r: Vec<T> = Vec::with_capacity(n);
    let mut k: usize = 0;
    while k < n
        invariant
            k <= n,
            r@ == Seq::new(k as nat, |t: int| value),
        decreases n - k,
    {
        r.push(value);
        k += 1;
        assert(r@ =~= Seq::new(k as nat, |t: int| value));
    }
    r
}

fn random_values(n: usize) -> (r: Vec<i64>)
    ensures
        r@.len() == n,
        within(r@, INITIAL_BOUND),
{
    let mut r: Vec<i64> = Vec::with_capacity(n);
    let mut k: usize = 0;
    while k < n
        invariant
            k <= n,
            r@.len() == k,
            within(r@, INITIAL_BOUND),
        decreases n - k,
    {
        r.push(random_between(-INITIAL_BOUND, INITIAL_BOUND));
        k += 1;
    }
    r
}

fn random_flags(n: usize) -> (r: Vec<bool>)
    ensures
        r@.len() == n,
{
    let mut r: Vec<bool> = Vec::with_capacity(n);
    let mut k: usize = 0;
    while k < n
        invariant
            k <= n,
            r@.len() == k,
        decreases n - k,
    {
        r.push(coin());
        k += 1;
    }
    r
}

fn random_kinds(n: usize) -> (r: Vec<ActivationKind>)
    ensures
        r@.len() == n,
{
    let mut r: Vec<ActivationKind> = Vec::with_capacity(n);
    let mut k: usize = 0;
    while k < n
        invariant
            k <= n,
            r@.len() == k,
        decreases n - k,
    {
        r.push(random_kind());
        k += 1;
    }
    r
}

/// True with probability `rate` out of `PROBABILITY_SCALE`: never when `rate`
/// is zero, always when it is the whole scale or more.
fn happens(rate: u32) -> (r: bool)
    ensures
        r ==> rate > 0,
        rate >= PROBABILITY_SCALE ==> r,
{
    random_below(PROBABILITY_SCALE) < rate
}

/// `w` moved by `delta`, held within the range of `i64`.
pub open spec fn moved(w: i64, delta: i64) -> i64 {
    if w + delta > i64::MAX {
        i64::MAX
    } else if w + delta < i64::MIN {
        i64::MIN
    } else {
        (w + delta) as i64
    }
}

/// The child edge made from parent edges `(aw, ac)` and `(bw, bc)` by the
/// drawn choices: the weight and flag of `a` if `from_a`, else of `b`; the
/// flag toggled if `toggle`; then, if the edge is enabled and a perturbation
/// `delta` was drawn, the weight moved by it.
pub open spec fn inherited_edge(
    aw: i64,
    ac: bool,
    bw: i64,
    bc: bool,
    from_a: bool,
    toggle: bool,
    delta: Option<i64>,
) -> (i64, bool) {
    let (w, c) = if from_a {
        (aw, ac)
    } else {
        (bw, bc)
    };
    let c = c != toggle;
    if c && delta is Some {
        (moved(w, delta->Some_0), c)
    } else {
        (w, c)
    }
}

/// The child node made from parent nodes `(ab, ak)` and `(bb, bk)` by the
/// drawn choices: the bias and kind of `a` if `from_a`, else of `b`; the bias
/// moved by `delta` if one was drawn; the kind replaced by `redraw` if one
/// was drawn.
pub open spec fn inherited_node(
    ab: i64,
    ak: ActivationKind,
    bb: i64,
    bk: ActivationKind,
    from_a: bool,
    delta: Option<i64>,
    redraw: Option<ActivationKind>,
) -> (i64, ActivationKind) {
    let (b, k) = if from_a {
        (ab, ak)
    } else {
        (bb, bk)
    };
    (
        if delta is Some {
            moved(b, delta->Some_0)
        } else {
            b
        },
        if redraw is Some {
            redraw->Some_0
        } else {
            k
        },
    )
}

fn move_by(w: i64, delta: i64) -> (r: i64)
    ensures
        r == moved(w, delta),
{
    match w.checked_add(delta) {
        Some(sum) => sum,
        None => if delta > 0 {
            i64::MAX
        } else {
            i64::MIN
        },
    }
}

/// One layer of child edges from the drawn choices, edge by edge: see
/// `inherited_edge`.
pub fn inherit_edges(
    aw: &Vec<i64>,
    ac: &Vec<bool>,
    bw: &Vec<i64>,
    bc: &Vec<bool>,
    from_a: &Vec<bool>,
    toggle: &Vec<bool>,
    delta: &Vec<Option<i64>>,
) -> (r: (Vec<i64>, Vec<bool>))
    requires
        ac@.len() == aw@.len(),
        bw@.len() == aw@.len(),
        bc@.len() == aw@.len(),
        from_a@.len() == aw@.len(),
        toggle@.len() == aw@.len(),
        delta@.len() == aw@.len(),
    ensures
        r.0@.len() == aw@.len(),
        r.1@.len() == aw@.len(),
        forall|e: int|
            0 <= e < aw@.len() ==> (#[trigger] r.0@[e], r.1@[e]) == inherited_edge(
                aw@[e],
                ac@[e],
                bw@[e],
                bc@[e],
                from_a@[e],
                toggle@[e],
                delta@[e],
            ),
{
    let n = aw.len();
    let mut w: Vec<i64> = Vec::with_capacity(n);
    let mut c: Vec<bool> = Vec::with_capacity(n);
    let mut e: usize = 0;
    while e < n
        invariant
            n == aw@.len(),
            ac@.len() == n,
            bw@.len() == n,
            bc@.len() == n,
            from_a@.len() == n,
            toggle@.len() == n,
            delta@.len() == n,
            e <= n,
            w@.len() == e,
            c@.len() == e,
            forall|t: int|
                0 <= t < e ==> (#[trigger] w@[t], c@[t]) == inherited_edge(
                    aw@[t],
                    ac@[t],
                    bw@[t],
                    bc@[t],
                    from_a@[t],
                    toggle@[t],
                    delta@[t],
                ),
        decreases n - e,
    {
        let (pw, pc) = if from_a[e] {
            (aw[e], ac[e])
        } else {
            (bw[e], bc[e])
        };
        let cc = pc != toggle[e];
        let cw = match delta[e] {
            Some(d) => if cc {
                move_by(pw, d)
            } else {
                pw
            },
            None => pw,
        };
        w.push(cw);
        c.push(cc);
        e += 1;
    }
    (w, c)
}

/// One layer of child nodes from the drawn choices, node by node: see
/// `inherited_node`.
pub fn inherit_nodes(
    ab: &Vec<i64>,
    ak: &Vec<ActivationKind>,
    bb: &Vec<i64>,
    bk: &Vec<ActivationKind>,
    from_a: &Vec<bool>,
    delta: &Vec<Option<i64>>,
    redraw: &Vec<Option<ActivationKind>>,
) -> (r: (Vec<i64>, Vec<ActivationKind>))
    requires
        ak@.len() == ab@.len(),
        bb@.len() == ab@.len(),
        bk@.len() == ab@.len(),
        from_a@.len() == ab@.len(),
        delta@.len() == ab@.len(),
        redraw@.len() == ab@.len(),
    ensures
        r.0@.len() == ab@.len(),
        r.1@.len() == ab@.len(),
        forall|n: int|
            0 <= n < ab@.len() ==> (#[trigger] r.0@[n], r.1@[n]) == inherited_node(
                ab@[n],
                ak@[n],
                bb@[n],
                bk@[n],
                from_a@[n],
                delta@[n],
                redraw@[n],
            ),
{
    let n = ab.len();
    let mut b: Vec<i64> = Vec::with_capacity(n);
    let mut k: Vec<ActivationKind> = Vec::with_capacity(n);
    let mut i: usize = 0;
    while i < n
        invariant
            n == ab@.len(),
            ak@.len() == n,
            bb@.len() == n,
            bk@.len() == n,
            from_a@.len() == n,
            delta@.len() == n,
            redraw@.len() == n,
            i <= n,
            b@.len() == i,
            k@.len() == i,
            forall|t: int|
                0 <= t < i ==> (#[trigger] b@[t], k@[t]) == inherited_node(
                    ab@[t],
                    ak@[t],
                    bb@[t],
                    bk@[t],
                    from_a@[t],
                    delta@[t],
                    redraw@[t],
                ),
        decreases n - i,
    {
        let (pb, pk) = if from_a[i] {
            (ab[i], ak[i])
        } else {
            (bb[i], bk[i])
        };
        let cb = match delta[i] {
            Some(d) => move_by(pb, d),
            None => pb,
        };
        let ck = match redraw[i] {
            Some(kind) => kind,
            None => pk,
        };
        b.push(cb);
        k.push(ck);
        i += 1;
    }
    (b, k)
}

/// A perturbation, drawn with probability `rate`, uniform in
/// `[-magnitude, magnitude]`.
fn maybe_delta(rate: u32, magnitude: i64) -> (r: Option<i64>)
    requires
        rate > 0 ==> 0 <= magnitude,
    ensures
        r is Some ==> rate > 0 && -magnitude <= r->Some_0 <= magnitude,
{
    if happens(rate) {
        Some(random_between(-magnitude, magnitude))
    } else {
        None
    }
}

/// The choices for `n` edges: the parent on a fair coin, a toggle with
/// probability `rate`, and a perturbation with probability `rate`.
fn draw_edge_choices(n: usize, rate: u32, magnitude: i64) -> (r: (Vec<bool>, Vec<bool>, Vec<Option<i64>>))
    requires
        rate > 0 ==> 0 <= magnitude,
    ensures
        r.0@.len() == n,
        r.1@.len() == n,
        r.2@.len() == n,
        forall|e: int| 0 <= e < n ==> (#[trigger] r.1@[e] ==> rate > 0),
        forall|e: int| 0 <= e < n ==> (rate >= PROBABILITY_SCALE ==> #[trigger] r.1@[e]),
        forall|e: int|
            0 <= e < n && (#[trigger] r.2@[e]) is Some ==> rate > 0 && -magnitude <= r.2@[e]->Some_0
                <= magnitude,
{
    let mut from_a: Vec<bool> = Vec::with_capacity(n);
    let mut toggle: Vec<bool> = Vec::with_capacity(n);
    let mut delta: Vec<Option<i64>> = Vec::with_capacity(n);
    let mut e: usize = 0;
    while e < n
        invariant
            rate > 0 ==> 0 <= magnitude,
            e <= n,
            from_a@.len() == e,
            toggle@.len() == e,
            delta@.len() == e,
            forall|t: int| 0 <= t < e ==> (#[trigger] toggle@[t] ==> rate > 0),
            forall|t: int| 0 <= t < e ==> (rate >= PROBABILITY_SCALE ==> #[trigger] toggle@[t]),
            forall|t: int|
                0 <= t < e && (#[trigger] delta@[t]) is Some ==> rate > 0 && -magnitude
                    <= delta@[t]->Some_0 <= magnitude,
        decreases n - e,
    {
        from_a.push(coin());
        toggle.push(happens(rate));
        delta.push(maybe_delta(rate, magnitude));
        e += 1;
    }
    (from_a, toggle, delta)
}

/// The choices for `n` nodes: the parent on a fair coin, a perturbation of
/// the bias with probability `rate`, and a freshly drawn kind with
/// probability `rate`.
fn draw_node_choices(n: usize, rate: u32, magnitude: i64) -> (r: (
    Vec<bool>,
    Vec<Option<i64>>,
    Vec<Option<ActivationKind>>,
))
    requires
        rate > 0 ==> 0 <= magnitude,
    ensures
        r.0@.len() == n,
        r.1@.len() == n,
        r.2@.len() == n,
        forall|i: int|
            0 <= i < n && (#[trigger] r.1@[i]) is Some ==> rate > 0 && -magnitude <= r.1@[i]->Some_0
                <= magnitude,
        forall|i: int| 0 <= i < n && (#[trigger] r.2@[i]) is Some ==> rate > 0,
{
    let mut from_a: Vec<bool> = Vec::with_capacity(n);
    let mut delta: Vec<Option<i64>> = Vec::with_capacity(n);
    let mut redraw: Vec<Option<ActivationKind>> = Vec::with_capacity(n);
    let mut i: usize = 0;
    while i < n
        invariant
            rate > 0 ==> 0 <= magnitude,
            i <= n,
            from_a@.len() == i,
            delta@.len() == i,
            redraw@.len() == i,
            forall|t: int|
                0 <= t < i && (#[trigger] delta@[t]) is Some ==> rate > 0 && -magnitude
                    <= delta@[t]->Some_0 <= magnitude,
            forall|t: int| 0 <= t < i && (#[trigger] redraw@[t]) is Some ==> rate > 0,
        decreases n - i,
    {
        from_a.push(coin());
        delta.push(maybe_delta(rate, magnitude));
        redraw.push(
            if happens(rate) {
                Some(random_kind())
            } else {
                None
            },
        );
        i += 1;
    }
    (from_a, delta, redraw)
}

/// A layer of child edges made by the draws of `draw_edge_choices`
/// descends from the parents' layers.
proof fn lemma_edges_descend(
    w: Seq<i64>,
    c: Seq<bool>,
    aw: Seq<i64>,
    ac: Seq<bool>,
    bw: Seq<i64>,
    bc: Seq<bool>,
    from_a: Seq<bool>,
    toggle: Seq<bool>,
    delta: Seq<Option<i64>>,
    rate: u32,
    magnitude: i64,
)
    requires
        w.len() == aw.len(),
        c.len() == aw.len(),
        ac.len() == aw.len(),
        bw.len() == aw.len(),
        bc.len() == aw.len(),
        from_a.len() == aw.len(),
        toggle.len() == aw.len(),
        delta.len() == aw.len(),
        rate > 0 ==> 0 <= magnitude,
        forall|e: int|
            0 <= e < aw.len() ==> (#[trigger] w[e], c[e]) == inherited_edge(
                aw[e],
                ac[e],
                bw[e],
                bc[e],
                from_a[e],
                toggle[e],
                delta[e],
            ),
        forall|e: int| 0 <= e < aw.len() ==> (#[trigger] toggle[e] ==> rate > 0),
        forall|e: int| 0 <= e < aw.len() ==> (rate >= PROBABILITY_SCALE ==> #[trigger] toggle[e]),
        forall|e: int|
            0 <= e < aw.len() && (#[trigger] delta[e]) is Some ==> rate > 0 && -magnitude
                <= delta[e]->Some_0 <= magnitude,
    ensures
        edges_descend(w, c, aw, ac, bw, bc, rate, magnitude),
{
    assert forall|e: int| 0 <= e < w.len() implies edge_descends(
        #[trigger] w[e],
        c[e],
        aw[e],
        ac[e],
        rate,
        magnitude,
    ) || edge_descends(w[e], c[e], bw[e], bc[e], rate, magnitude) by {
        assert((w[e], c[e]) == inherited_edge(
            aw[e],
            ac[e],
            bw[e],
            bc[e],
            from_a[e],
            toggle[e],
            delta[e],
        ));
        let _ = toggle[e];
        let _ = delta[e];
    }
}

/// A layer of child nodes made by the draws of `draw_node_choices`
/// descends from the parents' layers.
proof fn lemma_nodes_descend(
    b: Seq<i64>,
    k: Seq<ActivationKind>,
    ab: Seq<i64>,
    ak: Seq<ActivationKind>,
    bb: Seq<i64>,
    bk: Seq<ActivationKind>,
    from_a: Seq<bool>,
    delta: Seq<Option<i64>>,
    redraw: Seq<Option<ActivationKind>>,
    rate: u32,
    magnitude: i64,
)
    requires
        b.len() == ab.len(),
        k.len() == ab.len(),
        ak.len() == ab.len(),
        bb.len() == ab.len(),
        bk.len() == ab.len(),
        from_a.len() == ab.len(),
        delta.len() == ab.len(),
        redraw.len() == ab.len(),
        forall|n: int|
            0 <= n < ab.len() ==> (#[trigger] b[n], k[n]) == inherited_node(
                ab[n],
                ak[n],
                bb[n],
                bk[n],
                from_a[n],
                delta[n],
                redraw[n],
            ),
        forall|n: int|
            0 <= n < ab.len() && (#[trigger] delta[n]) is Some ==> rate > 0 && -magnitude
                <= delta[n]->Some_0 <= magnitude,
        forall|n: int| 0 <= n < ab.len() && (#[trigger] redraw[n]) is Some ==> rate > 0,
        rate > 0 ==> 0 <= magnitude,
    ensures
        nodes_descend(b, k, ab, ak, bb, bk, rate, magnitude),
{
    assert forall|n: int| 0 <= n < b.len() implies node_descends(
        #[trigger] b[n],
        k[n],
        ab[n],
        ak[n],
        rate,
        magnitude,
    ) || node_descends(b[n], k[n], bb[n], bk[n], rate, magnitude) by {
        assert((b[n], k[n]) == inherited_node(
            ab[n],
            ak[n],
            bb[n],
            bk[n],
            from_a[n],
            delta[n],
            redraw[n],
        ));
        let _ = delta[n];
        let _ = redraw[n];
    }
}

} // verus!
