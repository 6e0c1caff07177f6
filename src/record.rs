//! The fixed-width byte record of a genome.
//!
//! Fields follow one another in this order: input-to-hidden weights,
//! hidden-to-output weights, input-to-hidden flags, hidden-to-output flags,
//! hidden biases, output biases, hidden activation kinds, output activation
//! kinds. Arrays are row-major by source node, as they are stored. A weight or
//! bias is eight bytes, its two's complement little-endian; a flag is one byte,
//! 0 or 1; a kind is one byte, 0 for logistic, 1 for leaky rectifier, 2 for
//! hyperbolic tangent.
use crate::neural_network::{
    ActivationKind, NeuralNetwork, HIDDEN_NODES, INPUT_EDGES, OUTPUT_EDGES, OUTPUT_NODES,
};
use vstd::prelude::*;

verus! {

pub const AT_WEIGHTS_HIDDEN_OUTPUT: usize = 8 * INPUT_EDGES;

pub const AT_CONNECTIONS_INPUT_HIDDEN: usize = AT_WEIGHTS_HIDDEN_OUTPUT + 8 * OUTPUT_EDGES;

pub const AT_CONNECTIONS_HIDDEN_OUTPUT: usize = AT_CONNECTIONS_INPUT_HIDDEN + INPUT_EDGES;

pub const AT_HIDDEN_BIASES: usize = AT_CONNECTIONS_HIDDEN_OUTPUT + OUTPUT_EDGES;

pub const AT_FINAL_BIASES: usize = AT_HIDDEN_BIASES + 8 * HIDDEN_NODES;

pub const AT_HIDDEN_ACTIVATIONS: usize = AT_FINAL_BIASES + 8 * OUTPUT_NODES;

pub const AT_FINAL_ACTIVATIONS: usize = AT_HIDDEN_ACTIVATIONS + HIDDEN_NODES;

/// The length of every record.
pub const RECORD_LEN: usize = AT_FINAL_ACTIVATIONS + OUTPUT_NODES;

/// Why a byte string is not the record of a genome.
#[derive(Clone, Copy, Debug, PartialEq, Eq, Structural)]
pub enum FormatError {
    /// It is not `RECORD_LEN` bytes long.
    WrongLength,
    /// A connection flag is neither 0 nor 1.
    BadFlag,
    /// An activation kind is not one of the three tags.
    BadKind,
}

/// The eight bytes of `x`, two's complement, least significant first.
pub open spec fn word_bytes(x: i64) -> Seq<u8> {
    let u = x as u64;
    seq![
        (u & 0xff) as u8,
        ((u >> 8u64) & 0xff) as u8,
        ((u >> 16u64) & 0xff) as u8,
        ((u >> 24u64) & 0xff) as u8,
        ((u >> 32u64) & 0xff) as u8,
        ((u >> 40u64) & 0xff) as u8,
        ((u >> 48u64) & 0xff) as u8,
        ((u >> 56u64) & 0xff) as u8,
    ]
}

/// The number whose eight bytes, least significant first, are `b`.
pub open spec fn word_from(b: Seq<u8>) -> i64 {
    (b[0] as u64 | (b[1] as u64) << 8u64 | (b[2] as u64) << 16u64 | (b[3] as u64) << 24u64 | (
    b[4] as u64) << 32u64 | (b[5] as u64) << 40u64 | (b[6] as u64) << 48u64 | (b[7] as u64)
        << 56u64) as i64
}

pub open spec fn flag_byte(c: bool) -> u8 {
    if c {
        1
    } else {
        0
    }
}

pub open spec fn kind_tag(k: ActivationKind) -> u8 {
    match k {
        ActivationKind::Sigmoid => 0,
        ActivationKind::LeakyRelu => 1,
        ActivationKind::Tanh => 2,
    }
}

/// From `at` on, `b` holds the words of `s`, eight bytes each.
pub open spec fn holds_words(b: Seq<u8>, at: int, s: Seq<i64>) -> bool {
    &&& 0 <= at
    &&& at + 8 * s.len() <= b.len()
    &&& forall|k: int|
        0 <= k < s.len() ==> b.subrange(at + 8 * k, at + 8 * k + 8) == word_bytes(#[trigger] s[k])
}

/// From `at` on, `b` holds the flags of `s`, one byte each.
pub open spec fn holds_flags(b: Seq<u8>, at: int, s: Seq<bool>) -> bool {
    &&& 0 <= at
    &&& at + s.len() <= b.len()
    &&& forall|k: int| 0 <= k < s.len() ==> b[at + k] == flag_byte(#[trigger] s[k])
}

/// From `at` on, `b` holds the tags of the kinds of `s`, one byte each.
pub open spec fn holds_kinds(b: Seq<u8>, at: int, s: Seq<ActivationKind>) -> bool {
    &&& 0 <= at
    &&& at + s.len() <= b.len()
    &&& forall|k: int| 0 <= k < s.len() ==> b[at + k] == kind_tag(#[trigger] s[k])
}

/// `b` is the record of the well-formed genome `g`.
pub open spec fn is_record_of(b: Seq<u8>, g: NeuralNetwork) -> bool {
    &&& g.wf()
    &&& b.len() == RECORD_LEN
    &&& holds_words(b, 0, g.weights_input_hidden@)
    &&& holds_words(b, AT_WEIGHTS_HIDDEN_OUTPUT as int, g.weights_hidden_output@)
    &&& holds_flags(b, AT_CONNECTIONS_INPUT_HIDDEN as int, g.connections_input_hidden@)
    &&& holds_flags(b, AT_CONNECTIONS_HIDDEN_OUTPUT as int, g.connections_hidden_output@)
    &&& holds_words(b, AT_HIDDEN_BIASES as int, g.hidden_biases@)
    &&& holds_words(b, AT_FINAL_BIASES as int, g.final_biases@)
    &&& holds_kinds(b, AT_HIDDEN_ACTIVATIONS as int, g.hidden_activations@)
    &&& holds_kinds(b, AT_FINAL_ACTIVATIONS as int, g.final_activations@)
}

/// Every flag byte of a record-long `b` is 0 or 1.
pub open spec fn flags_valid(b: Seq<u8>) -> bool {
    forall|i: int| AT_CONNECTIONS_INPUT_HIDDEN <= i < AT_HIDDEN_BIASES ==> #[trigger] b[i] <= 1
}

/// Every kind byte of a record-long `b` is a tag.
pub open spec fn kinds_valid(b: Seq<u8>) -> bool {
    forall|i: int| AT_HIDDEN_ACTIVATIONS <= i < RECORD_LEN ==> #[trigger] b[i] <= 2
}

/// Two genomes agree in every field.
pub open spec fn same_fields(g: NeuralNetwork, h: NeuralNetwork) -> bool {
    &&& g.weights_input_hidden@ == h.weights_input_hidden@
    &&& g.weights_hidden_output@ == h.weights_hidden_output@
    &&& g.connections_input_hidden@ == h.connections_input_hidden@
    &&& g.connections_hidden_output@ == h.connections_hidden_output@
    &&& g.hidden_biases@ == h.hidden_biases@
    &&& g.final_biases@ == h.final_biases@
    &&& g.hidden_activations@ == h.hidden_activations@
    &&& g.final_activations@ == h.final_activations@
}

proof fn lemma_word_round_trip(x: i64)
    ensures
        word_from(word_bytes(x)) == x,
{
    let u = x as u64;
    assert((u & 0xff) as u8 as u64 | (((u >> 8u64) & 0xff) as u8 as u64) << 8u64 | (((u
        >> 16u64) & 0xff) as u8 as u64) << 16u64 | (((u >> 24u64) & 0xff) as u8 as u64) << 24u64
        | (((u >> 32u64) & 0xff) as u8 as u64) << 32u64 | (((u >> 40u64) & 0xff) as u8 as u64)
        << 40u64 | (((u >> 48u64) & 0xff) as u8 as u64) << 48u64 | (((u >> 56u64) & 0xff) as u8
        as u64) << 56u64 == u) by (bit_vector);
    assert((x as u64) as i64 == x) by (bit_vector);
}

/// Appending to `b` keeps the words it holds.
proof fn lemma_words_kept(b: Seq<u8>, c: Seq<u8>, at: int, s: Seq<i64>)
    requires
        holds_words(b, at, s),
        b.len() <= c.len(),
        c.subrange(0, b.len() as int) == b,
    ensures
        holds_words(c, at, s),
{
    assert forall|k: int| 0 <= k < s.len() implies c.subrange(at + 8 * k, at + 8 * k + 8)
        == word_bytes(#[trigger] s[k]) by {
        assert(c.subrange(at + 8 * k, at + 8 * k + 8) =~= b.subrange(at + 8 * k, at + 8 * k + 8)) by {
            assert(c.subrange(0, b.len() as int)[at + 8 * k] == b[at + 8 * k]);
        }
    }
}

fn push_word(out: &mut Vec<u8>, x: i64)
    ensures
        final(out)@ == old(out)@ + word_bytes(x),
{
    let u = x as u64;
    out.push((u & 0xff) as u8);
    out.push(((u >> 8u64) & 0xff) as u8);
    out.push(((u >> 16u64) & 0xff) as u8);
    out.push(((u >> 24u64) & 0xff) as u8);
    out.push(((u >> 32u64) & 0xff) as u8);
    out.push(((u >> 40u64) & 0xff) as u8);
    out.push(((u >> 48u64) & 0xff) as u8);
    out.push(((u >> 56u64) & 0xff) as u8);
    assert(final(out)@ =~= old(out)@ + word_bytes(x));
}

fn push_words(out: &mut Vec<u8>, s: &Vec<i64>)
    requires
        old(out)@.len() + 8 * s@.len() <= usize::MAX,
    ensures
        final(out)@.len() == old(out)@.len() + 8 * s@.len(),
        final(out)@.subrange(0, old(out)@.len() as int) == old(out)@,
        holds_words(final(out)@, old(out)@.len() as int, s@),
{
    let ghost start = out@.len() as int;
    let ghost before = out@;
    let mut k: usize = 0;
    while k < s.len()
        invariant
            start == before.len(),
            start + 8 * s@.len() <= usize::MAX,
            k <= s@.len(),
            out@.len() == start + 8 * k,
            out@.subrange(0, start) == before,
            holds_words(out@, start, s@.subrange(0, k as int)),
        decreases s@.len() - k,
    {
        let ghost prev = out@;
        push_word(out, s[k]);
        proof {
            assert(out@.subrange(0, prev.len() as int) =~= prev);
            lemma_words_kept(prev, out@, start, s@.subrange(0, k as int));
            assert(out@.subrange(0, start) =~= before) by {
                assert(prev.subrange(0, start) == before);
            }
            assert(out@.subrange(start + 8 * k, start + 8 * k + 8) =~= word_bytes(s@[k as int]));
            assert forall|t: int| 0 <= t < k + 1 implies out@.subrange(start + 8 * t, start + 8 * t + 8)
                == word_bytes(#[trigger] s@.subrange(0, k + 1)[t]) by {
                if t < k {
                    assert(s@.subrange(0, k + 1)[t] == s@.subrange(0, k as int)[t]);
                }
            }
        }
        k += 1;
    }
    assert(s@.subrange(0, s@.len() as int) =~= s@);
}

fn push_flags(out: &mut Vec<u8>, s: &Vec<bool>)
    ensures
        final(out)@.len() == old(out)@.len() + s@.len(),
        final(out)@.subrange(0, old(out)@.len() as int) == old(out)@,
        holds_flags(final(out)@, old(out)@.len() as int, s@),
{
    let ghost before = out@;
    let mut k: usize = 0;
    while k < s.len()
        invariant
            k <= s@.len(),
            out@.len() == before.len() + k,
            out@.subrange(0, before.len() as int) == before,
            forall|t: int| 0 <= t < k ==> out@[before.len() + t] == flag_byte(#[trigger] s@[t]),
        decreases s@.len() - k,
    {
        let ghost prev = out@;
        out.push(if s[k] { 1u8 } else { 0u8 });
        proof {
            assert(out@.subrange(0, before.len() as int) =~= before) by {
                assert(prev.subrange(0, before.len() as int) == before);
            }
            assert forall|t: int| 0 <= t < k + 1 implies out@[before.len() + t] == flag_byte(
                #[trigger] s@[t],
            ) by {
                if t < k {
                    assert(out@[before.len() + t] == prev[before.len() + t]);
                }
            }
        }
        k += 1;
    }
}

fn push_kinds(out: &mut Vec<u8>, s: &Vec<ActivationKind>)
    ensures
        final(out)@.len() == old(out)@.len() + s@.len(),
        final(out)@.subrange(0, old(out)@.len() as int) == old(out)@,
        holds_kinds(final(out)@, old(out)@.len() as int, s@),
{
    let ghost before = out@;
    let mut k: usize = 0;
    while k < s.len()
        invariant
            k <= s@.len(),
            out@.len() == before.len() + k,
            out@.subrange(0, before.len() as int) == before,
            forall|t: int| 0 <= t < k ==> out@[before.len() + t] == kind_tag(#[trigger] s@[t]),
        decreases s@.len() - k,
    {
        let ghost prev = out@;
        let tag: u8 = match s[k] {
            ActivationKind::Sigmoid => 0,
            ActivationKind::LeakyRelu => 1,
            ActivationKind::Tanh => 2,
        };
        out.push(tag);
        proof {
            assert(out@.subrange(0, before.len() as int) =~= before) by {
                assert(prev.subrange(0, before.len() as int) == before);
            }
            assert forall|t: int| 0 <= t < k + 1 implies out@[before.len() + t] == kind_tag(
                #[trigger] s@[t],
            ) by {
                if t < k {
                    assert(out@[before.len() + t] == prev[before.len() + t]);
                }
            }
        }
        k += 1;
    }
}

/// `b` has the length, flags and kinds of a record.
pub open spec fn record_valid(b: Seq<u8>) -> bool {
    &&& b.len() == RECORD_LEN
    &&& flags_valid(b)
    &&& kinds_valid(b)
}

proof fn lemma_word_bytes_inverse(b: Seq<u8>)
    requires
        b.len() == 8,
    ensures
        word_bytes(word_from(b)) == b,
{
    let (b0, b1, b2, b3, b4, b5, b6, b7) = (b[0], b[1], b[2], b[3], b[4], b[5], b[6], b[7]);
    let u = b0 as u64 | (b1 as u64) << 8u64 | (b2 as u64) << 16u64 | (b3 as u64) << 24u64 | (
    b4 as u64) << 32u64 | (b5 as u64) << 40u64 | (b6 as u64) << 48u64 | (b7 as u64) << 56u64;
    assert(((u as i64) as u64) == u) by (bit_vector);
    assert((u & 0xff) as u8 == b0 && ((u >> 8u64) & 0xff) as u8 == b1 && ((u >> 16u64) & 0xff) as u8
        == b2 && ((u >> 24u64) & 0xff) as u8 == b3) by (bit_vector)
        requires
            u == b0 as u64 | (b1 as u64) << 8u64 | (b2 as u64) << 16u64 | (b3 as u64) << 24u64 | (
            b4 as u64) << 32u64 | (b5 as u64) << 40u64 | (b6 as u64) << 48u64 | (b7 as u64)
                << 56u64,
    ;
    assert(((u >> 32u64) & 0xff) as u8 == b4 && ((u >> 40u64) & 0xff) as u8 == b5 && ((u >> 48u64)
        & 0xff) as u8 == b6 && ((u >> 56u64) & 0xff) as u8 == b7) by (bit_vector)
        requires
            u == b0 as u64 | (b1 as u64) << 8u64 | (b2 as u64) << 16u64 | (b3 as u64) << 24u64 | (
            b4 as u64) << 32u64 | (b5 as u64) << 40u64 | (b6 as u64) << 48u64 | (b7 as u64)
                << 56u64,
    ;
    assert(word_bytes(word_from(b)) =~= b);
}

/// Appending to `b` keeps every field that it holds.
proof fn lemma_extension_keeps(b: Seq<u8>, c: Seq<u8>)
    requires
        b.len() <= c.len(),
        c.subrange(0, b.len() as int) == b,
    ensures
        forall|at: int, s: Seq<i64>| holds_words(b, at, s) ==> #[trigger] holds_words(c, at, s),
        forall|at: int, s: Seq<bool>| holds_flags(b, at, s) ==> #[trigger] holds_flags(c, at, s),
        forall|at: int, s: Seq<ActivationKind>|
            holds_kinds(b, at, s) ==> #[trigger] holds_kinds(c, at, s),
{
    assert forall|at: int, s: Seq<i64>| holds_words(b, at, s) implies #[trigger] holds_words(
        c,
        at,
        s,
    ) by {
        lemma_words_kept(b, c, at, s);
    }
    assert forall|at: int, s: Seq<bool>| holds_flags(b, at, s) implies #[trigger] holds_flags(
        c,
        at,
        s,
    ) by {
        assert forall|k: int| 0 <= k < s.len() implies c[at + k] == flag_byte(#[trigger] s[k]) by {
            assert(c.subrange(0, b.len() as int)[at + k] == b[at + k]);
        }
    }
    assert forall|at: int, s: Seq<ActivationKind>| holds_kinds(b, at, s) implies #[trigger] holds_kinds(
        c,
        at,
        s,
    ) by {
        assert forall|k: int| 0 <= k < s.len() implies c[at + k] == kind_tag(#[trigger] s[k]) by {
            assert(c.subrange(0, b.len() as int)[at + k] == b[at + k]);
        }
    }
}

fn read_words(b: &Vec<u8>, at: usize, n: usize) -> (r: Vec<i64>)
    requires
        at + 8 * n <= b@.len(),
    ensures
        r@.len() == n,
        holds_words(b@, at as int, r@),
{
    let mut r: Vec<i64> = Vec::with_capacity(n);
    let len = b.len();
    let mut k: usize = 0;
    while k < n
        invariant
            len == b@.len(),
            at + 8 * n <= b@.len(),
            k <= n,
            r@.len() == k,
            holds_words(b@, at as int, r@),
        decreases n - k,
    {
        let p = at + 8 * k;
        let u = b[p] as u64 | (b[p + 1] as u64) << 8u64 | (b[p + 2] as u64) << 16u64 | (b[p
            + 3] as u64) << 24u64 | (b[p + 4] as u64) << 32u64 | (b[p + 5] as u64) << 40u64 | (b[p
            + 6] as u64) << 48u64 | (b[p + 7] as u64) << 56u64;
        let ghost piece = b@.subrange(p as int, p + 8);
        proof {
            assert(#[verifier::truncate] (u as i64) == word_from(piece));
            lemma_word_bytes_inverse(piece);
        }
        let ghost prev = r@;
        r.push(#[verifier::truncate] (u as i64));
        proof {
            assert forall|t: int| 0 <= t < r@.len() implies b@.subrange(
                at + 8 * t,
                at + 8 * t + 8,
            ) == word_bytes(#[trigger] r@[t]) by {
                if t < k {
                    assert(r@[t] == prev[t]);
                }
            }
        }
        k += 1;
    }
    r
}

fn read_flags(b: &Vec<u8>, at: usize, n: usize) -> (r: Option<Vec<bool>>)
    requires
        at + n <= b@.len(),
    ensures
        r is Some <==> forall|k: int| at <= k < at + n ==> #[trigger] b@[k] <= 1,
        r is Some ==> r->Some_0@.len() == n && holds_flags(b@, at as int, r->Some_0@),
{
    let mut r: Vec<bool> = Vec::with_capacity(n);
    let len = b.len();
    let mut k: usize = 0;
    while k < n
        invariant
            len == b@.len(),
            at + n <= b@.len(),
            k <= n,
            r@.len() == k,
            forall|t: int| at <= t < at + k ==> #[trigger] b@[t] <= 1,
            forall|t: int| 0 <= t < k ==> b@[at + t] == flag_byte(#[trigger] r@[t]),
        decreases n - k,
    {
        let byte = b[at + k];
        if byte > 1 {
            return None;
        }
        r.push(byte == 1);
        k += 1;
    }
    Some(r)
}

fn read_kinds(b: &Vec<u8>, at: usize, n: usize) -> (r: Option<Vec<ActivationKind>>)
    requires
        at + n <= b@.len(),
    ensures
        r is Some <==> forall|k: int| at <= k < at + n ==> #[trigger] b@[k] <= 2,
        r is Some ==> r->Some_0@.len() == n && holds_kinds(b@, at as int, r->Some_0@),
{
    let mut r: Vec<ActivationKind> = Vec::with_capacity(n);
    let len = b.len();
    let mut k: usize = 0;
    while k < n
        invariant
            len == b@.len(),
            at + n <= b@.len(),
            k <= n,
            r@.len() == k,
            forall|t: int| at <= t < at + k ==> #[trigger] b@[t] <= 2,
            forall|t: int| 0 <= t < k ==> b@[at + t] == kind_tag(#[trigger] r@[t]),
        decreases n - k,
    {
        let kind = match b[at + k] {
            0 => ActivationKind::Sigmoid,
            1 => ActivationKind::LeakyRelu,
            2 => ActivationKind::Tanh,
            _ => {
                return None;
            },
        };
        r.push(kind);
        k += 1;
    }
    Some(r)
}

impl NeuralNetwork {
    /// The record of this genome: every field, in the fixed order, in
    /// exactly `RECORD_LEN` bytes.
    pub fn to_bytes(&self) -> (r: Vec<u8>)
        requires
            self.wf(),
        ensures
            is_record_of(r@, *self),
    {
        let mut out: Vec<u8> = Vec::with_capacity(RECORD_LEN);
        let ghost b0 = out@;
        push_words(&mut out, &self.weights_input_hidden);
        let ghost b1 = out@;
        push_words(&mut out, &self.weights_hidden_output);
        proof { lemma_extension_keeps(b1, out@); }
        let ghost b2 = out@;
        push_flags(&mut out, &self.connections_input_hidden);
        proof { lemma_extension_keeps(b2, out@); }
        let ghost b3 = out@;
        push_flags(&mut out, &self.connections_hidden_output);
        proof { lemma_extension_keeps(b3, out@); }
        let ghost b4 = out@;
        push_words(&mut out, &self.hidden_biases);
        proof { lemma_extension_keeps(b4, out@); }
        let ghost b5 = out@;
        push_words(&mut out, &self.final_biases);
        proof { lemma_extension_keeps(b5, out@); }
        let ghost b6 = out@;
        push_kinds(&mut out, &self.hidden_activations);
        proof { lemma_extension_keeps(b6, out@); }
        let ghost b7 = out@;
        push_kinds(&mut out, &self.final_activations);
        proof { lemma_extension_keeps(b7, out@); }
        out
    }

    /// The genome whose record `bytes` is. Fails with `WrongLength` unless
    /// there are exactly `RECORD_LEN` bytes, then with `BadFlag` if a flag is
    /// neither 0 nor 1, then with `BadKind` if a kind is not a tag.
    pub fn from_bytes(bytes: &Vec<u8>) -> (r: Result<Self, FormatError>)
        ensures
            bytes@.len() != RECORD_LEN ==> r == Err::<Self, FormatError>(FormatError::WrongLength),
            bytes@.len() == RECORD_LEN && !flags_valid(bytes@) ==> r == Err::<Self, FormatError>(
                FormatError::BadFlag,
            ),
            bytes@.len() == RECORD_LEN && flags_valid(bytes@) && !kinds_valid(bytes@) ==> r
                == Err::<Self, FormatError>(FormatError::BadKind),
            record_valid(bytes@) ==> r is Ok && is_record_of(bytes@, r->Ok_0),
    {
        if bytes.len() != RECORD_LEN {
            return Err(FormatError::WrongLength);
        }
        let flags_input_hidden = read_flags(bytes, AT_CONNECTIONS_INPUT_HIDDEN, INPUT_EDGES);
        let flags_hidden_output = read_flags(bytes, AT_CONNECTIONS_HIDDEN_OUTPUT, OUTPUT_EDGES);
        let (connections_input_hidden, connections_hidden_output) = match (
            flags_input_hidden,
            flags_hidden_output,
        ) {
            (Some(a), Some(b)) => (a, b),
            _ => {
                proof {
                    if flags_valid(bytes@) {
                        assert forall|k: int|
                            AT_CONNECTIONS_INPUT_HIDDEN <= k < AT_CONNECTIONS_INPUT_HIDDEN
                                + INPUT_EDGES implies #[trigger] bytes@[k] <= 1 by {}
                        assert forall|k: int|
                            AT_CONNECTIONS_HIDDEN_OUTPUT <= k < AT_CONNECTIONS_HIDDEN_OUTPUT
                                + OUTPUT_EDGES implies #[trigger] bytes@[k] <= 1 by {}
                    }
                }
                return Err(FormatError::BadFlag);
            },
        };
        let kinds_hidden = read_kinds(bytes, AT_HIDDEN_ACTIVATIONS, HIDDEN_NODES);
        let kinds_final = read_kinds(bytes, AT_FINAL_ACTIVATIONS, OUTPUT_NODES);
        let (hidden_activations, final_activations) = match (kinds_hidden, kinds_final) {
            (Some(a), Some(b)) => (a, b),
            _ => {
                proof {
                    if kinds_valid(bytes@) {
                        assert forall|k: int|
                            AT_HIDDEN_ACTIVATIONS <= k < AT_HIDDEN_ACTIVATIONS
                                + HIDDEN_NODES implies #[trigger] bytes@[k] <= 2 by {}
                        assert forall|k: int|
                            AT_FINAL_ACTIVATIONS <= k < AT_FINAL_ACTIVATIONS
                                + OUTPUT_NODES implies #[trigger] bytes@[k] <= 2 by {}
                    }
                    assert(flags_valid(bytes@));
                }
                return Err(FormatError::BadKind);
            },
        };
        let g = NeuralNetwork {
            weights_input_hidden: read_words(bytes, 0, INPUT_EDGES),
            weights_hidden_output: read_words(bytes, AT_WEIGHTS_HIDDEN_OUTPUT, OUTPUT_EDGES),
            connections_input_hidden,
            connections_hidden_output,
            hidden_biases: read_words(bytes, AT_HIDDEN_BIASES, HIDDEN_NODES),
            final_biases: read_words(bytes, AT_FINAL_BIASES, OUTPUT_NODES),
            hidden_activations,
            final_activations,
        };
        proof {
            assert(flags_valid(bytes@));
            assert(kinds_valid(bytes@));
        }
        Ok(g)
    }
}

/// Saving a genome and loading the bytes gives it back, field by field: its
/// record is always `RECORD_LEN` bytes long, passes every check of loading,
/// and is the record of no genome that differs from it in any field.
pub proof fn lemma_record_round_trip(g: NeuralNetwork, bytes: Seq<u8>, h: NeuralNetwork)
    requires
        is_record_of(bytes, g),
    ensures
        bytes.len() == RECORD_LEN,
        record_valid(bytes),
        is_record_of(bytes, h) ==> same_fields(g, h),
{
    assert forall|i: int| AT_CONNECTIONS_INPUT_HIDDEN <= i < AT_HIDDEN_BIASES implies #[trigger] bytes[i]
        <= 1 by {
        if i < AT_CONNECTIONS_HIDDEN_OUTPUT {
            let k = i - AT_CONNECTIONS_INPUT_HIDDEN;
            assert(bytes[AT_CONNECTIONS_INPUT_HIDDEN + k] == flag_byte(g.connections_input_hidden@[k]));
        } else {
            let k = i - AT_CONNECTIONS_HIDDEN_OUTPUT;
            assert(bytes[AT_CONNECTIONS_HIDDEN_OUTPUT + k] == flag_byte(g.connections_hidden_output@[k]));
        }
    }
    assert forall|i: int| AT_HIDDEN_ACTIVATIONS <= i < RECORD_LEN implies #[trigger] bytes[i] <= 2 by {
        if i < AT_FINAL_ACTIVATIONS {
            let k = i - AT_HIDDEN_ACTIVATIONS;
            assert(bytes[AT_HIDDEN_ACTIVATIONS + k] == kind_tag(g.hidden_activations@[k]));
        } else {
            let k = i - AT_FINAL_ACTIVATIONS;
            assert(bytes[AT_FINAL_ACTIVATIONS + k] == kind_tag(g.final_activations@[k]));
        }
    }
    if is_record_of(bytes, h) {
        lemma_same_words(bytes, 0, g.weights_input_hidden@, h.weights_input_hidden@);
        lemma_same_words(bytes, AT_WEIGHTS_HIDDEN_OUTPUT as int, g.weights_hidden_output@, h.weights_hidden_output@);
        lemma_same_words(bytes, AT_HIDDEN_BIASES as int, g.hidden_biases@, h.hidden_biases@);
        lemma_same_words(bytes, AT_FINAL_BIASES as int, g.final_biases@, h.final_biases@);
        assert(g.connections_input_hidden@ =~= h.connections_input_hidden@) by {
            assert forall|k: int| 0 <= k < INPUT_EDGES implies #[trigger] g.connections_input_hidden@[k]
                == h.connections_input_hidden@[k] by {
                assert(flag_byte(g.connections_input_hidden@[k]) == flag_byte(h.connections_input_hidden@[k]));
            }
        }
        assert(g.connections_hidden_output@ =~= h.connections_hidden_output@) by {
            assert forall|k: int| 0 <= k < OUTPUT_EDGES implies #[trigger] g.connections_hidden_output@[k]
                == h.connections_hidden_output@[k] by {
                assert(flag_byte(g.connections_hidden_output@[k]) == flag_byte(h.connections_hidden_output@[k]));
            }
        }
        assert(g.hidden_activations@ =~= h.hidden_activations@) by {
            assert forall|k: int| 0 <= k < HIDDEN_NODES implies #[trigger] g.hidden_activations@[k]
                == h.hidden_activations@[k] by {
                assert(kind_tag(g.hidden_activations@[k]) == kind_tag(h.hidden_activations@[k]));
            }
        }
        assert(g.final_activations@ =~= h.final_activations@) by {
            assert forall|k: int| 0 <= k < OUTPUT_NODES implies #[trigger] g.final_activations@[k]
                == h.final_activations@[k] by {
                assert(kind_tag(g.final_activations@[k]) == kind_tag(h.final_activations@[k]));
            }
        }
    }
}

/// Two runs of words held at the same place are equal.
proof fn lemma_same_words(b: Seq<u8>, at: int, s: Seq<i64>, t: Seq<i64>)
    requires
        s.len() == t.len(),
        holds_words(b, at, s),
        holds_words(b, at, t),
    ensures
        s == t,
{
    assert forall|k: int| 0 <= k < s.len() implies #[trigger] s[k] == t[k] by {
        assert(word_bytes(s[k]) == word_bytes(t[k]));
        lemma_word_round_trip(s[k]);
        lemma_word_round_trip(t[k]);
    }
    assert(s =~= t);
}

} // verus!
