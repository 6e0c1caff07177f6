//! Draws from the thread-local random generator of `rand`. Nothing can be
//! promised of a random value beyond its range, so each contract states only
//! what holds of every outcome.
use rand::seq::SliceRandom;
use rand::Rng;
use vstd::prelude::*;

verus! {

broadcast use vstd::seq_lib::group_to_multiset_ensures;

/// Relies on `rand::Rng::gen_range` over `0..n`: a value in that range. It
/// panics on an empty range, which `requires` leaves out.
#[verifier::external_body]
pub(crate) fn random_below(n: u32) -> (r: u32)
    requires
        n > 0,
    ensures
        r < n,
{
    rand::thread_rng().gen_range(0..n)
}

/// Relies on `rand::Rng::gen_range` over `low..=high`: a value in that
/// closed range. It panics on an empty range, which `requires` leaves out.
#[verifier::external_body]
pub(crate) fn random_between(low: i64, high: i64) -> (r: i64)
    requires
        low <= high,
    ensures
        low <= r <= high,
{
    rand::thread_rng().gen_range(low..=high)
}

/// Relies on `rand::Rng::gen::<bool>`: a fair coin, of which nothing more can
/// be promised.
#[verifier::external_body]
pub(crate) fn coin() -> (r: bool) {
    rand::thread_rng().gen::<bool>()
}

/// Relies on `rand::seq::SliceRandom::shuffle`: the same elements, in an
/// order of its choosing.
#[verifier::external_body]
pub(crate) fn shuffle(v: &mut Vec<usize>)
    ensures
        final(v)@.to_multiset() == old(v)@.to_multiset(),
{
    v.shuffle(&mut rand::thread_rng())
}

/// Relies on `rand::seq::index::sample` with an amount of two: two distinct
/// indices below `length`. It panics when `length` is below the amount, which
/// `requires` leaves out.
#[verifier::external_body]
pub(crate) fn sample_two(length: usize) -> (r: (usize, usize))
    requires
        length >= 2,
    ensures
        r.0 < length,
        r.1 < length,
        r.0 != r.1,
{
    let picked = rand::seq::index::sample(&mut rand::thread_rng(), length, 2);
    (picked.index(0), picked.index(1))
}

/// The positions `0..n` in a random order: each below `n`, none twice.
pub(crate) fn shuffled_positions(n: usize) -> (r: Vec<usize>)
    ensures
        r@.len() == n,
        r@.no_duplicates(),
        forall|i: int| 0 <= i < r@.len() ==> #[trigger] r@[i] < n,
{
    let mut order: Vec<usize> = Vec::with_capacity(n);
    let mut i: usize = 0;
    while i < n
        invariant
            i <= n,
            order@ == Seq::new(i as nat, |k: int| k as usize),
        decreases n - i,
    {
        order.push(i);
        i += 1;
        assert(order@ =~= Seq::new(i as nat, |k: int| k as usize));
    }
    shuffle(&mut order);
    proof {
        lemma_shuffled_positions(order@, n as nat);
    }
    order
}

/// A reordering of the positions `0..n`: each below `n` and none twice.
proof fn lemma_shuffled_positions(s: Seq<usize>, n: nat)
    requires
        s.to_multiset() == Seq::new(n, |k: int| k as usize).to_multiset(),
        n <= usize::MAX + 1,
    ensures
        s.len() == n,
        s.no_duplicates(),
        forall|i: int| 0 <= i < s.len() ==> #[trigger] s[i] < n,
{
    let t = Seq::new(n, |k: int| k as usize);
    assert(s.to_multiset().len() == s.len());
    assert(t.to_multiset().len() == t.len());
    assert(t.no_duplicates());
    t.lemma_multiset_has_no_duplicates();
    s.lemma_multiset_has_no_duplicates_conv();
    assert forall|i: int| 0 <= i < s.len() implies #[trigger] s[i] < n by {
        assert(s.contains(s[i]));
        assert(t.to_multiset().count(s[i]) > 0);
        assert(t.contains(s[i]));
    }
}

} // verus!
