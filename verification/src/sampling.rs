//! Random choice of the samples of a mini-batch.

use vstd::prelude::*;
use vstd::seq_lib::*;
use rand::seq::SliceRandom;

verus! {

/// The indices below `n`, in ascending order.
pub open spec fn ascending(n: nat) -> Seq<usize> {
    Seq::new(n, |i: int| i as usize)
}

/// Whether `order` holds each index below `n` exactly once.
pub open spec fn is_permutation(order: Seq<usize>, n: nat) -> bool {
    order.to_multiset() == ascending(n).to_multiset()
}

/// Whether `batch` is the beginning of an order that holds each index below
/// `n` exactly once.
pub open spec fn is_selection(batch: Seq<usize>, n: nat) -> bool {
    exists|order: Seq<usize>|
        is_permutation(order, n) && batch.len() <= order.len() && batch == #[trigger] order.take(
            batch.len() as int,
        )
}

/// An order that holds each index below `n` exactly once is `n` long,
/// repeats nothing, holds indices below `n` only and holds every one of
/// them.
pub proof fn lemma_permutation(order: Seq<usize>, n: nat)
    requires
        n <= usize::MAX,
        is_permutation(order, n),
    ensures
        order.len() == n,
        order.no_duplicates(),
        forall|k: int| 0 <= k < order.len() ==> #[trigger] order[k] < n,
        forall|index: usize| index < n ==> #[trigger] order.contains(index),
{
    let base = ascending(n);
    assert forall|index: usize| index < n implies #[trigger] order.contains(index) by {
        assert(base[index as int] == index);
        assert(base.contains(index));
        to_multiset_contains(base, index);
        to_multiset_contains(order, index);
    }
    to_multiset_len(order);
    to_multiset_len(base);
    assert(base.no_duplicates());
    base.lemma_multiset_has_no_duplicates();
    order.lemma_multiset_has_no_duplicates_conv();
    assert forall|k: int| 0 <= k < order.len() implies #[trigger] order[k] < n by {
        let x = order[k];
        assert(order.contains(x));
        to_multiset_contains(order, x);
        to_multiset_contains(base, x);
        assert(base.contains(x));
        let at = choose|at: int| 0 <= at < base.len() && base[at] == x;
        assert(base[at] == at);
    }
}

/// A selection from the indices below `n` is at most `n` long, repeats
/// nothing and holds indices below `n` only. One that is `n` long holds each
/// index below `n` exactly once: a batch as large as the sample set is the
/// sample set in another order, so shuffling changes the order in which the
/// samples are summed and not which samples are summed.
pub proof fn lemma_selection(batch: Seq<usize>, n: nat)
    requires
        n <= usize::MAX,
        is_selection(batch, n),
    ensures
        batch.len() <= n,
        batch.no_duplicates(),
        forall|k: int| 0 <= k < batch.len() ==> #[trigger] batch[k] < n,
        batch.len() == n ==> is_permutation(batch, n),
{
    let order = choose|order: Seq<usize>|
        is_permutation(order, n) && batch.len() <= order.len() && batch == #[trigger] order.take(
            batch.len() as int,
        );
    lemma_permutation(order, n);
    assert forall|k: int| 0 <= k < batch.len() implies #[trigger] batch[k] < n by {
        assert(batch[k] == order[k]);
    }
    assert forall|i: int, j: int| 0 <= i < batch.len() && 0 <= j < batch.len() && i != j implies batch[i]
        != batch[j] by {
        assert(batch[i] == order[i] && batch[j] == order[j]);
    }
    if batch.len() == n {
        assert(batch =~= order);
    }
}

/// Shuffles `order` in place with `rand::seq::SliceRandom::shuffle`, driven
/// by the thread's generator `rand::rng()`.
///
/// The shuffle only ever swaps two entries, so what comes out holds the
/// entries that went in, each as often as before. Which order comes out is
/// left open.
#[verifier::external_body]
fn shuffle(order: &mut Vec<usize>)
    ensures
        final(order)@.to_multiset() == old(order)@.to_multiset(),
{
    order.shuffle(&mut rand::rng());
}

/// The indices below `n`, in ascending order.
pub fn ascending_order(n: usize) -> (r: Vec<usize>)
    ensures
        r@ == ascending(n as nat),
{
    let mut r: Vec<usize> = Vec::with_capacity(n);
    let mut i: usize = 0;
    while i < n
        invariant
            i <= n,
            r@ == ascending(i as nat),
        decreases n - i,
    {
        r.push(i);
        i += 1;
        assert(r@ =~= ascending(i as nat));
    }
    r
}

/// Draws a batch of `amount` of `n` samples: shuffles the indices below `n`
/// and keeps the first `amount`.
pub fn draw_batch(n: usize, amount: usize) -> (r: Vec<usize>)
    requires
        amount <= n,
    ensures
        r@.len() == amount,
        is_selection(r@, n as nat),
{
    let mut order: Vec<usize> = ascending_order(n);
    shuffle(&mut order);
    let ghost shuffled = order@;
    proof {
        lemma_permutation(shuffled, n as nat);
    }
    order.truncate(amount);
    proof {
        assert(order@ =~= shuffled.take(order@.len() as int));
        assert(is_permutation(shuffled, n as nat));
    }
    order
}

} // verus!
