use vstd::prelude::*;
use vstd::multiset::Multiset;
use vstd::seq_lib::lemma_multiset_commutative;
use vstd::seq_lib::group_to_multiset_ensures;
use vstd::arithmetic::div_mod::lemma_fundamental_div_mod_converse;
use crate::scalar::SCALAR_ONE;
use rand::seq::SliceRandom;

verus! {

/// One training example: an input vector and the expected output vector,
/// both lists of encoded scalars.
pub type TrainingPair = (Vec<u64>, Vec<u64>);

/// Number of batches a training set of `n` pairs yields at batch size
/// `batch_size`: full batches, plus one for a partial remainder.
pub open spec fn spec_batch_count(n: int, batch_size: int) -> int {
    (n + batch_size - 1) / batch_size
}

/// Length of batch `i`: `batch_size` for every batch but possibly the last,
/// which takes whatever remains.
pub open spec fn spec_batch_len(n: int, batch_size: int, i: int) -> int {
    if (i + 1) * batch_size <= n {
        batch_size
    } else {
        n - i * batch_size
    }
}

/// The pairs a list of batches carries, one after the other.
pub open spec fn spec_batches_flat(batches: Seq<Vec<TrainingPair>>) -> Seq<TrainingPair> {
    batches.map_values(|batch: Vec<TrainingPair>| batch@).flatten()
}

/// Relies on rand's `SliceRandom::shuffle` (a Fisher-Yates pass driven by
/// the thread-local generator): it reorders the elements of the slice in
/// place and neither adds, drops nor alters any.
#[verifier::external_body]
fn shuffle_pairs(pairs: &mut Vec<TrainingPair>)
    ensures
        final(pairs)@.to_multiset() == old(pairs)@.to_multiset(),
        final(pairs)@.len() == old(pairs)@.len(),
{
    pairs.shuffle(&mut rand::thread_rng());
}

/// Shuffles a training set and partitions it into consecutive batches of
/// `batch_size` pairs; a final remainder smaller than `batch_size` forms a
/// last, shorter batch of its own.  Every pair of the training set lands in
/// exactly one batch.
pub fn shuffled_batches(pairs: Vec<TrainingPair>, batch_size: usize) -> (batches: Vec<
    Vec<TrainingPair>,
>)
    requires
        batch_size > 0,
    ensures
        batches.len() == spec_batch_count(pairs.len() as int, batch_size as int),
        forall|i: int|
            0 <= i < batches.len() ==> (#[trigger] batches[i]).len() == spec_batch_len(
                pairs.len() as int,
                batch_size as int,
                i,
            ),
        spec_batches_flat(batches@).to_multiset() == pairs@.to_multiset(),
{
    broadcast use group_to_multiset_ensures;
    broadcast use Seq::lemma_flatten_push;
    broadcast use vstd::multiset::group_multiset_axioms;

    let ghost total = pairs@.to_multiset();
    let ghost n = pairs.len() as int;
    let ghost bs = batch_size as int;
    let mut remaining = pairs;
    shuffle_pairs(&mut remaining);
    let mut batches: Vec<Vec<TrainingPair>> = Vec::new();
    proof {
        broadcast use vstd::multiset::group_multiset_axioms;

        assert(spec_batches_flat(batches@) =~= Seq::<TrainingPair>::empty());
        assert(spec_batches_flat(batches@).to_multiset().add(remaining@.to_multiset())
            =~= remaining@.to_multiset());
        if n == 0 {
            lemma_fundamental_div_mod_converse(n + bs - 1, bs, 0, bs - 1);
        }
        assert(remaining@.len() == n);
        assert(batches.len() == 0);
        assert(batches.len() * bs == 0) by (nonlinear_arith)
            requires
                batches.len() == 0,
        ;
    }
    while remaining.len() > 0
        invariant
            bs == batch_size as int,
            batch_size > 0,
            spec_batches_flat(batches@).to_multiset().add(remaining@.to_multiset()) == total,
            remaining.len() > 0 ==> remaining.len() == n - batches.len() * bs,
            remaining.len() == 0 ==> batches.len() == spec_batch_count(n, bs),
            forall|i: int|
                0 <= i < batches.len() ==> (#[trigger] batches[i]).len() == spec_batch_len(
                    n,
                    bs,
                    i,
                ),
        decreases remaining.len(),
    {
        let ghost b = batches.len() as int;
        let rest = remaining.len();
        let take = if rest >= batch_size {
            batch_size
        } else {
            rest
        };
        let mut batch: Vec<TrainingPair> = Vec::new();
        let mut t: usize = 0;
        proof {
            broadcast use vstd::multiset::group_multiset_axioms;

            batch@.to_multiset_ensures();
            vstd::multiset::lemma_multiset_empty_len(batch@.to_multiset());
            assert(batch@.to_multiset() =~= Multiset::<TrainingPair>::empty());
            assert(spec_batches_flat(batches@).to_multiset().add(batch@.to_multiset()).add(
                remaining@.to_multiset(),
            ) =~= total);
        }
        while t < take
            invariant
                remaining.len() + t == rest,
                take <= rest,
                batch.len() == t,
                t <= take,
                spec_batches_flat(batches@).to_multiset().add(batch@.to_multiset()).add(
                    remaining@.to_multiset(),
                ) == total,
        decreases take - t,
        {
            let ghost old_remaining = remaining@;
            let popped = remaining.pop().unwrap();
            proof {
                broadcast use vstd::multiset::group_multiset_axioms;

                old_remaining.to_multiset_ensures();
                remaining@.to_multiset_ensures();
                batch@.to_multiset_ensures();
                assert(old_remaining =~= remaining@.push(popped));
                assert(remaining@.push(popped).to_multiset() =~= remaining@.to_multiset().insert(
                    popped,
                ));
                assert(old_remaining.to_multiset() =~= remaining@.to_multiset().insert(popped));
                assert(spec_batches_flat(batches@).to_multiset().add(
                    batch@.push(popped).to_multiset(),
                ).add(remaining@.to_multiset()) =~= total);
            }
            batch.push(popped);
            t = t + 1;
        }
        proof {
            broadcast use vstd::multiset::group_multiset_axioms;

            let map_old = batches@.map_values(|x: Vec<TrainingPair>| x@);
            let map_new = batches@.push(batch).map_values(|x: Vec<TrainingPair>| x@);
            assert(map_new =~= map_old.push(batch@));
            map_old.lemma_flatten_push(batch@);
            assert(map_old.push(batch@).flatten() == map_old.flatten() + batch@);
            assert(spec_batches_flat(batches@.push(batch)) == map_old.flatten() + batch@);
            lemma_multiset_commutative(map_old.flatten(), batch@);
            assert(spec_batches_flat(batches@.push(batch)).to_multiset().add(
                remaining@.to_multiset(),
            ) =~= total);
            // The batch count: a batch that empties the training set is the
            // last one the count formula predicts.
            assert((b + 1) * bs == b * bs + bs) by (nonlinear_arith);
            if take == batch_size {
                if remaining@.len() == 0 {
                    lemma_fundamental_div_mod_converse(n + bs - 1, bs, b + 1, bs - 1);
                }
            } else {
                lemma_fundamental_div_mod_converse(n + bs - 1, bs, b + 1, take - 1);
            }
        }
        batches.push(batch);
    }
    proof {
        broadcast use vstd::multiset::group_multiset_axioms;

        assert(spec_batches_flat(batches@).to_multiset() =~= total);
    }
    batches
}

/// A one-hot expected-output vector: the encoding of one at the labelled
/// index, the encoding of zero everywhere else.
pub fn one_hot(label: u8, size: usize) -> (result: Vec<u64>)
    requires
        (label as int) < size,
    ensures
        result.len() == size,
        result[label as int] == SCALAR_ONE,
        forall|i: int| 0 <= i < size && i != label as int ==> result[i] == 0u64,
{
    let mut result: Vec<u64> = Vec::new();
    let mut i: usize = 0;
    while i < size
        invariant
            (label as int) < size,
            i <= size,
            result.len() == i,
            forall|k: int| 0 <= k < i && k != label as int ==> result[k] == 0u64,
            (label as int) < i ==> result[label as int] == SCALAR_ONE,
        decreases size - i,
    {
        if i == label as usize {
            result.push(SCALAR_ONE);
        } else {
            result.push(0u64);
        }
        i = i + 1;
    }
    result
}

} // verus!
