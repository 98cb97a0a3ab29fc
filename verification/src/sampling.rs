//! Sampling without replacement: an entry is drawn from a pool by its index and
//! leaves the pool, so no entry can be drawn twice.

use rand::Rng;
use vstd::multiset::Multiset;
use vstd::prelude::*;

verus! {

/// Whether each pick of `picks` is an index into what is left of a pool of
/// `pool_len` entries once the picks before it were taken out.
pub open spec fn picks_fit(pool_len: int, picks: Seq<int>) -> bool {
    forall|k: int| 0 <= k < picks.len() ==> 0 <= #[trigger] picks[k] < pool_len - k
}

/// What is left of `pool` after the entries named by `picks` were taken out,
/// one after the other.
pub open spec fn leftover<T>(pool: Seq<T>, picks: Seq<int>) -> Seq<T>
    decreases picks.len(),
{
    if picks.len() == 0 {
        pool
    } else {
        leftover(pool, picks.drop_last()).remove(picks.last())
    }
}

/// The entries that `picks` takes out of `pool`, in the order in which they
/// are taken.
pub open spec fn sampled<T>(pool: Seq<T>, picks: Seq<int>) -> Seq<T>
    decreases picks.len(),
{
    if picks.len() == 0 {
        Seq::empty()
    } else {
        sampled(pool, picks.drop_last()).push(
            leftover(pool, picks.drop_last())[picks.last()],
        )
    }
}

/// The picks of a vector of indices, as integers.
pub open spec fn picks_of(picks: Seq<usize>) -> Seq<int> {
    picks.map_values(|p: usize| p as int)
}

/// Every pick shortens the pool by one entry and lengthens the sample by one.
pub proof fn lemma_sample_lengths<T>(pool: Seq<T>, picks: Seq<int>)
    requires
        picks_fit(pool.len() as int, picks),
    ensures
        leftover(pool, picks).len() == pool.len() - picks.len(),
        sampled(pool, picks).len() == picks.len(),
    decreases picks.len(),
{
    if picks.len() > 0 {
        let before = picks.drop_last();
        assert forall|k: int| 0 <= k < before.len() implies 0 <= #[trigger] before[k]
            < pool.len() - k by {
            assert(before[k] == picks[k]);
        }
        lemma_sample_lengths(pool, before);
        assert(0 <= picks[picks.len() - 1] < pool.len() - (picks.len() - 1));
    }
}

/// Nothing is drawn twice: the sample and what is left over make up the pool.
pub proof fn sample_takes_nothing_twice<T>(pool: Seq<T>, picks: Seq<int>)
    requires
        picks_fit(pool.len() as int, picks),
    ensures
        sampled(pool, picks).to_multiset().add(leftover(pool, picks).to_multiset())
            =~= pool.to_multiset(),
    decreases picks.len(),
{
    broadcast use vstd::seq_lib::group_to_multiset_ensures;

    if picks.len() == 0 {
        assert(sampled(pool, picks).to_multiset() =~= Multiset::<T>::empty());
    } else {
        let before = picks.drop_last();
        assert forall|k: int| 0 <= k < before.len() implies 0 <= #[trigger] before[k]
            < pool.len() - k by {
            assert(before[k] == picks[k]);
        }
        lemma_sample_lengths(pool, before);
        sample_takes_nothing_twice(pool, before);
        let rest = leftover(pool, before);
        let p = picks.last();
        assert(0 <= picks[picks.len() - 1] < pool.len() - (picks.len() - 1));
        assert(rest.remove(p).to_multiset() =~= rest.to_multiset().remove(rest[p]));
        assert(rest.to_multiset().count(rest[p]) > 0) by {
            assert(rest.contains(rest[p]));
        }
        assert(sampled(pool, before).push(rest[p]).to_multiset() =~= sampled(
            pool,
            before,
        ).to_multiset().insert(rest[p]));
    }
}

/// Sampling and then mapping every entry gives what sampling the mapped pool
/// gives, and so for what is left over.
pub proof fn lemma_sample_of_mapped<T, U>(pool: Seq<T>, picks: Seq<int>, f: spec_fn(T) -> U)
    requires
        picks_fit(pool.len() as int, picks),
    ensures
        sampled(pool, picks).map_values(f) == sampled(pool.map_values(f), picks),
        leftover(pool, picks).map_values(f) == leftover(pool.map_values(f), picks),
    decreases picks.len(),
{
    if picks.len() == 0 {
        assert(sampled(pool, picks).map_values(f) =~= sampled(pool.map_values(f), picks));
    } else {
        let before = picks.drop_last();
        assert forall|k: int| 0 <= k < before.len() implies 0 <= #[trigger] before[k]
            < pool.len() - k by {
            assert(before[k] == picks[k]);
        }
        lemma_sample_of_mapped(pool, before, f);
        lemma_sample_lengths(pool, before);
        assert(0 <= picks[picks.len() - 1] < pool.len() - (picks.len() - 1));
        let rest = leftover(pool, before);
        let p = picks.last();
        assert(rest.remove(p).map_values(f) =~= rest.map_values(f).remove(p));
        assert(sampled(pool, before).push(rest[p]).map_values(f) =~= sampled(
            pool,
            before,
        ).map_values(f).push(f(rest[p])));
    }
}

/// Whether the picks can be made from a pool of `pool_len` entries.
pub fn picks_are_valid(pool_len: usize, picks: &Vec<usize>) -> (ok: bool)
    ensures
        ok == picks_fit(pool_len as int, picks_of(picks@)),
{
    let mut k: usize = 0;
    while k < picks.len()
        invariant
            k <= picks.len(),
            forall|j: int| 0 <= j < k ==> 0 <= #[trigger] picks_of(picks@)[j] < pool_len - j,
        decreases picks.len() - k,
    {
        if k >= pool_len || picks[k] >= pool_len - k {
            assert(!(picks_of(picks@)[k as int] < pool_len - k));
            return false;
        }
        k += 1;
    }
    true
}

/// Takes the entry at `pick` out of the pool.
pub fn draw_and_remove<T>(pool: &mut Vec<T>, pick: usize) -> (entry: T)
    requires
        pick < old(pool).len(),
    ensures
        entry == old(pool)@[pick as int],
        final(pool)@ == old(pool)@.remove(pick as int),
{
    pool.remove(pick)
}

/// Takes the entries named by `picks` out of the pool, one after the other.
/// Where a pick names no entry of what is left, nothing is taken.
pub fn sample<T>(pool: &mut Vec<T>, picks: &Vec<usize>) -> (out: Option<Vec<T>>)
    ensures
        match out {
            Some(taken) => {
                &&& picks_fit(old(pool)@.len() as int, picks_of(picks@))
                &&& taken@ == sampled(old(pool)@, picks_of(picks@))
                &&& final(pool)@ == leftover(old(pool)@, picks_of(picks@))
            },
            None => !picks_fit(old(pool)@.len() as int, picks_of(picks@)) && final(pool)@ == old(
                pool,
            )@,
        },
{
    if !picks_are_valid(pool.len(), picks) {
        return None;
    }
    let ghost all = picks_of(picks@);
    let mut out: Vec<T> = Vec::new();
    let mut k: usize = 0;
    while k < picks.len()
        invariant
            k <= picks.len(),
            all == picks_of(picks@),
            picks_fit(old(pool)@.len() as int, all),
            out@ == sampled(old(pool)@, all.take(k as int)),
            pool@ == leftover(old(pool)@, all.take(k as int)),
        decreases picks.len() - k,
    {
        let pick = picks[k];
        proof {
            let done = all.take(k as int);
            assert forall|j: int| 0 <= j < done.len() implies 0 <= #[trigger] done[j] < old(
                pool,
            )@.len() - j by {
                assert(done[j] == all[j]);
            }
            lemma_sample_lengths(old(pool)@, done);
            assert(all[k as int] == pick);
            assert(all.take(k + 1).drop_last() =~= done);
            assert(all.take(k + 1).last() == pick);
        }
        let entry = draw_and_remove(pool, pick);
        out.push(entry);
        k += 1;
    }
    proof {
        assert(all.take(k as int) =~= all);
    }
    Some(out)
}

/// An index below `bound`, chosen by `rand`'s thread-local generator:
/// `rand::thread_rng().gen_range(0..bound)`. `gen_range` samples the
/// half-open range, so the result lies below `bound`. Nothing else is claimed
/// of it here, and two calls may differ. `gen_range` panics on an empty
/// range, which the precondition rules out; `thread_rng` panics where the
/// system cannot seed it.
#[verifier::external_body]
fn random_index(bound: usize) -> (pick: usize)
    requires
        bound > 0,
    ensures
        pick < bound,
{
    rand::thread_rng().gen_range(0..bound)
}

/// Takes `count` entries out of the pool at random, one after the other, or
/// all of them where the pool holds fewer. The second component lists the
/// picks that were made, so that the draw can be repeated with `sample`.
pub fn sample_at_random<T>(pool: &mut Vec<T>, count: usize) -> (out: (Vec<T>, Vec<usize>))
    ensures
        out.1@.len() == if count <= old(pool)@.len() {
            count as int
        } else {
            old(pool)@.len() as int
        },
        picks_fit(old(pool)@.len() as int, picks_of(out.1@)),
        out.0@ == sampled(old(pool)@, picks_of(out.1@)),
        final(pool)@ == leftover(old(pool)@, picks_of(out.1@)),
{
    let mut out: Vec<T> = Vec::new();
    let mut picks: Vec<usize> = Vec::new();
    let mut k: usize = 0;
    while k < count && pool.len() > 0
        invariant
            k <= count,
            k <= old(pool)@.len(),
            picks@.len() == k,
            pool@.len() == old(pool)@.len() - k,
            picks_fit(old(pool)@.len() as int, picks_of(picks@)),
            out@ == sampled(old(pool)@, picks_of(picks@)),
            pool@ == leftover(old(pool)@, picks_of(picks@)),
        decreases count - k,
    {
        let pick = random_index(pool.len());
        let ghost before = picks_of(picks@);
        picks.push(pick);
        proof {
            let now = picks_of(picks@);
            assert(now.drop_last() =~= before);
            assert(now.last() == pick);
            assert forall|j: int| 0 <= j < now.len() implies 0 <= #[trigger] now[j] < old(
                pool,
            )@.len() - j by {
                if j < before.len() {
                    assert(now[j] == before[j]);
                }
            }
        }
        let entry = draw_and_remove(pool, pick);
        out.push(entry);
        k += 1;
    }
    (out, picks)
}

} // verus!
