//! The random draws of the game, made by the `rand` crate on the thread's
//! generator. Nothing is proved of these two functions: their contracts state
//! what `rand` documents of every outcome.

use crate::shape::Shape;
use rand::seq::SliceRandom;
use vstd::prelude::*;

verus! {

/// Whether `picks` are distinct indices of `pool` that give `chosen`, and
/// `chosen` has `amount` items, or as many as `pool` where that is fewer.
pub open spec fn drawn_by(chosen: Seq<u64>, pool: Seq<u64>, amount: int, picks: Seq<int>) -> bool {
    &&& picks.len() == chosen.len()
    &&& chosen.len() == if amount <= pool.len() {
        amount
    } else {
        pool.len() as int
    }
    &&& forall|k: int|
        0 <= k < picks.len() ==> 0 <= #[trigger] picks[k] < pool.len() && chosen[k]
            == pool[picks[k]]
    &&& forall|j: int, k: int|
        0 <= j < k < picks.len() ==> #[trigger] picks[j] != #[trigger] picks[k]
}

/// Whether `chosen` is a draw of `amount` items of `pool` without
/// replacement, in any order.
pub open spec fn is_sample(chosen: Seq<u64>, pool: Seq<u64>, amount: int) -> bool {
    exists|picks: Seq<int>| drawn_by(chosen, pool, amount, picks)
}

/// A draw from a pool without repeats has no repeats, and holds only items
/// of the pool.
pub proof fn lemma_sample_is_distinct(chosen: Seq<u64>, pool: Seq<u64>, amount: int)
    requires
        is_sample(chosen, pool, amount),
        pool.no_duplicates(),
    ensures
        chosen.no_duplicates(),
        forall|k: int| 0 <= k < chosen.len() ==> pool.contains(#[trigger] chosen[k]),
        chosen.len() <= pool.len(),
{
    let picks = choose|picks: Seq<int>| drawn_by(chosen, pool, amount, picks);
    assert forall|j: int, k: int| 0 <= j < chosen.len() && 0 <= k < chosen.len() && j != k implies
        chosen[j] != chosen[k] by {
        assert(0 <= picks[j] < pool.len() && chosen[j] == pool[picks[j]]);
        assert(0 <= picks[k] < pool.len() && chosen[k] == pool[picks[k]]);
        if j < k {
            assert(picks[j] != picks[k]);
        } else {
            assert(picks[k] != picks[j]);
        }
    }
    assert forall|k: int| 0 <= k < chosen.len() implies pool.contains(#[trigger] chosen[k]) by {
        assert(0 <= picks[k] < pool.len() && chosen[k] == pool[picks[k]]);
    }
}

/// `rand::seq::SliceRandom::choose` on `rand::thread_rng()`: one item of the
/// list, or nothing where the list is empty. Which item is not stated.
#[verifier::external_body]
pub(crate) fn pick_one(items: &Vec<Shape>) -> (picked: Option<Shape>)
    ensures
        picked is Some <==> items@.len() > 0,
        picked is Some ==> items@.contains(picked->0),
{
    items.choose(&mut rand::thread_rng()).copied()
}

/// `rand::seq::SliceRandom::choose_multiple` on `rand::thread_rng()`:
/// `amount` items of the list taken at distinct indices, or all of them where
/// the list has fewer. Which items, and in what order, is not stated. A list
/// of more than `u32::MAX` items must not be asked for all of its items:
/// `rand` then samples by rejection, which is written for fewer.
#[verifier::external_body]
pub(crate) fn pick_many(pool: &Vec<u64>, amount: usize) -> (chosen: Vec<u64>)
    requires
        pool@.len() <= u32::MAX || amount < pool@.len(),
    ensures
        is_sample(chosen@, pool@, amount as int),
{
    pool.choose_multiple(&mut rand::thread_rng(), amount).copied().collect()
}

} // verus!
