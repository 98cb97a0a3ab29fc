//! The countdown of turns.

use crate::ledger::{
    apply_delta, counter_after, lemma_total_of_one, lemma_wrap_absorbs, total,
};
use vstd::prelude::*;

verus! {

/// The number of turns with which a game starts.
pub const TURNS_INIT_VALUE: i32 = 7;

/// The turns that are left to the player.
#[derive(Clone, Copy, Debug, PartialEq, Eq, Structural)]
pub struct TurnsLeft(pub i32);

/// A message that changes the turns left by its delta.
#[derive(Clone, Copy, Debug, PartialEq, Eq, Structural)]
pub struct TurnsUpdateEvent(pub i32);

/// The deltas that a batch of messages carries, in their order.
pub open spec fn turn_deltas(events: Seq<TurnsUpdateEvent>) -> Seq<int> {
    events.map_values(|e: TurnsUpdateEvent| e.0 as int)
}

impl TurnsLeft {
    /// The countdown at the start of a game.
    pub fn new() -> (turns: TurnsLeft)
        ensures
            turns.0 == TURNS_INIT_VALUE,
    {
        TurnsLeft(TURNS_INIT_VALUE)
    }

    /// Adds `delta` to the turns left. Nothing is clamped: the countdown may
    /// fall below zero.
    pub fn apply_turn_delta(&mut self, delta: i32)
        ensures
            final(self).0 == counter_after(old(self).0 as int, seq![delta as int]),
            i32::MIN <= old(self).0 + delta <= i32::MAX ==> final(self).0 == old(self).0 + delta,
    {
        proof {
            lemma_total_of_one(delta as int);
        }
        self.0 = apply_delta(self.0, delta);
    }
}

/// Applies every message of the batch to the turns left.
pub fn update_turns_left(turns_left: &mut TurnsLeft, turns_update: &Vec<TurnsUpdateEvent>)
    ensures
        final(turns_left).0 == counter_after(old(turns_left).0 as int, turn_deltas(turns_update@)),
{
    let ghost deltas = turn_deltas(turns_update@);
    let mut k: usize = 0;
    while k < turns_update.len()
        invariant
            k <= turns_update.len(),
            deltas == turn_deltas(turns_update@),
            turns_left.0 == counter_after(old(turns_left).0 as int, deltas.take(k as int)),
        decreases turns_update.len() - k,
    {
        proof {
            assert(deltas.take(k + 1).drop_last() =~= deltas.take(k as int));
            assert(deltas.take(k + 1).last() == turns_update@[k as int].0);
            lemma_wrap_absorbs(
                old(turns_left).0 + total(deltas.take(k as int)),
                turns_update@[k as int].0 as int,
            );
        }
        turns_left.0 = apply_delta(turns_left.0, turns_update[k].0);
        k += 1;
    }
    proof {
        assert(deltas.take(k as int) =~= deltas);
    }
}

} // verus!
