//! Arithmetic of the two counters that govern progress: movement points and
//! turns left. Both are signed 32-bit values that change only by added deltas;
//! nothing is clamped, and a sum that leaves the range of `i32` wraps round.

use vstd::prelude::*;

verus! {

/// The integer in the range of `i32` that is congruent to `x` modulo 2^32.
pub open spec fn wrap_i32(x: int) -> int {
    let r = x % 0x1_0000_0000;
    if r >= 0x8000_0000 {
        r - 0x1_0000_0000
    } else {
        r
    }
}

/// The sum of the deltas in `deltas`.
pub open spec fn total(deltas: Seq<int>) -> int
    decreases deltas.len(),
{
    if deltas.len() == 0 {
        0
    } else {
        total(deltas.drop_last()) + deltas.last()
    }
}

/// What a counter that starts at `start` holds once every delta of `deltas`
/// has been added to it.
pub open spec fn counter_after(start: int, deltas: Seq<int>) -> int {
    wrap_i32(start + total(deltas))
}

/// Adds one delta to a counter.
pub fn apply_delta(counter: i32, delta: i32) -> (r: i32)
    ensures
        r == wrap_i32(counter + delta),
        i32::MIN <= counter + delta <= i32::MAX ==> r == counter + delta,
{
    counter.wrapping_add(delta)
}

/// The signed value that the 32 bits of `x` stand for in two's complement.
pub open spec fn signed_of(x: u32) -> int {
    if x >= 0x8000_0000 {
        x - 0x1_0000_0000
    } else {
        x as int
    }
}

/// The integer in the range of `u32` that is congruent to `x` modulo 2^32.
pub open spec fn wrap_u32(x: int) -> int {
    x % 0x1_0000_0000
}

/// Reads an unsigned value as the signed value of the same 32 bits.
pub fn to_signed(x: u32) -> (r: i32)
    ensures
        r == signed_of(x),
        r == wrap_i32(x as int),
{
    if x >= 0x8000_0000 {
        (x as i64 - 0x1_0000_0000) as i32
    } else {
        x as i32
    }
}

/// Reads a signed value as the unsigned value of the same 32 bits.
pub fn to_unsigned(x: i32) -> (r: u32)
    ensures
        r == wrap_u32(x as int),
        signed_of(r) == x,
{
    if x < 0 {
        (x as i64 + 0x1_0000_0000) as u32
    } else {
        x as u32
    }
}

/// Takes `delta` off an unsigned value, modulo 2^32.
pub fn lowered(x: u32, delta: i32) -> (r: u32)
    ensures
        r == wrap_u32(x - delta),
{
    x.wrapping_sub(to_unsigned(delta))
}

/// Multiplies an unsigned value by `factor`, modulo 2^32.
pub fn multiplied(x: u32, factor: i32) -> (r: u32)
    ensures
        r == wrap_u32(x * factor),
{
    proof {
        vstd::arithmetic::div_mod::lemma_mul_mod_noop_right(
            x as int,
            factor as int,
            0x1_0000_0000,
        );
        assert(x * wrap_u32(factor as int) >= 0) by (nonlinear_arith)
            requires
                x >= 0,
                wrap_u32(factor as int) >= 0,
        ;
    }
    x.wrapping_mul(to_unsigned(factor))
}

/// The sum of a single delta is that delta.
pub proof fn lemma_total_of_one(delta: int)
    ensures
        total(seq![delta]) == delta,
{
    assert(seq![delta].drop_last() =~= Seq::<int>::empty());
    reveal_with_fuel(total, 2);
}

/// The sum of two sequences laid end to end is the sum of their sums.
pub proof fn lemma_total_of_concat(a: Seq<int>, b: Seq<int>)
    ensures
        total(a + b) == total(a) + total(b),
    decreases b.len(),
{
    if b.len() == 0 {
        assert(a + b =~= a);
    } else {
        lemma_total_of_concat(a, b.drop_last());
        assert((a + b).drop_last() =~= a + b.drop_last());
        assert((a + b).last() == b.last());
    }
}

/// Taking one delta out of a sequence lowers the sum by that delta.
pub proof fn lemma_total_without(deltas: Seq<int>, i: int)
    requires
        0 <= i < deltas.len(),
    ensures
        total(deltas) == total(deltas.remove(i)) + deltas[i],
    decreases deltas.len(),
{
    if i == deltas.len() - 1 {
        assert(deltas.remove(i) =~= deltas.drop_last());
    } else {
        lemma_total_without(deltas.drop_last(), i);
        assert(deltas.remove(i).drop_last() =~= deltas.drop_last().remove(i));
        assert(deltas.remove(i).last() == deltas.last());
    }
}

/// Two sequences that hold the same deltas, each as often as the other, have
/// the same sum.
pub proof fn lemma_total_of_rearrangement(a: Seq<int>, b: Seq<int>)
    requires
        a.to_multiset() == b.to_multiset(),
    ensures
        total(a) == total(b),
    decreases a.len(),
{
    broadcast use vstd::seq_lib::group_to_multiset_ensures;

    a.to_multiset_ensures();
    b.to_multiset_ensures();
    assert(a.len() == b.len());
    if a.len() > 0 {
        let x = a.last();
        assert(a.contains(x));
        assert(b.to_multiset().count(x) > 0);
        assert(b.contains(x));
        let j = choose|j: int| 0 <= j < b.len() && b[j] == x;
        assert(a.drop_last() =~= a.remove(a.len() - 1));
        assert(a.remove(a.len() - 1).to_multiset() =~= a.to_multiset().remove(x));
        assert(b.remove(j).to_multiset() =~= b.to_multiset().remove(x));
        lemma_total_of_rearrangement(a.drop_last(), b.remove(j));
        lemma_total_without(b, j);
    }
}

/// The order in which deltas are applied to a counter does not matter: two
/// batches that hold the same deltas leave the counter at the same value.
pub proof fn deltas_commute(start: int, a: Seq<int>, b: Seq<int>)
    requires
        a.to_multiset() == b.to_multiset(),
    ensures
        counter_after(start, a) == counter_after(start, b),
{
    lemma_total_of_rearrangement(a, b);
}

/// Applying one batch of deltas and then another leaves the counter where
/// applying all of them at once leaves it.
pub proof fn deltas_associate(start: int, a: Seq<int>, b: Seq<int>)
    ensures
        counter_after(counter_after(start, a), b) == counter_after(start, a + b),
{
    lemma_total_of_concat(a, b);
    lemma_wrap_absorbs(start + total(a), total(b));
}

/// Wrapping an intermediate sum does not change the wrapped end result.
pub proof fn lemma_wrap_absorbs(a: int, b: int)
    ensures
        wrap_i32(wrap_i32(a) + b) == wrap_i32(a + b),
        i32::MIN <= wrap_i32(a) <= i32::MAX,
{
}

} // verus!
