//! The jump consistent hash recurrence: from a 64-bit digest and a slot count to
//! a slot.
//!
//! The recurrence walks a chain of buckets `0 = b0 < b1 < b2 < ...` that depends
//! on the digest alone, and returns the last bucket of the chain that lies below
//! the slot count. A linear congruential generator started at the digest gives
//! each link a fresh state `h`, and the link after bucket `b` is
//!
//! ```text
//! floor((b + 1) * (2^31 / ((h >> 33) + 1)))
//! ```
//!
//! where the division and the multiplication are those of IEEE 754 binary64.
//! The three operands `b + 1`, `2^31` and `(h >> 33) + 1` are integers below
//! `2^53`, which binary64 holds exactly, so the only roundings are that of the
//! quotient and that of the product. [`crate::rounding`] computes both on
//! integers, bit for bit.
//!
//! Because the chain does not depend on the slot count, a change of the slot
//! count moves a key only if the end of its chain moves: see
//! [`lemma_jump_growth`].

use crate::rounding::{
    lemma_pow2_le, lemma_pow2_values, lemma_round_binary64_lower, lemma_round_binary64_upper,
    lemma_round_half_even_between, lemma_significand_bounds, round_binary64, spec_floor_log2,
    spec_round_binary64, spec_round_half_even, TWO_52,
};
use vstd::arithmetic::div_mod::*;
use vstd::arithmetic::power2::*;
use vstd::pervasive::runtime_assert;
use vstd::prelude::*;

verus! {

/// The multiplier of the linear congruential generator that drives the chain.
pub const MULTIPLIER: u64 = 2862933555777941757;

/// `2^31`: the numerator of the ratio that stretches a bucket to the next one.
pub const TWO_31: u64 = 0x8000_0000;

/// The generator's next state: `state * MULTIPLIER + 1` modulo `2^64`.
pub open spec fn spec_advance(state: u64) -> u64 {
    ((state as nat * MULTIPLIER as nat + 1) % 0x1_0000_0000_0000_0000) as u64
}

/// The top 31 bits of the state, plus one, `(state >> 33) + 1`: a number in
/// `[1, 2^31]`.
pub open spec fn spec_divisor(state: u64) -> nat {
    state as nat / 0x2_0000_0000 + 1
}

/// The binary64 quotient `2^31 / spec_divisor(state)`, times `2^52`.
pub open spec fn spec_ratio(state: u64) -> nat {
    spec_round_binary64(TWO_31 as nat, spec_divisor(state))
}

/// The bucket that follows `bucket` in the chain, under the generator state
/// `state`: the binary64 product of `bucket + 1` and the ratio, truncated to
/// an integer. With the ratio held as `spec_ratio(state) / 2^52`, the exact
/// product is `(bucket + 1) * spec_ratio(state) / 2^52`.
pub open spec fn spec_next_jump(bucket: u32, state: u64) -> nat {
    spec_round_binary64((bucket + 1) as nat * spec_ratio(state), TWO_52 as nat) / (TWO_52 as nat)
}

/// The last bucket below `slot_count` of the chain that continues from
/// `bucket`, where `state` is the generator state that `bucket` was reached
/// with.
pub open spec fn spec_jump_from(bucket: u32, state: u64, slot_count: u32) -> u32
    decreases slot_count - bucket,
    via spec_jump_from_decreases
{
    let state = spec_advance(state);
    let next = spec_next_jump(bucket, state);
    if next < slot_count {
        spec_jump_from(next as u32, state, slot_count)
    } else {
        bucket
    }
}

/// The chain goes up, so fewer slots are left above the next bucket.
#[via_fn]
proof fn spec_jump_from_decreases(bucket: u32, state: u64, slot_count: u32) {
    lemma_next_jump_bounds(bucket, spec_advance(state));
}

/// The slot of a key with digest `digest` among `slot_count >= 1` slots: the
/// last bucket below `slot_count` of the chain that starts at bucket 0.
pub open spec fn spec_jump(digest: u64, slot_count: u32) -> u32 {
    spec_jump_from(0, digest, slot_count)
}

/// The ratio is a binary64 value in `[1, 2^31]`.
pub proof fn lemma_ratio_bounds(state: u64)
    ensures
        TWO_52 <= spec_ratio(state) <= TWO_31 * TWO_52,
{
    let d = spec_divisor(state);
    lemma_pow2_values();
    assert(TWO_31 as nat <= TWO_31 as nat * d) by (nonlinear_arith)
        requires
            d >= 1,
    ;
    lemma_round_binary64_lower(TWO_31 as nat, d, 1);
    lemma_round_binary64_upper(TWO_31 as nat, d, TWO_31 as nat);
}

/// The chain increases strictly, and its links fit in 64 bits.
pub proof fn lemma_next_jump_bounds(bucket: u32, state: u64)
    ensures
        bucket < spec_next_jump(bucket, state) <= 0x8000_0000_0000_0000,
{
    let c = (bucket + 1) as nat;
    let q = spec_ratio(state);
    let num = c * q;
    let den = TWO_52 as nat;
    let e = spec_floor_log2(num / den);
    let m = spec_round_half_even(num * pow2(52), den * pow2(e));
    let r = spec_round_binary64(num, den);
    lemma_pow2_values();
    lemma_ratio_bounds(state);
    assert(c * den <= num <= 0x8000_0000_0000_0000 * den) by (nonlinear_arith)
        requires
            num == c * q,
            1 <= c <= 0x1_0000_0000,
            den <= q <= TWO_31 * den,
            den > 0,
    ;
    lemma_round_binary64_lower(num, den, c);
    lemma_significand_bounds(num, den);
    assert(pow2(e) <= pow2(63)) by (nonlinear_arith)
        requires
            pow2(e) * den <= num <= 0x8000_0000_0000_0000 * den,
            pow2(63) == 0x8000_0000_0000_0000,
            den > 0,
    ;
    lemma_pow2_le(e, 63);
    if e == 63 {
        assert(pow2(52) * (den * pow2(e)) <= num * pow2(52) <= pow2(52) * (den * pow2(e)))
            by (nonlinear_arith)
            requires
                pow2(e) * den <= num <= 0x8000_0000_0000_0000 * den,
                pow2(e) == 0x8000_0000_0000_0000,
        ;
        lemma_round_half_even_between(num * pow2(52), den * pow2(e), pow2(52), pow2(52));
    } else {
        lemma_pow2_le(e, 62);
        lemma2_to64_rest();
        assert(m * pow2(e) <= 0x8000_0000_0000_0000 * den) by (nonlinear_arith)
            requires
                m <= 2 * den,
                pow2(e) <= 0x4000_0000_0000_0000,
        ;
    }
    lemma_div_is_ordered((c * den) as int, r as int, den as int);
    lemma_div_is_ordered(r as int, (0x8000_0000_0000_0000 * den) as int, den as int);
    lemma_div_by_multiple(c as int, den as int);
    lemma_div_by_multiple(0x8000_0000_0000_0000, den as int);
}

/// The slot lies in the chain from `bucket` on, below the slot count.
pub proof fn lemma_jump_from_range(bucket: u32, state: u64, slot_count: u32)
    requires
        bucket < slot_count,
    ensures
        bucket <= spec_jump_from(bucket, state, slot_count) < slot_count,
    decreases slot_count - bucket,
{
    let next_state = spec_advance(state);
    let next = spec_next_jump(bucket, next_state);
    lemma_next_jump_bounds(bucket, next_state);
    if next < slot_count {
        lemma_jump_from_range(next as u32, next_state, slot_count);
    }
}

/// With more slots, the chain from `bucket` either ends where it did or goes
/// on to one of the added slots.
pub proof fn lemma_jump_from_growth(bucket: u32, state: u64, fewer: u32, more: u32)
    requires
        bucket < fewer <= more,
    ensures
        spec_jump_from(bucket, state, more) == spec_jump_from(bucket, state, fewer)
            || spec_jump_from(bucket, state, more) >= fewer,
    decreases fewer - bucket,
{
    let next_state = spec_advance(state);
    let next = spec_next_jump(bucket, next_state);
    lemma_next_jump_bounds(bucket, next_state);
    if next < fewer {
        lemma_jump_from_growth(next as u32, next_state, fewer, more);
    } else if next < more {
        lemma_jump_from_range(next as u32, next_state, more);
    }
}

/// Every key has a slot below the slot count.
pub proof fn lemma_jump_in_range(digest: u64, slot_count: u32)
    requires
        slot_count >= 1,
    ensures
        spec_jump(digest, slot_count) < slot_count,
{
    lemma_jump_from_range(0, digest, slot_count);
}

/// With a single slot, every key has slot 0.
pub proof fn lemma_jump_single_slot(digest: u64)
    ensures
        spec_jump(digest, 1) == 0,
{
    lemma_jump_from_range(0, digest, 1);
}

/// Growing the number of slots from `fewer` to `more` leaves a key in its slot
/// or moves it to one of the added slots `fewer..more`; it never moves a key
/// between two slots that were there before.
pub proof fn lemma_jump_growth(digest: u64, fewer: u32, more: u32)
    requires
        1 <= fewer <= more,
    ensures
        spec_jump(digest, more) == spec_jump(digest, fewer) || fewer <= spec_jump(digest, more)
            < more,
{
    lemma_jump_from_growth(0, digest, fewer, more);
    lemma_jump_from_range(0, digest, more);
}

/// Adding one slot leaves a key in its slot or moves it to the added slot.
pub proof fn lemma_jump_one_more(digest: u64, slot_count: u32)
    requires
        1 <= slot_count < u32::MAX,
    ensures
        ({
            let after = spec_jump(digest, (slot_count + 1) as u32);
            after == spec_jump(digest, slot_count) || after == slot_count
        }),
{
    lemma_jump_growth(digest, slot_count, (slot_count + 1) as u32);
}

/// Advances the generator by one step.
pub fn advance(state: u64) -> (next: u64)
    ensures
        next == spec_advance(state),
{
    proof {
        lemma_add_mod_noop((state as nat * MULTIPLIER as nat) as int, 1, 0x1_0000_0000_0000_0000);
        lemma_small_mod(1, 0x1_0000_0000_0000_0000);
        let low = (state as nat * MULTIPLIER as nat) % 0x1_0000_0000_0000_0000;
        if low + 1 == 0x1_0000_0000_0000_0000 {
            lemma_mod_self_0(0x1_0000_0000_0000_0000);
        } else {
            lemma_small_mod(low + 1, 0x1_0000_0000_0000_0000);
        }
    }
    state.wrapping_mul(MULTIPLIER).wrapping_add(1)
}

/// Computes the bucket that follows `bucket` under the generator state `state`.
/// It lies above `bucket` and is at most `2^63`.
pub fn next_jump(bucket: u32, state: u64) -> (next: u64)
    ensures
        next == spec_next_jump(bucket, state),
        bucket < next <= 0x8000_0000_0000_0000,
{
    let top: u64 = state >> 33;
    proof {
        assert(top == state / 0x2_0000_0000 && top < 0x8000_0000) by (bit_vector)
            requires
                top == state >> 33,
        ;
        lemma_ratio_bounds(state);
        lemma_next_jump_bounds(bucket, state);
    }
    let divisor: u64 = top + 1;
    let ratio: u128 = round_binary64(TWO_31 as u128, divisor as u128);
    let count: u128 = bucket as u128 + 1;
    proof {
        assert(TWO_52 <= count * ratio <= 0x8000_0000_0000_0000 * TWO_52) by (nonlinear_arith)
            requires
                1 <= count <= 0x1_0000_0000,
                TWO_52 <= ratio <= TWO_31 * TWO_52,
        ;
    }
    let product: u128 = round_binary64(count * ratio, TWO_52);
    (product / TWO_52) as u64
}

/// The slot of a key with digest `digest` among `slot_count` slots.
///
/// A slot count of zero is a caller's error. Verified callers are held to the
/// precondition; for any other caller the function stops the program rather
/// than return a slot that does not exist.
pub fn jump(digest: u64, slot_count: u32) -> (slot: u32)
    requires
        slot_count >= 1,
    ensures
        slot == spec_jump(digest, slot_count),
        slot < slot_count,
{
    runtime_assert(slot_count >= 1);
    let mut bucket: u32 = 0;
    let mut state: u64 = digest;
    loop
        invariant
            bucket < slot_count,
            spec_jump(digest, slot_count) == spec_jump_from(bucket, state, slot_count),
        ensures
            bucket < slot_count,
            bucket == spec_jump(digest, slot_count),
        decreases slot_count - bucket,
    {
        let next_state: u64 = advance(state);
        let next: u64 = next_jump(bucket, next_state);
        if next >= slot_count as u64 {
            break ;
        }
        bucket = next as u32;
        state = next_state;
    }
    bucket
}

} // verus!
