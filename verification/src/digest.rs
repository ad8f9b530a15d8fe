//! The 64-bit digest that spreads an output value over the registers, and the
//! split of a digest into a register index and a rank.

use vstd::arithmetic::div_mod::{lemma_mod_bound, lemma_multiply_divide_lt};
use vstd::arithmetic::power2::{lemma2_to64, lemma2_to64_rest, lemma_pow2_adds, lemma_pow2_pos, lemma_pow2_unfold, pow2};
use vstd::bits::{low_bits_mask, lemma_u64_low_bits_mask_is_mod, lemma_u64_pow2_no_overflow, lemma_u64_shl_is_mul, lemma_u64_shr_is_div};
use vstd::prelude::*;
use vstd::std_specs::bits::u64_leading_zeros;

verus! {

/// First multiplier of the finalizer.
pub const MIX_A: u64 = 0xbf58_476d_1ce4_e5b9;

/// Second multiplier of the finalizer.
pub const MIX_B: u64 = 0x94d0_49bb_1331_11eb;

/// Smallest supported register-index width.
pub const MIN_PRECISION: u8 = 4;

/// Largest supported register-index width.
pub const MAX_PRECISION: u8 = 16;

/// The widths for which an estimator can be built: the register array fits
/// in memory and the bias correction is defined for `2^b` registers.
pub open spec fn valid_precision(b: nat) -> bool {
    MIN_PRECISION <= b <= MAX_PRECISION
}

/// The digest of `x`: two rounds of xor-shift and odd multiplication modulo
/// `2^64`, then a last xor-shift.
pub open spec fn digest_of(x: u64) -> u64 {
    let a: u64 = (x ^ (x >> 30)).wrapping_mul(MIX_A);
    let b: u64 = (a ^ (a >> 27)).wrapping_mul(MIX_B);
    b ^ (b >> 31)
}

/// The number of binary digits of `n`: the least `k` with `n < 2^k`.
pub open spec fn bit_length(n: nat) -> nat
    decreases n,
{
    if n == 0 {
        0
    } else {
        1 + bit_length(n / 2)
    }
}

/// The register that a digest falls into: its top `b` bits.
pub open spec fn register_index(d: u64, b: nat) -> nat {
    d as nat / pow2((64 - b) as nat)
}

/// What is left of a digest below its top `b` bits, as a number of `64 - b`
/// bits.
pub open spec fn tail_bits(d: u64, b: nat) -> nat {
    d as nat % pow2((64 - b) as nat)
}

/// The rank of a digest: one more than the number of leading zero bits of
/// its tail, written in `64 - b` bits. An all-zero tail has rank `65 - b`.
pub open spec fn rank_of(d: u64, b: nat) -> nat {
    (65 - b - bit_length(tail_bits(d, b))) as nat
}

/// The largest rank a register of an estimator of width `b` can hold.
pub open spec fn max_rank(b: nat) -> nat {
    (65 - b) as nat
}

/// `bit_length(n)` is the least `k` with `n < 2^k`.
pub proof fn lemma_bit_length_bounds(n: nat, k: nat)
    ensures
        bit_length(n) <= k <==> n < pow2(k),
    decreases k,
{
    lemma_pow2_pos(k);
    if k == 0 {
        lemma2_to64();
        if n != 0 {
            assert(bit_length(n) == 1 + bit_length(n / 2));
        }
    } else {
        lemma_pow2_unfold(k);
        lemma_bit_length_bounds(n / 2, (k - 1) as nat);
        if n != 0 {
            assert(bit_length(n) == 1 + bit_length(n / 2));
        }
    }
}

/// The rank of a digest says where the leftmost one bit of its tail stands:
/// rank `r` means that the tail lies in `[2^(64-b-r), 2^(65-b-r))`, and the
/// largest rank, `65 - b`, means that the tail is zero.
pub proof fn lemma_rank_locates_leading_one(d: u64, b: nat)
    requires
        valid_precision(b),
    ensures
        1 <= rank_of(d, b) <= max_rank(b),
        rank_of(d, b) == max_rank(b) <==> tail_bits(d, b) == 0,
        rank_of(d, b) < max_rank(b) ==> pow2((64 - b - rank_of(d, b)) as nat) <= tail_bits(d, b)
            < pow2((65 - b - rank_of(d, b)) as nat),
{
    let w = tail_bits(d, b);
    let width = (64 - b) as nat;
    lemma_pow2_pos(width);
    lemma_mod_bound(d as int, pow2(width) as int);
    lemma_bit_length_bounds(w, width);
    let len = bit_length(w);
    lemma_bit_length_bounds(w, len);
    if len > 0 {
        lemma_bit_length_bounds(w, (len - 1) as nat);
    }
}

/// The index of a digest addresses one of the `2^b` registers.
pub proof fn lemma_register_index_in_range(d: u64, b: nat)
    requires
        valid_precision(b),
    ensures
        register_index(d, b) < pow2(b),
{
    let width = (64 - b) as nat;
    lemma_pow2_pos(width);
    lemma_pow2_adds(width, b);
    lemma2_to64_rest();
    assert(pow2(64) == 0x1_0000_0000_0000_0000);
    assert((d as int) < pow2(width) * pow2(b));
    lemma_multiply_divide_lt(d as int, pow2(width) as int, pow2(b) as int);
}

/// The leading zeros of a 64-bit word are the digits it does not use.
proof fn lemma_leading_zeros_is_unused_digits(x: u64)
    ensures
        u64_leading_zeros(x) == 64 - bit_length(x as nat),
    decreases x,
{
    reveal(u64_leading_zeros);
    if x != 0 {
        lemma_leading_zeros_is_unused_digits(x / 2);
    }
}

/// Computes the digest of an output value.
pub fn digest(x: u64) -> (d: u64)
    ensures
        d == digest_of(x),
{
    let a: u64 = (x ^ (x >> 30)).wrapping_mul(MIX_A);
    let b: u64 = (a ^ (a >> 27)).wrapping_mul(MIX_B);
    b ^ (b >> 31)
}

/// Splits a digest into the register it falls into and its rank there.
pub fn locate(d: u64, precision: u8) -> (slot: (usize, u8))
    requires
        valid_precision(precision as nat),
    ensures
        slot.0 == register_index(d, precision as nat),
        slot.1 == rank_of(d, precision as nat),
        slot.0 < pow2(precision as nat),
        1 <= slot.1 <= max_rank(precision as nat),
{
    let width: u32 = 64 - precision as u32;
    let top: u64 = d >> width;
    proof {
        lemma_u64_pow2_no_overflow(width as nat);
        lemma_u64_shl_is_mul(1u64, width as u64);
    }
    let mask: u64 = (1u64 << width) - 1;
    let tail: u64 = d & mask;
    let zeros: u32 = tail.leading_zeros();
    proof {
        let b = precision as nat;
        lemma_u64_shr_is_div(d, width as u64);
        lemma_register_index_in_range(d, b);
        lemma2_to64();
        assert(mask == low_bits_mask(width as nat));
        lemma_u64_low_bits_mask_is_mod(d, width as nat);
        assert(tail as nat == tail_bits(d, b));
        lemma_pow2_pos(width as nat);
        lemma_mod_bound(d as int, pow2(width as nat) as int);
        lemma_bit_length_bounds(tail as nat, width as nat);
        lemma_rank_locates_leading_one(d, b);
        lemma_leading_zeros_is_unused_digits(tail);
    }
    ((top as usize), ((zeros - precision as u32 + 1) as u8))
}

} // verus!
