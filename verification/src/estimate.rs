//! The exact, integer half of the cardinality estimate: the number of empty
//! registers, the harmonic sum of the registers as an integer, the bias
//! correction as a ratio, and the decision which correction applies. The
//! logarithm and the final division are left to the caller.

use crate::estimator::{HyperLogLog, Sketch};
use vstd::arithmetic::power2::{lemma2_to64_rest, lemma_pow2_pos, lemma_pow2_strictly_increases, pow2};
use vstd::bits::{lemma_u64_pow2_no_overflow, lemma_u64_shl_is_mul};
use vstd::prelude::*;

verus! {

/// `2^64` as a machine integer: the scale of [`inverse_sum`].
pub const SCALE: u128 = 0x1_0000_0000_0000_0000;

/// Which formula turns the registers into the estimate.
#[derive(Debug, Clone, Copy, PartialEq, Eq, Structural)]
pub enum Regime {
    /// The raw estimate is at most `2.5 m` and some register is still zero:
    /// the estimate is `m * ln(m / zeros)`.
    LinearCounting,
    /// The raw estimate `alpha * m^2 / Z` stands as it is.
    Raw,
    /// The raw estimate is above `2^64 / 30` and below `2^64`: it is
    /// corrected for collisions in the 64-bit digest space,
    /// `-2^64 * ln(1 - E / 2^64)`.
    LargeRange,
    /// The raw estimate is `2^64` or more, where that correction has no
    /// value: the estimate is the size of the digest space, `2^64`.
    Saturated,
}

/// The number of registers that are still zero.
pub open spec fn zero_count(registers: Seq<u8>) -> nat
    decreases registers.len(),
{
    if registers.len() == 0 {
        0
    } else {
        zero_count(registers.drop_last()) + if registers.last() == 0 {
            1nat
        } else {
            0nat
        }
    }
}

/// `2^64` times the harmonic sum `Z`, the sum of `2^-r` over the registers
/// `r`: the sum of `2^(64 - r)`, an integer as long as no register is above
/// 64.
pub open spec fn inverse_sum(registers: Seq<u8>) -> nat
    decreases registers.len(),
{
    if registers.len() == 0 {
        0
    } else {
        inverse_sum(registers.drop_last()) + pow2((64 - registers.last()) as nat)
    }
}

/// Numerator of the bias correction `alpha_m`: the tabulated
/// `0.673`, `0.697`, `0.709` for 16, 32 and 64 registers, and
/// `0.7213 / (1 + 1.079 / m)` beyond.
pub open spec fn alpha_numerator(m: nat) -> nat {
    if m == 16 {
        673
    } else if m == 32 {
        697
    } else if m == 64 {
        709
    } else {
        7213 * m
    }
}

/// Denominator of the bias correction `alpha_m`.
pub open spec fn alpha_denominator(m: nat) -> nat {
    if m == 16 || m == 32 || m == 64 {
        1000
    } else {
        10000 * m + 10790
    }
}

/// Whether the raw estimate `E = alpha_m * m^2 / Z` is at most `2.5 m`.
/// With `alpha_m = an / ad` and `Z = sum / 2^64` this is
/// `2 * an * m * 2^64 <= 5 * ad * sum`.
pub open spec fn in_small_range(m: nat, sum: nat) -> bool {
    2 * alpha_numerator(m) * m * pow2(64) <= 5 * alpha_denominator(m) * sum
}

/// Whether the raw estimate `E = alpha_m * m^2 / Z` is above `2^64 / 30`:
/// `30 * an * m^2 > ad * sum`.
pub open spec fn in_large_range(m: nat, sum: nat) -> bool {
    30 * alpha_numerator(m) * m * m > alpha_denominator(m) * sum
}

/// Whether the raw estimate `E = alpha_m * m^2 / Z` is `2^64` or more:
/// `an * m^2 >= ad * sum`.
pub open spec fn beyond_digest_space(m: nat, sum: nat) -> bool {
    alpha_numerator(m) * m * m >= alpha_denominator(m) * sum
}

/// The formula that applies to a register array.
pub open spec fn regime_of(registers: Seq<u8>) -> Regime {
    let m = registers.len();
    let sum = inverse_sum(registers);
    if in_small_range(m, sum) && zero_count(registers) > 0 {
        Regime::LinearCounting
    } else if beyond_digest_space(m, sum) {
        Regime::Saturated
    } else if in_large_range(m, sum) {
        Regime::LargeRange
    } else {
        Regime::Raw
    }
}

/// All that the estimate is computed from.
#[derive(Debug, Clone, Copy, PartialEq, Eq, Structural)]
pub struct EstimateTerms {
    /// The number `m` of registers.
    pub registers: u64,
    /// How many of them are zero.
    pub zeros: u64,
    /// `2^64` times the harmonic sum `Z`.
    pub inverse_sum: u128,
    /// Numerator of `alpha_m`.
    pub alpha_numerator: u64,
    /// Denominator of `alpha_m`.
    pub alpha_denominator: u64,
    /// The formula to apply.
    pub regime: Regime,
}

/// The terms of a register array.
pub open spec fn terms_of(registers: Seq<u8>) -> EstimateTerms {
    EstimateTerms {
        registers: registers.len() as u64,
        zeros: zero_count(registers) as u64,
        inverse_sum: inverse_sum(registers) as u128,
        alpha_numerator: alpha_numerator(registers.len()) as u64,
        alpha_denominator: alpha_denominator(registers.len()) as u64,
        regime: regime_of(registers),
    }
}

/// There are no more zero registers than registers, and each register adds
/// between `1` and `2^64` to the scaled harmonic sum.
pub proof fn lemma_terms_bounds(registers: Seq<u8>)
    requires
        forall|j: int| 0 <= j < registers.len() ==> #[trigger] registers[j] <= 64,
    ensures
        zero_count(registers) <= registers.len(),
        registers.len() <= inverse_sum(registers) <= registers.len() * SCALE,
        zero_count(registers) == registers.len() ==> inverse_sum(registers) == registers.len()
            * SCALE,
    decreases registers.len(),
{
    if registers.len() > 0 {
        let front = registers.drop_last();
        assert forall|j: int| 0 <= j < front.len() implies #[trigger] front[j] <= 64 by {
            assert(front[j] == registers[j]);
        }
        lemma_terms_bounds(front);
        let e = (64 - registers.last()) as nat;
        assert(registers.last() == registers[registers.len() - 1]);
        lemma_pow2_pos(e);
        lemma2_to64_rest();
        if e < 64 {
            lemma_pow2_strictly_increases(e, 64);
        }
    }
}

/// Raising registers can only lower the number of zero registers and the
/// harmonic sum, the two quantities that the estimate falls with.
pub proof fn lemma_raised_registers_lower_the_terms(before: Seq<u8>, after: Seq<u8>)
    requires
        before.len() == after.len(),
        forall|j: int| 0 <= j < before.len() ==> before[j] <= #[trigger] after[j],
        forall|j: int| 0 <= j < after.len() ==> #[trigger] after[j] <= 64,
    ensures
        zero_count(after) <= zero_count(before),
        inverse_sum(after) <= inverse_sum(before),
    decreases before.len(),
{
    if before.len() > 0 {
        let b = before.drop_last();
        let a = after.drop_last();
        assert forall|j: int| 0 <= j < b.len() implies b[j] <= #[trigger] a[j] by {
            assert(before[j] <= after[j]);
        }
        assert forall|j: int| 0 <= j < a.len() implies #[trigger] a[j] <= 64 by {
            assert(a[j] == after[j]);
        }
        lemma_raised_registers_lower_the_terms(b, a);
        let last = before.len() - 1;
        assert(before[last] <= after[last]);
        assert(after[last] <= 64);
        if before[last] < after[last] {
            lemma_pow2_strictly_increases((64 - after[last]) as nat, (64 - before[last]) as nat);
        }
    }
}

/// Adding to an estimator never raises the number of zero registers nor the
/// harmonic sum: whatever was added, in whatever order.
pub proof fn lemma_adds_lower_the_terms(s: Sketch, pairs: Seq<(u64, u64)>, k: int)
    requires
        s.wf(),
        0 <= k <= pairs.len(),
    ensures
        zero_count(s.after_adds(pairs).registers) <= zero_count(
            s.after_adds(pairs.take(k)).registers,
        ),
        inverse_sum(s.after_adds(pairs).registers) <= inverse_sum(
            s.after_adds(pairs.take(k)).registers,
        ),
{
    crate::estimator::lemma_adds_only_raise_registers(s, pairs, k);
    let early = s.after_adds(pairs.take(k));
    let late = s.after_adds(pairs);
    assert forall|j: int| 0 <= j < late.registers.len() implies #[trigger] late.registers[j]
        <= 64 by {
        assert(late.registers[j] <= crate::digest::max_rank(late.precision));
    }
    lemma_raised_registers_lower_the_terms(early.registers, late.registers);
}

/// The bias correction as a ratio, for `m` registers.
pub fn alpha_ratio(m: u64) -> (ratio: (u64, u64))
    requires
        m <= 65536,
    ensures
        ratio.0 == alpha_numerator(m as nat),
        ratio.1 == alpha_denominator(m as nat),
        ratio.0 <= 472711168,
        1000 <= ratio.1 <= 655370790,
{
    if m == 16 {
        (673, 1000)
    } else if m == 32 {
        (697, 1000)
    } else if m == 64 {
        (709, 1000)
    } else {
        (7213 * m, 10000 * m + 10790)
    }
}

/// Counts the zero registers and adds up the scaled harmonic sum, then
/// decides which formula the estimate takes.
pub fn terms(registers: &Vec<u8>) -> (found: EstimateTerms)
    requires
        registers@.len() <= 65536,
        forall|j: int| 0 <= j < registers@.len() ==> #[trigger] registers@[j] <= 64,
    ensures
        found == terms_of(registers@),
        found.registers == registers@.len(),
        found.zeros == zero_count(registers@),
        found.inverse_sum == inverse_sum(registers@),
        found.alpha_numerator == alpha_numerator(registers@.len()),
        found.alpha_denominator == alpha_denominator(registers@.len()),
{
    let count: usize = registers.len();
    let mut zeros: u64 = 0;
    let mut sum: u128 = 0;
    let mut j: usize = 0;
    while j < count
        invariant
            j <= count,
            count == registers@.len(),
            count <= 65536,
            forall|i: int| 0 <= i < registers@.len() ==> #[trigger] registers@[i] <= 64,
            zeros == zero_count(registers@.take(j as int)),
            sum == inverse_sum(registers@.take(j as int)),
            zeros <= j,
            sum <= j * SCALE,
        decreases count - j,
    {
        let r: u8 = registers[j];
        proof {
            let next = registers@.take(j + 1);
            assert(next.drop_last() =~= registers@.take(j as int));
            assert(next.last() == r);
            lemma2_to64_rest();
            if r > 0 {
                lemma_u64_pow2_no_overflow((64 - r) as nat);
                lemma_u64_shl_is_mul(1u64, (64 - r) as u64);
                lemma_pow2_strictly_increases((64 - r) as nat, 64);
            }
        }
        if r == 0 {
            zeros = zeros + 1;
            sum = sum + SCALE;
        } else {
            let term: u64 = 1u64 << (64 - r);
            sum = sum + term as u128;
        }
        j = j + 1;
    }
    assert(registers@.take(count as int) =~= registers@);
    let m: u64 = count as u64;
    let ratio = alpha_ratio(m);
    let an: u128 = ratio.0 as u128;
    let ad: u128 = ratio.1 as u128;
    let wide: u128 = m as u128;
    assert(an * wide <= 472711168 * 65536) by (nonlinear_arith)
        requires
            an <= 472711168,
            wide <= 65536,
    ;
    assert(an * wide * wide <= 472711168 * 65536 * 65536) by (nonlinear_arith)
        requires
            an * wide <= 472711168 * 65536,
            wide <= 65536,
    ;
    assert(ad * sum <= 655370790 * (65536 * SCALE)) by (nonlinear_arith)
        requires
            ad <= 655370790,
            sum <= 65536 * SCALE,
    ;
    proof {
        lemma2_to64_rest();
        assert(sum <= 65536 * SCALE);
    }
    let small: bool = 2 * (an * wide) * SCALE <= 5 * (ad * sum);
    let large: bool = 30 * (an * wide * wide) > ad * sum;
    let beyond: bool = an * wide * wide >= ad * sum;
    proof {
        let mm = registers@.len();
        assert(2 * alpha_numerator(mm) * mm * pow2(64) == 2 * (an * wide) * SCALE)
            by (nonlinear_arith)
            requires
                alpha_numerator(mm) == an,
                mm == wide,
                pow2(64) == SCALE,
        ;
        assert(5 * alpha_denominator(mm) * (sum as nat) == 5 * (ad * sum)) by (nonlinear_arith)
            requires
                alpha_denominator(mm) == ad,
        ;
        assert(30 * alpha_numerator(mm) * mm * mm == 30 * (an * wide * wide))
            by (nonlinear_arith)
            requires
                alpha_numerator(mm) == an,
                mm == wide,
        ;
        assert(alpha_numerator(mm) * mm * mm == an * wide * wide) by (nonlinear_arith)
            requires
                alpha_numerator(mm) == an,
                mm == wide,
        ;
        assert(alpha_denominator(mm) * (sum as nat) == ad * sum) by (nonlinear_arith)
            requires
                alpha_denominator(mm) == ad,
        ;
    }
    let regime = if small && zeros > 0 {
        Regime::LinearCounting
    } else if beyond {
        Regime::Saturated
    } else if large {
        Regime::LargeRange
    } else {
        Regime::Raw
    };
    EstimateTerms {
        registers: m,
        zeros,
        inverse_sum: sum,
        alpha_numerator: ratio.0,
        alpha_denominator: ratio.1,
        regime,
    }
}

impl HyperLogLog {
    /// The terms of the current estimate. They depend on the registers
    /// alone: the history plays no part.
    pub fn estimate_terms(&self) -> (found: EstimateTerms)
        requires
            self.well_formed(),
        ensures
            found == terms_of(self@.registers),
            found.registers == pow2(self@.precision),
            found.zeros == zero_count(self@.registers),
            found.inverse_sum == inverse_sum(self@.registers),
            0 < found.inverse_sum,
    {
        proof {
            self.lemma_registers_bounded();
            lemma_terms_bounds(self@.registers);
        }
        terms(self.registers())
    }
}

} // verus!
