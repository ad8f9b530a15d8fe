//! The cardinality estimator: `2^b` registers, each the largest rank seen
//! among the digests that fell into it, beside the full log of the
//! `(seed, output)` pairs that were added.

use crate::digest::{
    digest, digest_of, lemma_rank_locates_leading_one, lemma_register_index_in_range, locate,
    max_rank, rank_of, register_index, valid_precision, MAX_PRECISION, MIN_PRECISION,
};
use crate::snapshot::{Snapshot, SnapshotData, SnapshotError};
use vstd::arithmetic::power2::{lemma2_to64, lemma_pow2_strictly_increases, pow2};
use vstd::bits::{lemma_u64_pow2_no_overflow, lemma_u64_shl_is_mul};
use vstd::prelude::*;

verus! {

/// The width that a session starts with when nothing was saved before.
pub const DEFAULT_PRECISION: u8 = 6;

/// Why an operation on an estimator was refused.
#[derive(Debug, Clone, Copy, PartialEq, Eq, Structural)]
pub enum EstimatorError {
    /// The requested width is outside `MIN_PRECISION..=MAX_PRECISION`.
    InvalidPrecision,
    /// Two estimators of different widths cannot be merged.
    PrecisionMismatch,
}

/// The larger of two register values.
pub open spec fn higher(a: u8, b: u8) -> u8 {
    if a >= b {
        a
    } else {
        b
    }
}

/// The pairs `(seeds[i], hashes[i])`, in order.
pub open spec fn paired(seeds: Seq<u64>, hashes: Seq<u64>) -> Seq<(u64, u64)> {
    Seq::new(seeds.len(), |i: int| (seeds[i], hashes[i]))
}

/// The first components of a sequence of pairs.
pub open spec fn seeds_of(history: Seq<(u64, u64)>) -> Seq<u64> {
    Seq::new(history.len(), |i: int| history[i].0)
}

/// The second components of a sequence of pairs.
pub open spec fn hashes_of(history: Seq<(u64, u64)>) -> Seq<u64> {
    Seq::new(history.len(), |i: int| history[i].1)
}

/// The mathematical content of an estimator.
#[verifier::ext_equal]
pub struct Sketch {
    /// Width `b` of a register index.
    pub precision: nat,
    /// The `2^b` registers.
    pub registers: Seq<u8>,
    /// Every `(seed, output)` pair that was added, oldest first.
    pub history: Seq<(u64, u64)>,
}

impl Sketch {
    /// The register array has `2^b` entries, none above the largest rank.
    pub open spec fn wf(self) -> bool {
        &&& valid_precision(self.precision)
        &&& self.registers.len() == pow2(self.precision)
        &&& forall|j: int|
            0 <= j < self.registers.len() ==> #[trigger] self.registers[j] <= max_rank(
                self.precision,
            )
    }

    /// The estimator that has seen nothing.
    pub open spec fn fresh(b: nat) -> Sketch {
        Sketch {
            precision: b,
            registers: Seq::new(pow2(b), |j: int| 0u8),
            history: Seq::empty(),
        }
    }

    /// The registers once `hash` was observed: the register that its digest
    /// falls into rises to the digest's rank, unless it is there already.
    pub open spec fn registers_after(self, hash: u64) -> Seq<u8> {
        let d = digest_of(hash);
        let i = register_index(d, self.precision) as int;
        self.registers.update(i, higher(self.registers[i], rank_of(d, self.precision) as u8))
    }

    /// The estimator after one `add`.
    pub open spec fn after_add(self, seed: u64, hash: u64) -> Sketch {
        Sketch {
            precision: self.precision,
            registers: self.registers_after(hash),
            history: self.history.push((seed, hash)),
        }
    }

    /// The estimator after one `add` for each of `pairs`, in order.
    pub open spec fn after_adds(self, pairs: Seq<(u64, u64)>) -> Sketch
        decreases pairs.len(),
    {
        if pairs.len() == 0 {
            self
        } else {
            self.after_adds(pairs.drop_last()).after_add(pairs.last().0, pairs.last().1)
        }
    }

    /// The estimator after `other` was merged into it: each register is the
    /// larger of the two, and `other`'s history follows its own.
    pub open spec fn after_merge(self, other: Sketch) -> Sketch {
        Sketch {
            precision: self.precision,
            registers: Seq::new(
                self.registers.len(),
                |j: int| higher(self.registers[j], other.registers[j]),
            ),
            history: self.history + other.history,
        }
    }

    /// No register of `self` is above the same register of `later`.
    pub open spec fn below(self, later: Sketch) -> bool {
        &&& self.precision == later.precision
        &&& self.registers.len() == later.registers.len()
        &&& forall|j: int|
            0 <= j < self.registers.len() ==> self.registers[j] <= #[trigger] later.registers[j]
    }
}

/// A HyperLogLog-style estimator of the number of distinct outputs, with the
/// log of all that was added to it.
#[derive(Debug, Clone, PartialEq, Eq)]
pub struct HyperLogLog {
    precision: u8,
    registers: Vec<u8>,
    seeds: Vec<u64>,
    hashes: Vec<u64>,
}

impl View for HyperLogLog {
    type V = Sketch;

    closed spec fn view(&self) -> Sketch {
        Sketch {
            precision: self.precision as nat,
            registers: self.registers@,
            history: paired(self.seeds@, self.hashes@),
        }
    }
}

impl HyperLogLog {
    /// The invariant of every estimator this library hands out: its content
    /// is well formed, and it holds one output for each seed.
    pub closed spec fn well_formed(&self) -> bool {
        &&& self@.wf()
        &&& self.seeds@.len() == self.hashes@.len()
    }

    /// Builds an estimator of `2^precision` zeroed registers and an empty
    /// history.
    pub fn new(precision: u8) -> (made: Result<HyperLogLog, EstimatorError>)
        ensures
            valid_precision(precision as nat) ==> made is Ok && made->Ok_0.well_formed()
                && made->Ok_0@ == Sketch::fresh(precision as nat),
            !valid_precision(precision as nat) ==> made == Err::<HyperLogLog, EstimatorError>(
                EstimatorError::InvalidPrecision,
            ),
    {
        if precision < MIN_PRECISION || precision > MAX_PRECISION {
            return Err(EstimatorError::InvalidPrecision);
        }
        proof {
            lemma_u64_pow2_no_overflow(precision as nat);
            lemma_u64_shl_is_mul(1u64, precision as u64);
            lemma2_to64();
            if precision < 16 {
                lemma_pow2_strictly_increases(precision as nat, 16);
            }
        }
        let count: u64 = 1u64 << precision;
        let mut registers: Vec<u8> = Vec::new();
        let mut j: u64 = 0;
        while j < count
            invariant
                j <= count,
                registers@.len() == j,
                forall|k: int| 0 <= k < j ==> registers@[k] == 0u8,
            decreases count - j,
        {
            registers.push(0u8);
            j = j + 1;
        }
        let made = HyperLogLog { precision, registers, seeds: Vec::new(), hashes: Vec::new() };
        assert(made@ =~= Sketch::fresh(precision as nat));
        Ok(made)
    }

    /// Records one `(seed, output)` pair: raises the register that the
    /// output's digest falls into, and appends the pair to the history
    /// whether or not the register moved.
    pub fn add(&mut self, seed: u64, hash: u64)
        requires
            old(self).well_formed(),
        ensures
            final(self).well_formed(),
            final(self)@ == old(self)@.after_add(seed, hash),
    {
        let slot = locate(digest(hash), self.precision);
        let current: u8 = self.registers[slot.0];
        if slot.1 > current {
            self.registers.set(slot.0, slot.1);
        }
        self.seeds.push(seed);
        self.hashes.push(hash);
        assert(self@ =~= old(self)@.after_add(seed, hash));
    }

    /// Merges `other` into this estimator: each register becomes the larger
    /// of the two and `other`'s history is appended. Estimators of different
    /// widths are refused, and nothing changes.
    pub fn merge(&mut self, other: &HyperLogLog) -> (done: Result<(), EstimatorError>)
        requires
            old(self).well_formed(),
            other.well_formed(),
        ensures
            final(self).well_formed(),
            old(self)@.precision == other@.precision ==> done is Ok && final(self)@ == old(
                self,
            )@.after_merge(other@),
            old(self)@.precision != other@.precision ==> done == Err::<(), EstimatorError>(
                EstimatorError::PrecisionMismatch,
            ) && final(self)@ == old(self)@,
    {
        if self.precision != other.precision {
            return Err(EstimatorError::PrecisionMismatch);
        }
        let count: usize = self.registers.len();
        let mut j: usize = 0;
        while j < count
            invariant
                j <= count,
                count == old(self).registers@.len(),
                count == other.registers@.len(),
                self.registers@.len() == count,
                self.precision == old(self).precision,
                self.seeds@ == old(self).seeds@,
                self.hashes@ == old(self).hashes@,
                other.well_formed(),
                old(self).well_formed(),
                forall|k: int|
                    0 <= k < j ==> self.registers@[k] == higher(
                        old(self).registers@[k],
                        other.registers@[k],
                    ),
                forall|k: int| j <= k < count ==> self.registers@[k] == old(self).registers@[k],
            decreases count - j,
        {
            let theirs: u8 = other.registers[j];
            if theirs > self.registers[j] {
                self.registers.set(j, theirs);
            }
            j = j + 1;
        }
        let extra: usize = other.seeds.len();
        let mut k: usize = 0;
        while k < extra
            invariant
                k <= extra,
                extra == other.seeds@.len(),
                extra == other.hashes@.len(),
                self.precision == old(self).precision,
                self.registers@.len() == old(self).registers@.len(),
                forall|i: int|
                    0 <= i < self.registers@.len() ==> self.registers@[i] == higher(
                        old(self).registers@[i],
                        other.registers@[i],
                    ),
                self.seeds@ == old(self).seeds@ + other.seeds@.take(k as int),
                self.hashes@ == old(self).hashes@ + other.hashes@.take(k as int),
            decreases extra - k,
        {
            self.seeds.push(other.seeds[k]);
            self.hashes.push(other.hashes[k]);
            k = k + 1;
            assert(other.seeds@.take(k as int) =~= other.seeds@.take(k - 1).push(
                other.seeds@[k - 1],
            ));
            assert(other.hashes@.take(k as int) =~= other.hashes@.take(k - 1).push(
                other.hashes@[k - 1],
            ));
        }
        assert(other.seeds@.take(extra as int) =~= other.seeds@);
        assert(other.hashes@.take(extra as int) =~= other.hashes@);
        assert(self@ =~= old(self)@.after_merge(other@));
        Ok(())
    }

    /// Turns a snapshot into the estimator it stands for, or says what is
    /// wrong with it. The lists of the snapshot are taken over as they are.
    pub fn restore(snapshot: Snapshot) -> (loaded: Result<HyperLogLog, SnapshotError>)
        ensures
            match loaded {
                Ok(estimator) => snapshot@.well_formed() && estimator.well_formed() && estimator@
                    == snapshot@.decode(),
                Err(error) => snapshot@.defect() == Some(error),
            },
    {
        match snapshot.validate() {
            Err(error) => Err(error),
            Ok(()) => {
                let estimator = HyperLogLog {
                    precision: snapshot.precision,
                    registers: snapshot.registers,
                    seeds: snapshot.seeds,
                    hashes: snapshot.hashes,
                };
                assert(estimator@ =~= snapshot@.decode());
                Ok(estimator)
            },
        }
    }

    /// The snapshot of this estimator: a copy of its width, registers and
    /// history.
    pub fn snapshot(&self) -> (saved: Snapshot)
        requires
            self.well_formed(),
        ensures
            saved@ == SnapshotData::encode(self@),
            saved@.well_formed(),
    {
        let saved = Snapshot {
            precision: self.precision,
            registers: self.registers.clone(),
            seeds: self.seeds.clone(),
            hashes: self.hashes.clone(),
        };
        assert(saved.registers@ =~= self.registers@);
        assert(saved.seeds@ =~= self.seeds@);
        assert(saved.hashes@ =~= self.hashes@);
        assert(saved@ =~= SnapshotData::encode(self@));
        saved
    }

    /// A well-formed estimator has between 16 and 65536 registers, none of
    /// them above 61.
    pub proof fn lemma_registers_bounded(&self)
        requires
            self.well_formed(),
        ensures
            16 <= self@.registers.len() <= 65536,
            self@.registers.len() == pow2(self@.precision),
            forall|j: int|
                0 <= j < self@.registers.len() ==> #[trigger] self@.registers[j] <= 61,
    {
        lemma2_to64();
        let b = self@.precision;
        if b > 4 {
            lemma_pow2_strictly_increases(4, b);
        }
        if b < 16 {
            lemma_pow2_strictly_increases(b, 16);
        }
        assert forall|j: int| 0 <= j < self@.registers.len() implies #[trigger] self@.registers[j]
            <= 61 by {
            assert(self@.registers[j] <= max_rank(b));
        }
    }

    /// The width `b` of a register index.
    pub fn precision(&self) -> (b: u8)
        ensures
            b == self@.precision,
    {
        self.precision
    }

    /// The registers, in index order.
    pub fn registers(&self) -> (registers: &Vec<u8>)
        ensures
            registers@ == self@.registers,
    {
        &self.registers
    }

    /// The seeds of the history, oldest first.
    pub fn seeds(&self) -> (seeds: &Vec<u64>)
        requires
            self.well_formed(),
        ensures
            seeds@ == seeds_of(self@.history),
    {
        assert(self.seeds@ =~= seeds_of(self@.history));
        &self.seeds
    }

    /// The outputs of the history, oldest first: `hashes()[i]` is what the
    /// target returned for `seeds()[i]`.
    pub fn hashes(&self) -> (hashes: &Vec<u64>)
        requires
            self.well_formed(),
        ensures
            hashes@ == hashes_of(self@.history),
    {
        assert(self.hashes@ =~= hashes_of(self@.history));
        &self.hashes
    }
}

/// One `add` keeps an estimator well formed, touches only the register that
/// the output's digest falls into, and leaves that register at or above both
/// its old value and the digest's rank.
pub proof fn lemma_add_raises_one_register(s: Sketch, seed: u64, hash: u64)
    requires
        s.wf(),
    ensures
        s.after_add(seed, hash).wf(),
        s.below(s.after_add(seed, hash)),
        register_index(digest_of(hash), s.precision) < s.registers.len(),
        s.after_add(seed, hash).registers[register_index(digest_of(hash), s.precision) as int]
            >= 1,
        forall|j: int|
            0 <= j < s.registers.len() && j != register_index(digest_of(hash), s.precision)
                ==> #[trigger] s.after_add(seed, hash).registers[j] == s.registers[j],
{
    let d = digest_of(hash);
    lemma_register_index_in_range(d, s.precision);
    lemma_rank_locates_leading_one(d, s.precision);
    let after = s.after_add(seed, hash);
    let i = register_index(d, s.precision) as int;
    assert(s.registers[i] <= max_rank(s.precision));
    assert forall|j: int| 0 <= j < after.registers.len() implies #[trigger] after.registers[j]
        <= max_rank(after.precision) by {
        if j != i {
            assert(s.registers[j] <= max_rank(s.precision));
        }
    }
}

/// Registers only move up: after any sequence of `add`s, every register is
/// at or above its value after any prefix of that sequence.
pub proof fn lemma_adds_only_raise_registers(s: Sketch, pairs: Seq<(u64, u64)>, k: int)
    requires
        s.wf(),
        0 <= k <= pairs.len(),
    ensures
        s.after_adds(pairs).wf(),
        s.after_adds(pairs.take(k)).wf(),
        s.after_adds(pairs.take(k)).below(s.after_adds(pairs)),
    decreases pairs.len(),
{
    if k == pairs.len() {
        assert(pairs.take(k) =~= pairs);
        if pairs.len() > 0 {
            lemma_adds_only_raise_registers(s, pairs.drop_last(), k - 1);
            lemma_add_raises_one_register(
                s.after_adds(pairs.drop_last()),
                pairs.last().0,
                pairs.last().1,
            );
        }
    } else {
        let front = pairs.drop_last();
        assert(front.take(k) =~= pairs.take(k));
        lemma_adds_only_raise_registers(s, front, k);
        lemma_add_raises_one_register(s.after_adds(front), pairs.last().0, pairs.last().1);
        let mid = s.after_adds(front);
        let end = s.after_adds(pairs);
        let start = s.after_adds(pairs.take(k));
        assert forall|j: int| 0 <= j < start.registers.len() implies start.registers[j]
            <= #[trigger] end.registers[j] by {
            assert(start.registers[j] <= mid.registers[j]);
            assert(mid.registers[j] <= end.registers[j]);
        }
    }
}

/// The history is a faithful log: after any sequence of `add`s it is the
/// history before, followed by the arguments of each call in order. Seeds
/// and outputs stay aligned, one pair for each call.
pub proof fn lemma_history_records_every_add(s: Sketch, pairs: Seq<(u64, u64)>)
    ensures
        s.after_adds(pairs).precision == s.precision,
        s.after_adds(pairs).history == s.history + pairs,
        seeds_of(s.after_adds(pairs).history).len() == s.history.len() + pairs.len(),
        hashes_of(s.after_adds(pairs).history).len() == s.history.len() + pairs.len(),
    decreases pairs.len(),
{
    if pairs.len() == 0 {
        assert(s.history + pairs =~= s.history);
    } else {
        lemma_history_records_every_add(s, pairs.drop_last());
        assert((s.history + pairs.drop_last()).push(pairs.last()) =~= s.history + pairs);
    }
}

/// An estimator that started empty holds exactly the pairs that were added:
/// as many as there were calls, the `i`-th pair being the `i`-th call's
/// arguments.
pub proof fn lemma_fresh_history_is_the_calls(b: nat, pairs: Seq<(u64, u64)>)
    ensures
        Sketch::fresh(b).after_adds(pairs).history == pairs,
        seeds_of(Sketch::fresh(b).after_adds(pairs).history).len() == pairs.len(),
        hashes_of(Sketch::fresh(b).after_adds(pairs).history).len() == pairs.len(),
        forall|i: int|
            0 <= i < pairs.len() ==> seeds_of(Sketch::fresh(b).after_adds(pairs).history)[i]
                == pairs[i].0 && hashes_of(Sketch::fresh(b).after_adds(pairs).history)[i]
                == pairs[i].1,
{
    lemma_history_records_every_add(Sketch::fresh(b), pairs);
    assert(Sketch::fresh(b).history + pairs =~= pairs);
}

/// Merging is commutative on the registers: the order of the two estimators
/// only decides whose history comes first.
pub proof fn lemma_merge_commutes(a: Sketch, b: Sketch)
    requires
        a.wf(),
        b.wf(),
        a.precision == b.precision,
    ensures
        a.after_merge(b).registers == b.after_merge(a).registers,
        a.after_merge(b).wf(),
{
    assert(a.after_merge(b).registers =~= b.after_merge(a).registers);
    let m = a.after_merge(b);
    assert forall|j: int| 0 <= j < m.registers.len() implies #[trigger] m.registers[j]
        <= max_rank(m.precision) by {
        assert(a.registers[j] <= max_rank(a.precision));
        assert(b.registers[j] <= max_rank(b.precision));
    }
}

/// Merging is associative, on the registers and on the history.
pub proof fn lemma_merge_associates(a: Sketch, b: Sketch, c: Sketch)
    requires
        a.wf(),
        b.wf(),
        c.wf(),
        a.precision == b.precision,
        b.precision == c.precision,
    ensures
        a.after_merge(b).after_merge(c) == a.after_merge(b.after_merge(c)),
{
    assert(a.after_merge(b).after_merge(c) =~= a.after_merge(b.after_merge(c)));
}

/// Merging an estimator with itself leaves every register as it was.
pub proof fn lemma_merge_idempotent(a: Sketch)
    requires
        a.wf(),
    ensures
        a.after_merge(a).registers == a.registers,
{
    assert(a.after_merge(a).registers =~= a.registers);
}

/// Adding to the estimator that is merged in, or adding after the merge,
/// comes to the same.
pub proof fn lemma_merge_then_add(a: Sketch, b: Sketch, seed: u64, hash: u64)
    requires
        a.wf(),
        b.wf(),
        a.precision == b.precision,
    ensures
        a.after_merge(b.after_add(seed, hash)) == a.after_merge(b).after_add(seed, hash),
{
    lemma_register_index_in_range(digest_of(hash), b.precision);
    assert(a.after_merge(b.after_add(seed, hash)) =~= a.after_merge(b).after_add(seed, hash));
}

/// The merge of two estimators that started empty is the estimator that
/// would have seen both streams, one after the other.
pub proof fn lemma_merge_is_one_stream(b: nat, first: Seq<(u64, u64)>, second: Seq<(u64, u64)>)
    requires
        valid_precision(b),
    ensures
        Sketch::fresh(b).after_adds(first).after_merge(Sketch::fresh(b).after_adds(second))
            == Sketch::fresh(b).after_adds(first + second),
    decreases second.len(),
{
    let empty = Sketch::fresh(b);
    let left = empty.after_adds(first);
    lemma_adds_only_raise_registers(empty, first, 0);
    lemma_history_records_every_add(empty, first);
    if second.len() == 0 {
        assert(first + second =~= first);
        assert(left.after_merge(empty) =~= left);
    } else {
        let front = second.drop_last();
        lemma_merge_is_one_stream(b, first, front);
        lemma_adds_only_raise_registers(empty, front, 0);
        lemma_history_records_every_add(empty, front);
        lemma_merge_then_add(left, empty.after_adds(front), second.last().0, second.last().1);
        assert((first + second).drop_last() =~= first + front);
        assert((first + second).last() == second.last());
    }
}

/// Merging never lowers a register of either side.
pub proof fn lemma_merge_raises(a: Sketch, b: Sketch)
    requires
        a.wf(),
        b.wf(),
        a.precision == b.precision,
    ensures
        a.below(a.after_merge(b)),
        b.below(b.after_merge(a)),
{
}

} // verus!
