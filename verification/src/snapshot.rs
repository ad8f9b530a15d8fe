//! The durable form of an estimator: its width, its registers and its
//! history as two aligned lists. A snapshot is plain data, so anything may
//! stand in it; it becomes an estimator only after it was checked.

use crate::digest::{max_rank, valid_precision, MAX_PRECISION, MIN_PRECISION};
use crate::estimator::{hashes_of, paired, seeds_of, HyperLogLog, Sketch, DEFAULT_PRECISION};
use vstd::arithmetic::power2::{lemma2_to64, lemma_pow2_strictly_increases, pow2};
use vstd::bits::{lemma_u64_pow2_no_overflow, lemma_u64_shl_is_mul};
use vstd::prelude::*;
use vstd::string::StringExecFns;

verus! {

/// The saved state of one target's estimator.
#[derive(Debug, Clone, PartialEq, Eq)]
pub struct Snapshot {
    /// Width `b` of a register index.
    pub precision: u8,
    /// The `2^b` registers.
    pub registers: Vec<u8>,
    /// The seeds of the history, oldest first.
    pub seeds: Vec<u64>,
    /// The outputs of the history, aligned with `seeds`.
    pub hashes: Vec<u64>,
}

/// What is wrong with a snapshot.
#[derive(Debug, Clone, Copy, PartialEq, Eq, Structural)]
pub enum SnapshotError {
    /// The width is outside the supported range.
    InvalidPrecision,
    /// There are not `2^b` registers.
    RegisterCount,
    /// A register is above the largest rank of its width.
    RegisterValue,
    /// The seeds and the outputs differ in number.
    HistoryLength,
}

/// Why no estimator could be had from storage.
#[derive(Debug, Clone, Copy, PartialEq, Eq, Structural)]
pub enum LoadError {
    /// Nothing was saved for the target.
    MissingSnapshot,
    /// What was saved is no estimator.
    Malformed(SnapshotError),
}

/// The mathematical content of a snapshot.
#[verifier::ext_equal]
pub struct SnapshotData {
    /// Width `b` of a register index.
    pub precision: nat,
    /// The registers.
    pub registers: Seq<u8>,
    /// The seeds.
    pub seeds: Seq<u64>,
    /// The outputs.
    pub hashes: Seq<u64>,
}

impl SnapshotData {
    /// The first thing wrong with the snapshot, in the order in which it is
    /// checked, if anything is.
    pub open spec fn defect(self) -> Option<SnapshotError> {
        if !valid_precision(self.precision) {
            Some(SnapshotError::InvalidPrecision)
        } else if self.registers.len() != pow2(self.precision) {
            Some(SnapshotError::RegisterCount)
        } else if exists|j: int|
            0 <= j < self.registers.len() && #[trigger] self.registers[j] > max_rank(
                self.precision,
            ) {
            Some(SnapshotError::RegisterValue)
        } else if self.seeds.len() != self.hashes.len() {
            Some(SnapshotError::HistoryLength)
        } else {
            None
        }
    }

    /// Nothing is wrong with the snapshot.
    pub open spec fn well_formed(self) -> bool {
        self.defect() is None
    }

    /// The estimator that a snapshot stands for.
    pub open spec fn decode(self) -> Sketch {
        Sketch {
            precision: self.precision,
            registers: self.registers,
            history: paired(self.seeds, self.hashes),
        }
    }

    /// The snapshot of an estimator.
    pub open spec fn encode(sketch: Sketch) -> SnapshotData {
        SnapshotData {
            precision: sketch.precision,
            registers: sketch.registers,
            seeds: seeds_of(sketch.history),
            hashes: hashes_of(sketch.history),
        }
    }
}

impl View for Snapshot {
    type V = SnapshotData;

    open spec fn view(&self) -> SnapshotData {
        SnapshotData {
            precision: self.precision as nat,
            registers: self.registers@,
            seeds: self.seeds@,
            hashes: self.hashes@,
        }
    }
}

impl Snapshot {
    /// Checks a snapshot: the width, then the number of registers, then
    /// their values, then the alignment of the history. The first defect
    /// found is the error.
    pub fn validate(&self) -> (checked: Result<(), SnapshotError>)
        ensures
            checked is Ok <==> self@.well_formed(),
            checked is Err ==> self@.defect() == Some(checked->Err_0),
    {
        if self.precision < MIN_PRECISION || self.precision > MAX_PRECISION {
            return Err(SnapshotError::InvalidPrecision);
        }
        proof {
            lemma_u64_pow2_no_overflow(self.precision as nat);
            lemma_u64_shl_is_mul(1u64, self.precision as u64);
            lemma2_to64();
            if self.precision < 16 {
                lemma_pow2_strictly_increases(self.precision as nat, 16);
            }
        }
        let count: u64 = 1u64 << self.precision;
        if self.registers.len() as u64 != count {
            return Err(SnapshotError::RegisterCount);
        }
        let limit: u8 = 65 - self.precision;
        let mut j: usize = 0;
        while j < self.registers.len()
            invariant
                j <= self.registers@.len(),
                valid_precision(self.precision as nat),
                self.registers@.len() == pow2(self.precision as nat),
                limit == max_rank(self.precision as nat),
                forall|k: int| 0 <= k < j ==> #[trigger] self.registers@[k] <= limit,
            decreases self.registers@.len() - j,
        {
            if self.registers[j] > limit {
                assert(self@.registers[j as int] > max_rank(self@.precision));
                return Err(SnapshotError::RegisterValue);
            }
            j = j + 1;
        }
        if self.seeds.len() != self.hashes.len() {
            return Err(SnapshotError::HistoryLength);
        }
        Ok(())
    }
}

/// The estimator that a fuzzing session starts from: the saved one if there
/// is one, a fresh one of the default width if there is none. Only a
/// malformed snapshot is an error.
pub fn resume(saved: Option<Snapshot>) -> (loaded: Result<HyperLogLog, SnapshotError>)
    ensures
        match saved {
            None => loaded is Ok && loaded->Ok_0.well_formed() && loaded->Ok_0@ == Sketch::fresh(
                DEFAULT_PRECISION as nat,
            ),
            Some(snapshot) => match loaded {
                Ok(estimator) => snapshot@.well_formed() && estimator.well_formed() && estimator@
                    == snapshot@.decode(),
                Err(error) => snapshot@.defect() == Some(error),
            },
        },
{
    match saved {
        None => match HyperLogLog::new(DEFAULT_PRECISION) {
            Ok(estimator) => Ok(estimator),
            Err(_) => Err(SnapshotError::InvalidPrecision),
        },
        Some(snapshot) => HyperLogLog::restore(snapshot),
    }
}

/// The estimator whose history is to be replayed. Without a snapshot there
/// is nothing to verify, which is an error of its own.
pub fn recorded(saved: Option<Snapshot>) -> (loaded: Result<HyperLogLog, LoadError>)
    ensures
        match saved {
            None => loaded == Err::<HyperLogLog, LoadError>(LoadError::MissingSnapshot),
            Some(snapshot) => match loaded {
                Ok(estimator) => snapshot@.well_formed() && estimator.well_formed() && estimator@
                    == snapshot@.decode(),
                Err(error) => snapshot@.defect() is Some && error == LoadError::Malformed(
                    snapshot@.defect()->Some_0,
                ),
            },
        },
{
    match saved {
        None => Err(LoadError::MissingSnapshot),
        Some(snapshot) => match HyperLogLog::restore(snapshot) {
            Ok(estimator) => Ok(estimator),
            Err(error) => Err(LoadError::Malformed(error)),
        },
    }
}

/// The name under which a target's snapshot is kept: the target's name with
/// `.json` behind it.
pub fn snapshot_name(target: &str) -> (name: String)
    ensures
        name@ == target@ + ".json"@,
{
    String::from_str(target).concat(".json")
}

/// Saving what was loaded gives back the snapshot: a well-formed snapshot
/// survives the way through an estimator unchanged, registers and history,
/// an empty history included.
pub proof fn lemma_save_after_load(snapshot: SnapshotData)
    requires
        snapshot.well_formed(),
    ensures
        snapshot.decode().wf(),
        SnapshotData::encode(snapshot.decode()) == snapshot,
{
    assert(SnapshotData::encode(snapshot.decode()) =~= snapshot);
}

/// Loading what was saved gives back the estimator.
pub proof fn lemma_load_after_save(sketch: Sketch)
    requires
        sketch.wf(),
    ensures
        SnapshotData::encode(sketch).well_formed(),
        SnapshotData::encode(sketch).decode() == sketch,
{
    assert(SnapshotData::encode(sketch).decode() =~= sketch);
}

} // verus!
