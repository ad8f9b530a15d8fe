use pot::digest::{digest, locate};
use pot::estimator::{EstimatorError, HyperLogLog};

fn filled(precision: u8, pairs: &[(u64, u64)]) -> HyperLogLog {
    let mut estimator = HyperLogLog::new(precision).unwrap();
    for &(seed, hash) in pairs {
        estimator.add(seed, hash);
    }
    estimator
}

#[test]
fn digest_has_known_values() {
    assert_eq!(digest(0), 0);
    assert_eq!(digest(1), 0x5692161d100b05e5);
    assert_eq!(digest(42), 0xa759ea27d4727622);
    assert_eq!(digest(u64::MAX), 0xb4d055fcf2cbbd7b);
    assert_ne!(digest(100), 100);
}

#[test]
fn locate_splits_index_and_rank() {
    assert_eq!(locate(0x5692161d100b05e5, 6), (21, 1));
    assert_eq!(locate(0x5692161d100b05e5, 4), (5, 2));
    assert_eq!(locate(0x5692161d100b05e5, 16), (22162, 4));
    assert_eq!(locate(0xb4d055fcf2cbbd7b, 6), (45, 3));
}

#[test]
fn locate_caps_rank_of_empty_tail() {
    assert_eq!(locate(0, 6), (0, 59));
    assert_eq!(locate(0, 4), (0, 61));
    assert_eq!(locate(0, 16), (0, 49));
    assert_eq!(locate(u64::MAX, 6), (63, 1));
    assert_eq!(locate(1, 6), (0, 58));
    assert_eq!(locate(1 << 58, 6), (1, 59));
}

#[test]
fn new_builds_zeroed_registers() {
    let estimator = HyperLogLog::new(6).unwrap();
    assert_eq!(estimator.precision(), 6);
    assert_eq!(estimator.registers().len(), 64);
    assert!(estimator.registers().iter().all(|&r| r == 0));
    assert!(estimator.seeds().is_empty());
    assert!(estimator.hashes().is_empty());
}

#[test]
fn new_accepts_the_whole_supported_range() {
    assert_eq!(HyperLogLog::new(4).unwrap().registers().len(), 16);
    assert_eq!(HyperLogLog::new(16).unwrap().registers().len(), 65536);
}

#[test]
fn new_rejects_precision_out_of_range() {
    assert_eq!(HyperLogLog::new(3).unwrap_err(), EstimatorError::InvalidPrecision);
    assert_eq!(HyperLogLog::new(17).unwrap_err(), EstimatorError::InvalidPrecision);
    assert_eq!(HyperLogLog::new(0).unwrap_err(), EstimatorError::InvalidPrecision);
    assert_eq!(HyperLogLog::new(255).unwrap_err(), EstimatorError::InvalidPrecision);
}

#[test]
fn single_add_raises_exactly_one_register() {
    let mut estimator = HyperLogLog::new(6).unwrap();
    estimator.add(9, 1);
    let raised: Vec<usize> =
        (0..64).filter(|&j| estimator.registers()[j] != 0).collect();
    assert_eq!(raised, vec![21]);
    assert_eq!(estimator.registers()[21], 1);
    assert_eq!(estimator.seeds(), &vec![9]);
    assert_eq!(estimator.hashes(), &vec![1]);
}

#[test]
fn add_uses_the_digest_not_the_raw_output() {
    let mut estimator = HyperLogLog::new(6).unwrap();
    estimator.add(0, u64::MAX);
    assert_eq!(estimator.registers()[45], 3);
    assert_eq!(estimator.registers()[63], 0);
}

#[test]
fn add_keeps_the_larger_rank() {
    let mut estimator = HyperLogLog::new(6).unwrap();
    estimator.add(1, 0);
    assert_eq!(estimator.registers()[0], 59);
    let before = estimator.registers().clone();
    estimator.add(2, 0);
    assert_eq!(estimator.registers(), &before);
    assert_eq!(estimator.seeds(), &vec![1, 2]);
    assert_eq!(estimator.hashes(), &vec![0, 0]);
}

#[test]
fn history_grows_when_register_is_unchanged() {
    let mut estimator = HyperLogLog::new(6).unwrap();
    estimator.add(7, 42);
    let before = estimator.registers().clone();
    estimator.add(8, 101);
    assert_eq!(estimator.registers(), &before);
    assert_eq!(estimator.seeds().len(), 2);
    assert_eq!(estimator.hashes().len(), 2);
}

#[test]
fn history_records_every_call_in_order() {
    let pairs = [(5, 1), (4, 2), (5, 1), (0, u64::MAX), (u64::MAX, 0), (3, 42)];
    let estimator = filled(6, &pairs);
    assert_eq!(estimator.seeds().len(), pairs.len());
    assert_eq!(estimator.hashes().len(), pairs.len());
    for (i, &(seed, hash)) in pairs.iter().enumerate() {
        assert_eq!(estimator.seeds()[i], seed);
        assert_eq!(estimator.hashes()[i], hash);
    }
}

#[test]
fn registers_only_move_up() {
    let hashes = [1u64, 2, 42, 100, 101, 7, 12345, 0xdeadbeef, 5, 6, 8, 9, 10, 11];
    let mut estimator = HyperLogLog::new(6).unwrap();
    let mut before = estimator.registers().clone();
    for (seed, &hash) in hashes.iter().enumerate() {
        estimator.add(seed as u64, hash);
        let after = estimator.registers().clone();
        assert!(before.iter().zip(after.iter()).all(|(b, a)| b <= a));
        before = after;
    }
    assert_eq!(estimator.registers()[13], 4);
    assert_eq!(estimator.registers()[52], 2);
    assert_eq!(estimator.registers()[41], 1);
}

#[test]
fn merge_takes_the_larger_register_and_appends_history() {
    let mut left = filled(6, &[(1, 1), (2, 0)]);
    let right = filled(6, &[(3, u64::MAX), (4, 1)]);
    assert_eq!(left.merge(&right), Ok(()));
    assert_eq!(left.registers()[0], 59);
    assert_eq!(left.registers()[21], 1);
    assert_eq!(left.registers()[45], 3);
    assert_eq!(left.seeds(), &vec![1, 2, 3, 4]);
    assert_eq!(left.hashes(), &vec![1, 0, u64::MAX, 1]);
}

#[test]
fn merge_is_commutative_on_registers() {
    let a = filled(5, &[(1, 10), (2, 20), (3, 30)]);
    let b = filled(5, &[(4, 40), (5, 50), (6, 10)]);
    let mut ab = a.clone();
    ab.merge(&b).unwrap();
    let mut ba = b.clone();
    ba.merge(&a).unwrap();
    assert_eq!(ab.registers(), ba.registers());
    assert_eq!(ab.seeds(), &vec![1, 2, 3, 4, 5, 6]);
    assert_eq!(ba.seeds(), &vec![4, 5, 6, 1, 2, 3]);
}

#[test]
fn merge_is_associative() {
    let a = filled(4, &[(1, 10), (2, 20)]);
    let b = filled(4, &[(3, 30)]);
    let c = filled(4, &[(4, 40), (5, 0)]);
    let mut left = a.clone();
    left.merge(&b).unwrap();
    left.merge(&c).unwrap();
    let mut bc = b.clone();
    bc.merge(&c).unwrap();
    let mut right = a.clone();
    right.merge(&bc).unwrap();
    assert_eq!(left, right);
}

#[test]
fn merge_with_itself_keeps_registers() {
    let a = filled(6, &[(1, 10), (2, 20), (3, 0)]);
    let mut doubled = a.clone();
    doubled.merge(&a).unwrap();
    assert_eq!(doubled.registers(), a.registers());
    assert_eq!(doubled.seeds(), &vec![1, 2, 3, 1, 2, 3]);
}

#[test]
fn merge_equals_one_stream() {
    let first = [(1, 10), (2, 20), (3, 0)];
    let second = [(4, 7), (5, 12345)];
    let mut merged = filled(6, &first);
    merged.merge(&filled(6, &second)).unwrap();
    let mut all = first.to_vec();
    all.extend_from_slice(&second);
    assert_eq!(merged, filled(6, &all));
}

#[test]
fn merge_rejects_different_precision() {
    let mut a = filled(6, &[(1, 10)]);
    let before = a.clone();
    let b = filled(7, &[(2, 20)]);
    assert_eq!(a.merge(&b), Err(EstimatorError::PrecisionMismatch));
    assert_eq!(a, before);
}
