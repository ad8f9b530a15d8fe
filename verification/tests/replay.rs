use pot::estimator::HyperLogLog;
use pot::outcome::{classify, Outcome};
use pot::replay::{ReplayAction, ReplaySession, VerificationMismatch};
use pot::snapshot::{recorded, Snapshot};

fn history(pairs: &[(u64, u64)]) -> HyperLogLog {
    let mut estimator = HyperLogLog::new(6).unwrap();
    for &(seed, hash) in pairs {
        estimator.add(seed, hash);
    }
    estimator
}

fn target(seed: u64) -> u64 {
    seed.wrapping_mul(0x9e3779b97f4a7c15) >> 3
}

#[test]
fn verify_mismatch_stops_at_the_first_pair() {
    let snapshot = Snapshot { precision: 6, registers: vec![0; 64], seeds: vec![42], hashes: vec![100] };
    let mut session = ReplaySession::new(recorded(Some(snapshot)).unwrap());
    assert_eq!(session.next_action(), ReplayAction::Invoke(42));
    let verdict = session.check(Outcome::Success(101));
    assert_eq!(
        verdict,
        Err(VerificationMismatch { seed: 42, expected: 100, actual: Outcome::Success(101) })
    );
    assert_eq!(session.next_action(), ReplayAction::Failed);
}

#[test]
fn verify_mismatch_scans_no_further_pairs() {
    let mut session = ReplaySession::new(history(&[(42, 100), (43, 200), (44, 300)]));
    assert_eq!(session.next_action(), ReplayAction::Invoke(42));
    assert!(session.check(Outcome::Success(101)).is_err());
    assert_eq!(session.next_action(), ReplayAction::Failed);
    assert_eq!(session.check(Outcome::Success(200)), Ok(()));
    assert_eq!(session.next_action(), ReplayAction::Failed);
    assert_eq!(session.position(), 0);
}

#[test]
fn replay_passes_when_every_pair_matches() {
    let mut session = ReplaySession::new(history(&[(42, 100), (43, 200)]));
    assert_eq!(session.next_action(), ReplayAction::Invoke(42));
    assert_eq!(session.check(Outcome::Success(100)), Ok(()));
    assert_eq!(session.next_action(), ReplayAction::Invoke(43));
    assert_eq!(session.check(Outcome::Success(200)), Ok(()));
    assert_eq!(session.next_action(), ReplayAction::Passed);
    assert_eq!(session.position(), 2);
}

#[test]
fn replay_of_empty_history_passes() {
    let session = ReplaySession::new(HyperLogLog::new(6).unwrap());
    assert_eq!(session.next_action(), ReplayAction::Passed);
}

#[test]
fn replay_fails_on_a_target_failure() {
    let mut session = ReplaySession::new(history(&[(1, 10), (2, 20)]));
    assert_eq!(session.check(Outcome::Success(10)), Ok(()));
    let verdict = session.check(classify(u64::MAX, "", "assertion failed"));
    assert_eq!(
        verdict,
        Err(VerificationMismatch {
            seed: 2,
            expected: 20,
            actual: Outcome::Failure(String::from("stdout:\n\nstderr:\nassertion failed")),
        })
    );
    assert_eq!(session.next_action(), ReplayAction::Failed);
    assert_eq!(session.position(), 1);
}

#[test]
fn replay_follows_the_recorded_order() {
    let mut session = ReplaySession::new(history(&[(9, 1), (3, 2), (9, 1), (5, 4)]));
    let mut invoked = Vec::new();
    while let ReplayAction::Invoke(seed) = session.next_action() {
        invoked.push(seed);
        let hash = match seed {
            9 => 1,
            3 => 2,
            _ => 4,
        };
        assert_eq!(session.check(Outcome::Success(hash)), Ok(()));
    }
    assert_eq!(invoked, vec![9, 3, 9, 5]);
    assert_eq!(session.next_action(), ReplayAction::Passed);
}

#[test]
fn deterministic_target_reproduces_its_recording() {
    let mut estimator = HyperLogLog::new(6).unwrap();
    for seed in [3u64, 1, 4, 1, 5, 9, 2, 6] {
        match classify(target(seed), "", "") {
            Outcome::Success(hash) => estimator.add(seed, hash),
            Outcome::Failure(_) => {}
        }
    }
    let mut session = ReplaySession::new(estimator);
    let mut rounds = 0;
    while let ReplayAction::Invoke(seed) = session.next_action() {
        assert_eq!(session.check(classify(target(seed), "", "")), Ok(()));
        rounds += 1;
    }
    assert_eq!(rounds, 8);
    assert_eq!(session.next_action(), ReplayAction::Passed);
}

#[test]
fn check_after_the_end_changes_nothing() {
    let mut session = ReplaySession::new(history(&[(1, 10)]));
    assert_eq!(session.check(Outcome::Success(10)), Ok(()));
    assert_eq!(session.check(Outcome::Success(11)), Ok(()));
    assert_eq!(session.next_action(), ReplayAction::Passed);
    assert_eq!(session.position(), 1);
}
