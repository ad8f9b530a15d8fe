use pot::estimator::HyperLogLog;
use pot::fuzz::{FuzzAction, FuzzSession};
use pot::outcome::{classify, Outcome};
use rand::rngs::StdRng;
use rand::{Rng, SeedableRng};

fn fresh() -> HyperLogLog {
    HyperLogLog::new(6).unwrap()
}

fn seed_of(action: FuzzAction) -> u64 {
    match action {
        FuzzAction::Invoke(seed) => seed,
        FuzzAction::Finish => panic!("the session ended early"),
    }
}

#[test]
fn zero_iterations_finish_at_once() {
    let mut session = FuzzSession::with_seed(fresh(), 0, 1);
    assert_eq!(session.next_action(), FuzzAction::Finish);
    assert_eq!(session.next_action(), FuzzAction::Finish);
    assert_eq!(session.remaining(), 0);
    assert_eq!(session.into_estimator(), fresh());
}

#[test]
fn session_runs_the_requested_rounds() {
    let mut session = FuzzSession::with_seed(fresh(), 3, 7);
    let mut seeds = Vec::new();
    loop {
        match session.next_action() {
            FuzzAction::Finish => break,
            FuzzAction::Invoke(seed) => {
                seeds.push(seed);
                assert_eq!(session.record(Outcome::Success(seed ^ 1)), None);
            }
        }
    }
    assert_eq!(seeds.len(), 3);
    let estimator = session.into_estimator();
    assert_eq!(estimator.seeds(), &seeds);
    let hashes: Vec<u64> = seeds.iter().map(|s| s ^ 1).collect();
    assert_eq!(estimator.hashes(), &hashes);
}

#[test]
fn seeded_session_draws_what_the_generator_gives() {
    let mut session = FuzzSession::with_seed(fresh(), 4, 12345);
    let mut reference = StdRng::seed_from_u64(12345);
    for _ in 0..4 {
        let seed = seed_of(session.next_action());
        let expected: u64 = reference.gen();
        assert_eq!(seed, expected);
        assert_ne!(seed, 12345);
        session.record(Outcome::Success(0));
    }
    assert_eq!(session.next_action(), FuzzAction::Finish);
}

#[test]
fn sessions_with_the_same_seed_agree() {
    let mut one = FuzzSession::with_seed(fresh(), 5, 99);
    let mut two = FuzzSession::with_source(fresh(), 5, StdRng::seed_from_u64(99));
    for _ in 0..5 {
        let a = seed_of(one.next_action());
        let b = seed_of(two.next_action());
        assert_eq!(a, b);
        one.record(Outcome::Success(a));
        two.record(Outcome::Success(b));
    }
    assert_eq!(one.into_estimator(), two.into_estimator());
}

#[test]
fn pending_seed_is_repeated_until_recorded() {
    let mut session = FuzzSession::with_seed(fresh(), 2, 3);
    let first = session.next_action();
    assert_eq!(session.next_action(), first);
    assert_eq!(session.begin_round(77), first);
    assert_eq!(session.remaining(), 1);
    session.record(Outcome::Success(5));
    assert_eq!(session.begin_round(77), FuzzAction::Invoke(77));
    assert_eq!(session.remaining(), 0);
    session.record(Outcome::Success(6));
    assert_eq!(session.begin_round(78), FuzzAction::Finish);
    let estimator = session.into_estimator();
    assert_eq!(estimator.seeds(), &vec![seed_of(first), 77]);
    assert_eq!(estimator.hashes(), &vec![5, 6]);
}

#[test]
fn failure_is_reported_and_not_recorded() {
    let mut session = FuzzSession::with_seed(fresh(), 2, 3);
    session.begin_round(10);
    let report = session.record(Outcome::Failure(String::from("boom")));
    assert_eq!(report, Some(String::from("boom")));
    assert_eq!(session.estimator(), &fresh());
    assert_eq!(session.begin_round(11), FuzzAction::Invoke(11));
    assert_eq!(session.record(Outcome::Success(4)), None);
    assert_eq!(session.next_action(), FuzzAction::Finish);
    let estimator = session.into_estimator();
    assert_eq!(estimator.seeds(), &vec![11]);
    assert_eq!(estimator.hashes(), &vec![4]);
}

#[test]
fn sentinel_never_enters_the_estimator() {
    let mut session = FuzzSession::with_seed(fresh(), 1, 3);
    session.begin_round(10);
    let report = session.record(classify(u64::MAX, "panicked", ""));
    assert_eq!(report, Some(String::from("stdout:\npanicked\nstderr:\n")));
    let estimator = session.into_estimator();
    assert!(estimator.seeds().is_empty());
    assert!(estimator.hashes().is_empty());
    assert!(estimator.registers().iter().all(|&r| r == 0));
}

#[test]
fn outcome_without_a_round_is_dropped() {
    let mut session = FuzzSession::with_seed(fresh(), 1, 3);
    assert_eq!(session.record(Outcome::Success(9)), None);
    assert_eq!(session.record(Outcome::Failure(String::from("late"))), None);
    assert_eq!(session.remaining(), 1);
    assert_eq!(session.estimator(), &fresh());
}

#[test]
fn session_continues_a_loaded_estimator() {
    let mut estimator = fresh();
    estimator.add(1, 100);
    let mut session = FuzzSession::with_seed(estimator, 1, 3);
    session.begin_round(2);
    session.record(Outcome::Success(200));
    let estimator = session.into_estimator();
    assert_eq!(estimator.seeds(), &vec![1, 2]);
    assert_eq!(estimator.hashes(), &vec![100, 200]);
}
