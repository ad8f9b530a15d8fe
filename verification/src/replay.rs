//! Replay of a recorded history: every seed goes to the target again, in the
//! recorded order, and the first outcome that is not the recorded output
//! ends the replay. Invoking the target is the caller's part.

use crate::estimator::{hashes_of, seeds_of, HyperLogLog, Sketch};
use crate::fuzz::{recorded_pairs, FuzzState, lemma_rounds_record_successes};
use crate::outcome::Outcome;
use vstd::prelude::*;

verus! {

/// The first point at which the target no longer did what was recorded.
#[derive(Debug, Clone, PartialEq, Eq)]
pub struct VerificationMismatch {
    /// The seed that was replayed.
    pub seed: u64,
    /// The output recorded for it.
    pub expected: u64,
    /// What the target did this time.
    pub actual: Outcome,
}

/// What the caller of a replay does next.
#[derive(Debug, Clone, Copy, PartialEq, Eq, Structural)]
pub enum ReplayAction {
    /// Invoke the target with this seed and hand the outcome to `check`.
    Invoke(u64),
    /// Every recorded pair was reproduced.
    Passed,
    /// A mismatch was found; nothing more is to be invoked.
    Failed,
}

/// The mathematical content of a replay.
pub struct ReplayState {
    /// The recorded pairs, oldest first.
    pub history: Seq<(u64, u64)>,
    /// How many pairs have been reproduced.
    pub position: nat,
    /// Whether a mismatch has ended the replay.
    pub halted: bool,
}

impl ReplayState {
    /// A replay before its first invocation.
    pub open spec fn start(history: Seq<(u64, u64)>) -> ReplayState {
        ReplayState { history, position: 0, halted: false }
    }

    /// An outcome is awaited: the replay has not failed and a pair is left.
    pub open spec fn expects(self) -> bool {
        !self.halted && self.position < self.history.len()
    }

    /// What the caller is told to do.
    pub open spec fn action(self) -> ReplayAction {
        if self.halted {
            ReplayAction::Failed
        } else if self.position < self.history.len() {
            ReplayAction::Invoke(self.history[self.position as int].0)
        } else {
            ReplayAction::Passed
        }
    }

    /// The state after `outcome` was held against the awaited pair: on to
    /// the next pair if it reproduces the recorded output, halted if not.
    /// When no outcome is awaited nothing changes.
    pub open spec fn check(self, outcome: Outcome) -> ReplayState {
        if !self.expects() {
            self
        } else if outcome.reproduces(self.history[self.position as int].1) {
            ReplayState { history: self.history, position: self.position + 1, halted: false }
        } else {
            ReplayState { history: self.history, position: self.position, halted: true }
        }
    }

    /// The state after each of `outcomes` was checked in turn.
    pub open spec fn after_checks(self, outcomes: Seq<Outcome>) -> ReplayState
        decreases outcomes.len(),
    {
        if outcomes.len() == 0 {
            self
        } else {
            self.after_checks(outcomes.drop_last()).check(outcomes.last())
        }
    }
}

/// A replay in progress over the history of an estimator.
#[derive(Debug, Clone)]
pub struct ReplaySession {
    estimator: HyperLogLog,
    position: usize,
    halted: bool,
}

impl View for ReplaySession {
    type V = ReplayState;

    closed spec fn view(&self) -> ReplayState {
        ReplayState {
            history: self.estimator@.history,
            position: self.position as nat,
            halted: self.halted,
        }
    }
}

impl ReplaySession {
    /// The invariant of every replay: its estimator is well formed and its
    /// position lies within the history.
    pub closed spec fn well_formed(&self) -> bool {
        &&& self.estimator.well_formed()
        &&& self.position <= self.estimator@.history.len()
    }

    /// Starts a replay of all that `estimator` has recorded.
    pub fn new(estimator: HyperLogLog) -> (session: ReplaySession)
        requires
            estimator.well_formed(),
        ensures
            session.well_formed(),
            session@ == ReplayState::start(estimator@.history),
    {
        ReplaySession { estimator, position: 0, halted: false }
    }

    /// Says what to do next: the seed to invoke, or how the replay ended.
    pub fn next_action(&self) -> (action: ReplayAction)
        requires
            self.well_formed(),
        ensures
            action == self@.action(),
    {
        if self.halted {
            ReplayAction::Failed
        } else if self.position < self.estimator.seeds().len() {
            ReplayAction::Invoke(self.estimator.seeds()[self.position])
        } else {
            ReplayAction::Passed
        }
    }

    /// Holds `outcome` against the awaited pair. A success with the
    /// recorded output moves the replay on. Anything else, a failure or
    /// another output, halts it for good and comes back as the mismatch.
    /// When no outcome is awaited the call changes nothing.
    pub fn check(&mut self, outcome: Outcome) -> (verdict: Result<(), VerificationMismatch>)
        requires
            old(self).well_formed(),
        ensures
            final(self).well_formed(),
            final(self)@ == old(self)@.check(outcome),
            verdict is Err <==> old(self)@.expects() && !outcome.reproduces(
                old(self)@.history[old(self)@.position as int].1,
            ),
            verdict is Err ==> verdict->Err_0.seed == old(self)@.history[old(
                self,
            )@.position as int].0 && verdict->Err_0.expected == old(self)@.history[old(
                self,
            )@.position as int].1 && verdict->Err_0.actual == outcome,
    {
        if self.halted || self.position >= self.estimator.seeds().len() {
            return Ok(());
        }
        let seed: u64 = self.estimator.seeds()[self.position];
        let expected: u64 = self.estimator.hashes()[self.position];
        if outcome.matches_hash(expected) {
            self.position = self.position + 1;
            Ok(())
        } else {
            self.halted = true;
            Err(VerificationMismatch { seed, expected, actual: outcome })
        }
    }

    /// How many pairs have been reproduced so far.
    pub fn position(&self) -> (count: usize)
        ensures
            count == self@.position,
    {
        self.position
    }
}

/// A faithful replay passes: if every outcome is the success with the
/// recorded output, the replay runs through the whole history and ends in
/// `Passed`.
pub proof fn lemma_faithful_replay_passes(history: Seq<(u64, u64)>, outcomes: Seq<Outcome>)
    requires
        outcomes.len() <= history.len(),
        forall|i: int| 0 <= i < outcomes.len() ==> (#[trigger] outcomes[i]).reproduces(history[i].1),
    ensures
        ReplayState::start(history).after_checks(outcomes) == (ReplayState {
            history,
            position: outcomes.len(),
            halted: false,
        }),
        outcomes.len() == history.len() ==> ReplayState::start(history).after_checks(
            outcomes,
        ).action() == ReplayAction::Passed,
    decreases outcomes.len(),
{
    if outcomes.len() > 0 {
        let front = outcomes.drop_last();
        assert forall|i: int| 0 <= i < front.len() implies (#[trigger] front[i]).reproduces(
            history[i].1,
        ) by {
            assert(front[i] == outcomes[i]);
        }
        lemma_faithful_replay_passes(history, front);
        assert(outcomes.last() == outcomes[outcomes.len() - 1]);
    }
}

/// The first divergence ends the replay: if the outcomes reproduce the
/// history up to pair `i` and not at `i`, the replay halts there with
/// `Failed`, whatever outcomes follow.
pub proof fn lemma_replay_halts_at_first_divergence(
    history: Seq<(u64, u64)>,
    outcomes: Seq<Outcome>,
    i: int,
)
    requires
        0 <= i < history.len(),
        i < outcomes.len(),
        forall|j: int| 0 <= j < i ==> (#[trigger] outcomes[j]).reproduces(history[j].1),
        !outcomes[i].reproduces(history[i].1),
    ensures
        ReplayState::start(history).after_checks(outcomes) == (ReplayState {
            history,
            position: i as nat,
            halted: true,
        }),
        ReplayState::start(history).after_checks(outcomes).action() == ReplayAction::Failed,
    decreases outcomes.len(),
{
    let front = outcomes.drop_last();
    if outcomes.len() == i + 1 {
        assert forall|j: int| 0 <= j < front.len() implies (#[trigger] front[j]).reproduces(
            history[j].1,
        ) by {
            assert(front[j] == outcomes[j]);
        }
        lemma_faithful_replay_passes(history, front);
        assert(outcomes.last() == outcomes[i]);
    } else {
        assert forall|j: int| 0 <= j < i implies (#[trigger] front[j]).reproduces(
            history[j].1,
        ) by {
            assert(front[j] == outcomes[j]);
        }
        assert(front[i] == outcomes[i]);
        lemma_replay_halts_at_first_divergence(history, front, i);
    }
}

/// What a deterministic target does with each seed of a history.
pub open spec fn replayed(target: spec_fn(u64) -> Outcome, history: Seq<(u64, u64)>) -> Seq<
    Outcome,
> {
    Seq::new(history.len(), |i: int| target(history[i].0))
}

/// Every pair that a run of rounds records is a seed with the output that
/// the target gave for it.
pub proof fn lemma_recorded_pairs_are_target_outputs(
    target: spec_fn(u64) -> Outcome,
    seeds: Seq<u64>,
)
    ensures
        forall|i: int|
            0 <= i < recorded_pairs(seeds, seeds.map_values(target)).len() ==> target(
                (#[trigger] recorded_pairs(seeds, seeds.map_values(target))[i]).0,
            ) == Outcome::Success(recorded_pairs(seeds, seeds.map_values(target))[i].1),
    decreases seeds.len(),
{
    let outcomes = seeds.map_values(target);
    if seeds.len() > 0 {
        assert(outcomes.drop_last() =~= seeds.drop_last().map_values(target));
        lemma_recorded_pairs_are_target_outputs(target, seeds.drop_last());
        assert(outcomes.last() == target(seeds.last()));
    }
}

/// Replay determinism: a history recorded by fuzzing a deterministic target
/// from an empty estimator is reproduced by that target, pair for pair, so
/// its replay passes.
pub proof fn lemma_recording_replays(target: spec_fn(u64) -> Outcome, b: nat, seeds: Seq<u64>)
    ensures
        ({
            let recorded = FuzzState::begin(Sketch::fresh(b), seeds.len()).after_rounds(
                seeds,
                seeds.map_values(target),
            ).estimator.history;
            let again = replayed(target, recorded);
            &&& recorded == recorded_pairs(seeds, seeds.map_values(target))
            &&& forall|i: int|
                0 <= i < recorded.len() ==> target(#[trigger] seeds_of(recorded)[i])
                    == Outcome::Success(hashes_of(recorded)[i])
            &&& ReplayState::start(recorded).after_checks(again).action() == ReplayAction::Passed
        }),
{
    let outcomes = seeds.map_values(target);
    let start = FuzzState::begin(Sketch::fresh(b), seeds.len());
    lemma_rounds_record_successes(start, seeds, outcomes);
    let pairs = recorded_pairs(seeds, outcomes);
    crate::estimator::lemma_fresh_history_is_the_calls(b, pairs);
    let recorded = start.after_rounds(seeds, outcomes).estimator.history;
    assert(recorded == pairs);
    lemma_recorded_pairs_are_target_outputs(target, seeds);
    let again = replayed(target, recorded);
    assert forall|i: int| 0 <= i < again.len() implies (#[trigger] again[i]).reproduces(
        recorded[i].1,
    ) by {
        assert(target(pairs[i].0) == Outcome::Success(pairs[i].1));
    }
    lemma_faithful_replay_passes(recorded, again);
    assert forall|i: int| 0 <= i < recorded.len() implies target(#[trigger] seeds_of(recorded)[i])
        == Outcome::Success(hashes_of(recorded)[i]) by {
        assert(target(pairs[i].0) == Outcome::Success(pairs[i].1));
    }
}

} // verus!
