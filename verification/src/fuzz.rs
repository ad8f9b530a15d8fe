//! The fuzz loop as a state machine. The session decides: which seed goes to
//! the target next, what an outcome does to the estimator, when the rounds
//! are over. Invoking the target and printing are the caller's part.

use crate::estimator::{HyperLogLog, Sketch};
use crate::outcome::Outcome;
use rand::rngs::StdRng;
use rand::{Rng, SeedableRng};
use vstd::prelude::*;

verus! {

/// The generator that seeds are drawn from, `rand::rngs::StdRng`. Its state
/// is opaque here.
#[verifier::external_type_specification]
#[verifier::external_body]
pub struct ExStdRng(rand::rngs::StdRng);

/// Calls `rand::SeedableRng::seed_from_u64` for `StdRng`. Nothing is claimed
/// of the generator that comes back.
#[verifier::external_body]
fn seeded_source(seed: u64) -> (source: StdRng) {
    StdRng::seed_from_u64(seed)
}

/// Calls `rand::Rng::gen::<u64>` on the generator, which advances it.
/// Nothing is claimed of the number drawn.
#[verifier::external_body]
fn draw_seed(source: &mut StdRng) -> (seed: u64) {
    source.gen()
}

/// What the caller of a session does next.
#[derive(Debug, Clone, Copy, PartialEq, Eq, Structural)]
pub enum FuzzAction {
    /// Invoke the target with this seed and hand the outcome to `record`.
    Invoke(u64),
    /// All rounds are done: persist the estimator.
    Finish,
}

/// The mathematical content of a session.
pub struct FuzzState {
    /// The estimator as it stands.
    pub estimator: Sketch,
    /// Rounds that have not started yet.
    pub remaining: nat,
    /// The seed of the round in flight, if one is.
    pub pending: Option<u64>,
}

impl FuzzState {
    /// A session before its first round.
    pub open spec fn begin(estimator: Sketch, iterations: nat) -> FuzzState {
        FuzzState { estimator, remaining: iterations, pending: None }
    }

    /// A new round can start: none is in flight and some are left.
    pub open spec fn awaits_seed(self) -> bool {
        self.pending is None && self.remaining > 0
    }

    /// What the caller is told to do in a state where no seed is to be
    /// drawn.
    pub open spec fn standing_action(self) -> FuzzAction {
        match self.pending {
            Some(seed) => FuzzAction::Invoke(seed),
            None => FuzzAction::Finish,
        }
    }

    /// The state once a round has started with `seed`.
    pub open spec fn issue(self, seed: u64) -> FuzzState {
        FuzzState {
            estimator: self.estimator,
            remaining: (self.remaining - 1) as nat,
            pending: Some(seed),
        }
    }

    /// The state once the round in flight has ended with `outcome`: a
    /// success is added to the estimator under the round's seed, a failure
    /// leaves the estimator alone. With no round in flight nothing changes.
    pub open spec fn settle(self, outcome: Outcome) -> FuzzState {
        match self.pending {
            None => self,
            Some(seed) => FuzzState {
                estimator: match outcome {
                    Outcome::Success(hash) => self.estimator.after_add(seed, hash),
                    Outcome::Failure(_) => self.estimator,
                },
                remaining: self.remaining,
                pending: None,
            },
        }
    }

    /// The state after one full round for each seed, `outcomes[i]` being
    /// what the target did with `seeds[i]`.
    pub open spec fn after_rounds(self, seeds: Seq<u64>, outcomes: Seq<Outcome>) -> FuzzState
        decreases seeds.len(),
    {
        if seeds.len() == 0 || outcomes.len() != seeds.len() {
            self
        } else {
            self.after_rounds(seeds.drop_last(), outcomes.drop_last()).issue(seeds.last()).settle(
                outcomes.last(),
            )
        }
    }
}

/// The pairs that a run of rounds adds to the estimator: each seed whose
/// outcome was a success, with its output, in order.
pub open spec fn recorded_pairs(seeds: Seq<u64>, outcomes: Seq<Outcome>) -> Seq<(u64, u64)>
    decreases seeds.len(),
{
    if seeds.len() == 0 || outcomes.len() != seeds.len() {
        Seq::empty()
    } else {
        let front = recorded_pairs(seeds.drop_last(), outcomes.drop_last());
        match outcomes.last() {
            Outcome::Success(hash) => front.push((seeds.last(), hash)),
            Outcome::Failure(_) => front,
        }
    }
}

/// One fuzzing session: an estimator, a number of rounds still to run, and
/// the generator that the seeds come from.
pub struct FuzzSession {
    estimator: HyperLogLog,
    remaining: u64,
    pending: Option<u64>,
    source: StdRng,
}

impl View for FuzzSession {
    type V = FuzzState;

    closed spec fn view(&self) -> FuzzState {
        FuzzState {
            estimator: self.estimator@,
            remaining: self.remaining as nat,
            pending: self.pending,
        }
    }
}

impl FuzzSession {
    /// The invariant of every session: its estimator is well formed.
    pub closed spec fn well_formed(&self) -> bool {
        self.estimator.well_formed()
    }

    /// Starts a reproducible session: the seeds are drawn from a generator
    /// seeded with `seed`.
    pub fn with_seed(estimator: HyperLogLog, iterations: u64, seed: u64) -> (session: FuzzSession)
        requires
            estimator.well_formed(),
        ensures
            session.well_formed(),
            session@ == FuzzState::begin(estimator@, iterations as nat),
    {
        FuzzSession::with_source(estimator, iterations, seeded_source(seed))
    }

    /// Starts a session that draws its seeds from `source`.
    pub fn with_source(estimator: HyperLogLog, iterations: u64, source: StdRng) -> (session:
        FuzzSession)
        requires
            estimator.well_formed(),
        ensures
            session.well_formed(),
            session@ == FuzzState::begin(estimator@, iterations as nat),
    {
        FuzzSession { estimator, remaining: iterations, pending: None, source }
    }

    /// Starts a round with `seed` if one can start; otherwise repeats the
    /// standing instruction and changes nothing.
    pub fn begin_round(&mut self, seed: u64) -> (action: FuzzAction)
        requires
            old(self).well_formed(),
        ensures
            final(self).well_formed(),
            old(self)@.awaits_seed() ==> action == FuzzAction::Invoke(seed) && final(self)@ == old(
                self,
            )@.issue(seed),
            !old(self)@.awaits_seed() ==> action == old(self)@.standing_action() && final(self)@
                == old(self)@,
    {
        match self.pending {
            Some(waiting) => FuzzAction::Invoke(waiting),
            None => {
                if self.remaining == 0 {
                    FuzzAction::Finish
                } else {
                    self.remaining = self.remaining - 1;
                    self.pending = Some(seed);
                    FuzzAction::Invoke(seed)
                }
            },
        }
    }

    /// Says what to do next. When a round can start, a fresh seed is drawn
    /// and the round starts with it; the seed may be any number. While a
    /// round is in flight its seed is repeated, and once all rounds are done
    /// the answer is `Finish`.
    pub fn next_action(&mut self) -> (action: FuzzAction)
        requires
            old(self).well_formed(),
        ensures
            final(self).well_formed(),
            old(self)@.awaits_seed() ==> action is Invoke && final(self)@ == old(self)@.issue(
                action->Invoke_0,
            ),
            !old(self)@.awaits_seed() ==> action == old(self)@.standing_action() && final(self)@
                == old(self)@,
    {
        match self.pending {
            Some(waiting) => FuzzAction::Invoke(waiting),
            None => {
                if self.remaining == 0 {
                    FuzzAction::Finish
                } else {
                    let seed = draw_seed(&mut self.source);
                    self.begin_round(seed)
                }
            },
        }
    }

    /// Ends the round in flight with `outcome`. A success is added to the
    /// estimator under the round's seed. A failure is not: its text comes
    /// back, to be reported at once, and the session goes on. With no round
    /// in flight the outcome is dropped.
    pub fn record(&mut self, outcome: Outcome) -> (report: Option<String>)
        requires
            old(self).well_formed(),
        ensures
            final(self).well_formed(),
            final(self)@ == old(self)@.settle(outcome),
            match report {
                Some(text) => old(self)@.pending is Some && (outcome matches Outcome::Failure(
                    said,
                ) && text@ == said@),
                None => old(self)@.pending is None || outcome is Success,
            },
    {
        match self.pending {
            None => None,
            Some(seed) => {
                self.pending = None;
                match outcome {
                    Outcome::Success(hash) => {
                        self.estimator.add(seed, hash);
                        None
                    },
                    Outcome::Failure(text) => Some(text),
                }
            },
        }
    }

    /// The estimator as it stands.
    pub fn estimator(&self) -> (estimator: &HyperLogLog)
        requires
            self.well_formed(),
        ensures
            estimator.well_formed(),
            estimator@ == self@.estimator,
    {
        &self.estimator
    }

    /// How many rounds have not started yet.
    pub fn remaining(&self) -> (rounds: u64)
        ensures
            rounds == self@.remaining,
    {
        self.remaining
    }

    /// Ends the session and hands out its estimator.
    pub fn into_estimator(self) -> (estimator: HyperLogLog)
        requires
            self.well_formed(),
        ensures
            estimator.well_formed(),
            estimator@ == self@.estimator,
    {
        self.estimator
    }
}

/// A run of complete rounds adds to the estimator exactly the successes, in
/// the order of the rounds, and uses up one round for each seed.
pub proof fn lemma_rounds_record_successes(
    start: FuzzState,
    seeds: Seq<u64>,
    outcomes: Seq<Outcome>,
)
    requires
        start.pending is None,
        seeds.len() == outcomes.len(),
        seeds.len() <= start.remaining,
    ensures
        start.after_rounds(seeds, outcomes).estimator == start.estimator.after_adds(
            recorded_pairs(seeds, outcomes),
        ),
        start.after_rounds(seeds, outcomes).remaining == start.remaining - seeds.len(),
        start.after_rounds(seeds, outcomes).pending is None,
    decreases seeds.len(),
{
    if seeds.len() > 0 {
        lemma_rounds_record_successes(start, seeds.drop_last(), outcomes.drop_last());
        let front = recorded_pairs(seeds.drop_last(), outcomes.drop_last());
        match outcomes.last() {
            Outcome::Success(hash) => {
                let pair = (seeds.last(), hash);
                assert(front.push(pair).drop_last() =~= front);
            },
            Outcome::Failure(_) => {},
        }
    }
}

/// A failure never reaches the estimator: whatever the state and the text,
/// the registers and the history stay as they were.
pub proof fn lemma_failure_is_not_recorded(state: FuzzState, outcome: Outcome)
    requires
        outcome is Failure,
    ensures
        state.settle(outcome).estimator == state.estimator,
{
}

} // verus!
