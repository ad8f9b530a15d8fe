//! What one invocation of the target came to: an output value, or a failure
//! with the text that the target left on its output streams.

use vstd::prelude::*;
use vstd::string::StringExecFns;

verus! {

/// The return value by which a target reports that it failed.
pub const SENTINEL: u64 = u64::MAX;

/// The result of invoking the target once.
#[derive(Debug, Clone, PartialEq, Eq)]
pub enum Outcome {
    /// The target returned this output.
    Success(u64),
    /// The target signalled a failure; the text is what it printed.
    Failure(String),
}

/// The text of a failure: both captured streams under their headings.
pub open spec fn diagnostic_text(stdout: Seq<char>, stderr: Seq<char>) -> Seq<char> {
    "stdout:\n"@ + stdout + "\nstderr:\n"@ + stderr
}

impl Outcome {
    /// This outcome is the one that the adapter owes for the raw return
    /// value `raw` and the two captured streams: the sentinel is a failure
    /// that carries the streams, anything else is a success.
    pub open spec fn classifies(self, raw: u64, stdout: Seq<char>, stderr: Seq<char>) -> bool {
        if raw == SENTINEL {
            self matches Outcome::Failure(text) && text@ == diagnostic_text(stdout, stderr)
        } else {
            self == Outcome::Success(raw)
        }
    }

    /// This outcome is the success that reproduces `expected`.
    pub open spec fn reproduces(self, expected: u64) -> bool {
        self == Outcome::Success(expected)
    }

    /// Whether this outcome is a success with exactly the output `expected`.
    pub fn matches_hash(&self, expected: u64) -> (same: bool)
        ensures
            same == self.reproduces(expected),
    {
        match self {
            Outcome::Success(hash) => *hash == expected,
            Outcome::Failure(_) => false,
        }
    }
}

/// Whether a raw return value is the target's failure signal. Only then are
/// the captured streams of any interest.
pub fn signals_failure(raw: u64) -> (failed: bool)
    ensures
        failed == (raw == SENTINEL),
{
    raw == SENTINEL
}

/// Lays out the two captured streams as the text of a failure.
pub fn diagnostic(stdout: &str, stderr: &str) -> (text: String)
    ensures
        text@ == diagnostic_text(stdout@, stderr@),
{
    let text = String::from_str("stdout:\n");
    let text = text.concat(stdout);
    let text = text.concat("\nstderr:\n");
    text.concat(stderr)
}

/// Turns the raw return value of the target into an outcome. The sentinel
/// is always a failure, whatever the streams hold; every other value is a
/// success and the streams are dropped.
pub fn classify(raw: u64, stdout: &str, stderr: &str) -> (outcome: Outcome)
    ensures
        outcome.classifies(raw, stdout@, stderr@),
        raw == SENTINEL <==> outcome is Failure,
{
    if raw == SENTINEL {
        Outcome::Failure(diagnostic(stdout, stderr))
    } else {
        Outcome::Success(raw)
    }
}

} // verus!
