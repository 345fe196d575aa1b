//! What a commit reports.

use vstd::prelude::*;

verus! {

/// What a commit did to the state of its lane.
#[derive(Debug, Clone, Copy, PartialEq, Eq, Structural)]
pub enum CommitOutcome {
    NoState,
    Created,
    Advanced,
    Replaced,
    Preserved,
}

impl CommitOutcome {
    /// The name of the outcome.
    pub open spec fn name(self) -> Seq<char> {
        match self {
            CommitOutcome::NoState => "no_state"@,
            CommitOutcome::Created => "created"@,
            CommitOutcome::Advanced => "advanced"@,
            CommitOutcome::Replaced => "replaced"@,
            CommitOutcome::Preserved => "preserved"@,
        }
    }

    /// Whether the outcome means that a new state was written.
    pub open spec fn wrote_state(self) -> bool {
        self is Created || self is Advanced || self is Replaced
    }

    /// The name of the outcome.
    pub fn as_str(self) -> (name: &'static str)
        ensures
            name@ == self.name(),
    {
        match self {
            CommitOutcome::NoState => "no_state",
            CommitOutcome::Created => "created",
            CommitOutcome::Advanced => "advanced",
            CommitOutcome::Replaced => "replaced",
            CommitOutcome::Preserved => "preserved",
        }
    }
}

/// What a commit reports.
#[derive(Debug, Clone, PartialEq, Eq)]
pub struct CommitReport {
    pub outcome: CommitOutcome,
    pub compaction_count: usize,
    pub last_item_index: Option<u64>,
    pub suffix_count: usize,
    pub usage_input_tokens: u64,
    pub state_bytes: u64,
    pub lane_hash: String,
    pub invalidation_reason: Option<&'static str>,
    pub anomaly_reason: Option<&'static str>,
    pub effective_reasoning_context: Option<String>,
}

/// Each outcome has its own name, and a state is written by a commit that creates, advances or
/// replaces one, and by no other.
pub proof fn law_outcomes_are_named(outcome: CommitOutcome)
    ensures
        outcome is NoState ==> outcome.name() == "no_state"@ && !outcome.wrote_state(),
        outcome is Preserved ==> outcome.name() == "preserved"@ && !outcome.wrote_state(),
        outcome is Created ==> outcome.name() == "created"@ && outcome.wrote_state(),
        outcome is Advanced ==> outcome.name() == "advanced"@ && outcome.wrote_state(),
        outcome is Replaced ==> outcome.name() == "replaced"@ && outcome.wrote_state(),
{
}

}
