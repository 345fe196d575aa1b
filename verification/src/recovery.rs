//! The lanes whose state on disk cannot be trusted until they have been rebuilt.

use vstd::hash_set::StringHashSet;
use vstd::prelude::*;

use crate::error::InlineCompactionError;
use crate::report::{CommitOutcome, CommitReport};

verus! {

/// The lanes that need recovery, and whether the state backend is degraded.
pub struct StateRecoveryRegistry {
    lanes: StringHashSet,
    degraded: bool,
}

impl StateRecoveryRegistry {
    /// The hashes of the lanes that need recovery.
    pub closed spec fn marked(self) -> Set<Seq<char>> {
        self.lanes@
    }

    /// Whether a failure has shown that the backend cannot take more state.
    pub closed spec fn is_degraded(self) -> bool {
        self.degraded
    }

    /// The registry once `error` has been reported of the lane `lane_hash`.
    pub open spec fn after_error(self, lane_hash: Seq<char>, error: InlineCompactionError) -> (
        Set<Seq<char>>,
        bool,
    ) {
        if error is DurabilityIndeterminate {
            (self.marked().insert(lane_hash), self.is_degraded() || error.degrades())
        } else {
            (self.marked(), self.is_degraded())
        }
    }

    /// The lanes that need recovery once a commit has been reported.
    pub open spec fn after_commit(self, outcome: CommitOutcome, lane_hash: Seq<char>) -> Set<
        Seq<char>,
    > {
        if outcome.wrote_state() {
            self.marked().remove(lane_hash)
        } else {
            self.marked()
        }
    }

    /// Whether the lane needs recovery.
    pub fn recovery_required(&self, lane_hash: &str) -> (required: bool)
        ensures
            required == self.marked().contains(lane_hash@),
    {
        self.lanes.contains(lane_hash)
    }

    /// Whether the backend is degraded.
    pub fn backend_degraded(&self) -> (degraded: bool)
        ensures
            degraded == self.is_degraded(),
    {
        self.degraded
    }

    /// Marks the lane where `error` leaves it indeterminate what is on disk, and the backend where
    /// the failure degrades it.
    pub fn mark_from_error(&mut self, lane_hash: &str, error: &InlineCompactionError)
        ensures
            (final(self).marked(), final(self).is_degraded()) == old(self).after_error(
                lane_hash@,
                *error,
            ),
    {
        if error.durability_details().is_none() {
            return;
        }
        self.lanes.insert(lane_hash.to_owned());
        if error.degrades_state_backend() {
            self.degraded = true;
        }
    }

    /// Clears the mark of the lane once a state has been written durably.
    pub fn note_durable_commit(&mut self, report: &CommitReport)
        ensures
            final(self).marked() == old(self).after_commit(report.outcome, report.lane_hash@),
            final(self).is_degraded() == old(self).is_degraded(),
    {
        if report.outcome == CommitOutcome::Created || report.outcome == CommitOutcome::Advanced
            || report.outcome == CommitOutcome::Replaced {
            self.lanes.remove(report.lane_hash.as_str());
        }
    }
}

impl Default for StateRecoveryRegistry {
    /// A registry in which no lane needs recovery.
    fn default() -> (registry: Self)
        ensures
            registry.marked() == Set::<Seq<char>>::empty(),
            !registry.is_degraded(),
    {
        StateRecoveryRegistry { lanes: StringHashSet::new(), degraded: false }
    }
}

/// A lane whose commit is indeterminate needs recovery until a state of it has been written
/// durably; no other lane is touched, and a degraded backend stays degraded.
pub proof fn law_marks_last_until_a_durable_commit(
    before: StateRecoveryRegistry,
    after: StateRecoveryRegistry,
    lane: Seq<char>,
    error: InlineCompactionError,
    outcome: CommitOutcome,
    other: Seq<char>,
)
    requires
        error is DurabilityIndeterminate,
        (after.marked(), after.is_degraded()) == before.after_error(lane, error),
        other != lane,
    ensures
        after.marked().contains(lane),
        after.after_commit(outcome, lane).contains(lane) <==> !outcome.wrote_state(),
        after.after_commit(outcome, lane).contains(other) <==> before.marked().contains(other),
        before.is_degraded() ==> after.is_degraded(),
        error.degrades() ==> after.is_degraded(),
{
}

/// A failure that leaves no doubt about what is on disk marks nothing.
pub proof fn law_other_failures_mark_nothing(
    before: StateRecoveryRegistry,
    lane: Seq<char>,
    error: InlineCompactionError,
)
    requires
        error !is DurabilityIndeterminate,
    ensures
        before.after_error(lane, error) == (before.marked(), before.is_degraded()),
{
}

/// A report of an indeterminate commit marks its lane and no other, and degrades the backend where
/// its cause does and not otherwise.
pub proof fn law_reports_mark_one_lane(
    before: StateRecoveryRegistry,
    lane: Seq<char>,
    error: InlineCompactionError,
    other: Seq<char>,
)
    ensures
        before.after_error(lane, error).0.contains(other) <==> before.marked().contains(other) || (
        other == lane && error is DurabilityIndeterminate),
        before.after_error(lane, error).1 <==> before.is_degraded() || error.degrades(),
        before.after_commit(CommitOutcome::Created, lane).contains(other)
            <==> before.marked().contains(other) && other != lane,
        before.after_commit(CommitOutcome::Advanced, lane).contains(other)
            <==> before.marked().contains(other) && other != lane,
        before.after_commit(CommitOutcome::Replaced, lane).contains(other)
            <==> before.marked().contains(other) && other != lane,
        before.after_commit(CommitOutcome::NoState, lane) == before.marked(),
        before.after_commit(CommitOutcome::Preserved, lane) == before.marked(),
{
}

}
