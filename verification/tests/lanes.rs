//! Lanes and the lanes that need recovery.

use claudex_bridge::error::{
    DurabilityIndeterminateDetails, InlineCompactionError, IoFailure, IoKind,
};
use claudex_bridge::lanes::{
    state_lane_id, state_lane_id_from_identity, telemetry_lane_hash, ConversationIdentity,
};
use claudex_bridge::recovery::StateRecoveryRegistry;
use claudex_bridge::report::{CommitOutcome, CommitReport};

#[test]
fn agent_lanes_are_distinct_while_parent_lane_stays_compatible() {
    assert_eq!(
        state_lane_id(Some("session-a"), None).as_deref(),
        Some("session-a")
    );
    let parent = state_lane_id(Some("session-a"), None).unwrap();
    let agent_a = state_lane_id(Some("session-a"), Some("agent-a")).unwrap();
    let agent_b = state_lane_id(Some("session-a"), Some("agent-b")).unwrap();
    assert_ne!(parent, agent_a);
    assert_ne!(agent_a, agent_b);
    assert_eq!(
        agent_a.as_bytes(),
        b"session-a\0agent-a",
        "the separator is impossible in an HTTP header value"
    );
    assert!(state_lane_id(None, Some("agent-a")).is_none());
}

#[test]
fn empty_identifiers_count_as_none() {
    assert!(state_lane_id(Some(""), Some("agent-a")).is_none());
    assert_eq!(
        state_lane_id(Some("session-a"), Some("")).as_deref(),
        Some("session-a")
    );
}

#[test]
fn identities_have_the_lanes_of_their_session_and_agent() {
    let main = ConversationIdentity::Main("session-a".to_string());
    let agent = ConversationIdentity::Agent("session-a".to_string(), "agent-a".to_string());
    assert_eq!(
        state_lane_id_from_identity(Some(&main)).as_deref(),
        Some("session-a")
    );
    assert_eq!(
        state_lane_id_from_identity(Some(&agent)).as_deref(),
        Some("session-a\0agent-a")
    );
    assert!(state_lane_id_from_identity(None).is_none());
    let empty = ConversationIdentity::Main(String::new());
    assert!(state_lane_id_from_identity(Some(&empty)).is_none());
}

#[test]
fn lane_hashes_are_sha256_of_the_identifier() {
    assert_eq!(
        telemetry_lane_hash("abc"),
        "ba7816bf8f01cfea414140de5dae2223b00361a396177a9cb410ff61f20015ad"
    );
    assert_eq!(
        telemetry_lane_hash(""),
        "e3b0c44298fc1c149afbf4c8996fb92427ae41e4649b934ca495991b7852b855"
    );
}

fn failure(errno: i32, on_linux: bool) -> IoFailure {
    IoFailure {
        kind: IoKind::Other,
        raw_os_error: Some(errno),
        on_linux,
        message: String::new(),
    }
}

fn indeterminate(errno: i32, on_linux: bool) -> InlineCompactionError {
    InlineCompactionError::DurabilityIndeterminate {
        details: Box::new(DurabilityIndeterminateDetails {
            old_revision: None,
            candidate_revision: 1,
            old_sidecar_hash: None,
            new_sidecar_hash: "hash".to_string(),
            temp_fsynced_at_ms: 1,
            rename_at_ms: 2,
            directory_fsync_started_at_ms: 3,
            directory_fsync_failed_at_ms: 4,
            errno: Some(errno),
            filesystem_type: None,
            mount_id: None,
            mount_options: None,
        }),
        source: failure(errno, on_linux),
    }
}

fn report(outcome: CommitOutcome, lane_hash: &str) -> CommitReport {
    CommitReport {
        outcome,
        compaction_count: 0,
        last_item_index: None,
        suffix_count: 0,
        usage_input_tokens: 0,
        state_bytes: 0,
        lane_hash: lane_hash.to_string(),
        invalidation_reason: None,
        anomaly_reason: None,
        effective_reasoning_context: None,
    }
}

#[test]
fn lanes_need_recovery_until_a_state_is_written_durably() {
    let mut registry = StateRecoveryRegistry::default();
    assert!(!registry.recovery_required("lane-a"));
    registry.mark_from_error("lane-a", &indeterminate(116, true));
    registry.mark_from_error("lane-b", &indeterminate(116, true));
    assert!(registry.recovery_required("lane-a"));
    assert!(registry.recovery_required("lane-b"));
    assert!(!registry.backend_degraded());
    for outcome in [CommitOutcome::NoState, CommitOutcome::Preserved] {
        registry.note_durable_commit(&report(outcome, "lane-a"));
        assert!(registry.recovery_required("lane-a"));
    }
    registry.note_durable_commit(&report(CommitOutcome::Replaced, "lane-a"));
    assert!(!registry.recovery_required("lane-a"));
    assert!(registry.recovery_required("lane-b"));
}

#[test]
fn degraded_backends_stay_degraded() {
    let mut registry = StateRecoveryRegistry::default();
    registry.mark_from_error("lane-a", &indeterminate(28, true));
    assert!(registry.backend_degraded());
    registry.note_durable_commit(&report(CommitOutcome::Created, "lane-a"));
    assert!(registry.backend_degraded());
    assert!(!registry.recovery_required("lane-a"));
}

#[test]
fn certain_failures_mark_nothing() {
    let mut registry = StateRecoveryRegistry::default();
    let error = InlineCompactionError::Io {
        operation: "committing sidecar",
        source: failure(5, true),
    };
    registry.mark_from_error("lane-a", &error);
    assert!(!registry.recovery_required("lane-a"));
    assert!(!registry.backend_degraded());
    assert!(!error.degrades_state_backend());
    assert!(error.durability_details().is_none());
}

#[test]
fn backends_degrade_by_the_error_numbers_of_linux() {
    for errno in [5, 28, 30, 122] {
        assert!(indeterminate(errno, true).degrades_state_backend());
        assert!(!indeterminate(errno, false).degrades_state_backend());
    }
    assert!(!indeterminate(22, true).degrades_state_backend());
}

#[test]
fn failures_have_stable_names_and_sentences() {
    let cases = [
        (
            InlineCompactionError::Config("threshold must be an integer"),
            "configuration_error",
            "inline compaction configuration error: threshold must be an integer",
        ),
        (
            InlineCompactionError::LaneWaitTimeout,
            "lane_wait_timeout",
            "request timed out waiting for the same conversation lane",
        ),
        (
            InlineCompactionError::SessionQueueTimeout,
            "session_queue_timeout",
            "request timed out in the conversation concurrency queue",
        ),
        (
            InlineCompactionError::StateDirWriterLocked,
            "state_dir_writer_locked",
            "inline compaction state directory is already owned by another bridge process",
        ),
        (
            InlineCompactionError::StateDurabilityUnsupported {
                source: failure(22, true),
            },
            "state_durability_unsupported",
            "inline compaction state directory does not support strict durable commits",
        ),
        (
            InlineCompactionError::InvalidState("sidecar JSON is corrupt"),
            "invalid_state",
            "inline compaction state is invalid: sidecar JSON is corrupt",
        ),
        (
            InlineCompactionError::InvalidUpstream("output item is not valid JSON"),
            "invalid_upstream",
            "inline compaction upstream stream is invalid: output item is not valid JSON",
        ),
        (
            InlineCompactionError::Io {
                operation: "reading sidecar",
                source: failure(5, true),
            },
            "state_io_error",
            "inline compaction state I/O failed during reading sidecar",
        ),
        (
            indeterminate(5, true),
            "state_durability_indeterminate",
            "inline compaction state durability is indeterminate after the canonical namespace switch",
        ),
    ];
    for (error, code, sentence) in cases {
        assert_eq!(error.reason_code(), code);
        assert_eq!(error.message(), sentence);
    }
}

#[test]
fn outcomes_have_names() {
    assert_eq!(CommitOutcome::NoState.as_str(), "no_state");
    assert_eq!(CommitOutcome::Created.as_str(), "created");
    assert_eq!(CommitOutcome::Advanced.as_str(), "advanced");
    assert_eq!(CommitOutcome::Replaced.as_str(), "replaced");
    assert_eq!(CommitOutcome::Preserved.as_str(), "preserved");
}
