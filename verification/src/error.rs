//! The failures of inline compaction.

use vstd::prelude::*;
use vstd::string::*;

verus! {

/// The kinds of I/O failure that are told apart.
#[derive(Debug, Clone, Copy, PartialEq, Eq, Structural)]
pub enum IoKind {
    NotFound,
    WouldBlock,
    Interrupted,
    Unsupported,
    Other,
}

/// An I/O failure: its kind, the error number of the operating system where there is one, and
/// whether that system is Linux, whose error numbers are told apart.
#[derive(Debug)]
pub struct IoFailure {
    pub kind: IoKind,
    pub raw_os_error: Option<i32>,
    pub on_linux: bool,
    pub message: String,
}

/// What is known of a commit whose directory entry was switched but not confirmed on disk.
#[derive(Debug)]
pub struct DurabilityIndeterminateDetails {
    pub old_revision: Option<u64>,
    pub candidate_revision: u64,
    pub old_sidecar_hash: Option<String>,
    pub new_sidecar_hash: String,
    pub temp_fsynced_at_ms: u64,
    pub rename_at_ms: u64,
    pub directory_fsync_started_at_ms: u64,
    pub directory_fsync_failed_at_ms: u64,
    pub errno: Option<i32>,
    pub filesystem_type: Option<String>,
    pub mount_id: Option<u64>,
    pub mount_options: Option<String>,
}

/// A failure of inline compaction.
#[derive(Debug)]
pub enum InlineCompactionError {
    Config(&'static str),
    LaneWaitTimeout,
    SessionQueueTimeout,
    StateDirWriterLocked,
    StateDurabilityUnsupported { source: IoFailure },
    InvalidState(&'static str),
    InvalidUpstream(&'static str),
    Io { operation: &'static str, source: IoFailure },
    DurabilityIndeterminate { details: Box<DurabilityIndeterminateDetails>, source: IoFailure },
}

/// An error number after which no more state can be written: an I/O error, no space, a read-only
/// file system, an exceeded quota.
pub open spec fn degrading(errno: Option<i32>) -> bool {
    errno == Some(5i32) || errno == Some(28i32) || errno == Some(30i32) || errno == Some(122i32)
}

/// Whether `errno` is a Linux error number after which no more state can be written.
fn state_backend_degrading_errno(errno: Option<i32>) -> (result: bool)
    ensures
        result == degrading(errno),
{
    match errno {
        Some(number) => number == 5 || number == 28 || number == 30 || number == 122,
        None => false,
    }
}

impl IoFailure {
    /// Whether the failure says that a directory cannot be synced at all: on Linux by the error
    /// number for an invalid argument, elsewhere by its kind.
    pub open spec fn says_sync_unsupported(self) -> bool {
        if self.on_linux {
            self.raw_os_error == Some(22i32)
        } else {
            self.kind == IoKind::Unsupported
        }
    }

    /// Whether the failure says that a directory cannot be synced at all.
    pub fn directory_sync_unsupported(&self) -> (result: bool)
        ensures
            result == self.says_sync_unsupported(),
    {
        if self.on_linux {
            match self.raw_os_error {
                Some(number) => number == 22,
                None => false,
            }
        } else {
            self.kind == IoKind::Unsupported
        }
    }
}

impl InlineCompactionError {
    /// A stable name for the kind of failure.
    pub open spec fn reason(self) -> Seq<char> {
        match self {
            InlineCompactionError::Config(_) => "configuration_error"@,
            InlineCompactionError::LaneWaitTimeout => "lane_wait_timeout"@,
            InlineCompactionError::SessionQueueTimeout => "session_queue_timeout"@,
            InlineCompactionError::StateDirWriterLocked => "state_dir_writer_locked"@,
            InlineCompactionError::StateDurabilityUnsupported { .. } => {
                "state_durability_unsupported"@
            },
            InlineCompactionError::InvalidState(_) => "invalid_state"@,
            InlineCompactionError::InvalidUpstream(_) => "invalid_upstream"@,
            InlineCompactionError::Io { .. } => "state_io_error"@,
            InlineCompactionError::DurabilityIndeterminate { .. } => {
                "state_durability_indeterminate"@
            },
        }
    }

    /// Whether this is the configuration error with the text `text`.
    pub open spec fn is_config(self, text: Seq<char>) -> bool {
        self matches InlineCompactionError::Config(message) && message@ == text
    }

    /// Whether this is the error on invalid state with the text `text`.
    pub open spec fn is_invalid_state(self, text: Seq<char>) -> bool {
        self matches InlineCompactionError::InvalidState(message) && message@ == text
    }

    /// Whether this is the error on an invalid upstream stream with the text `text`.
    pub open spec fn is_invalid_upstream(self, text: Seq<char>) -> bool {
        self matches InlineCompactionError::InvalidUpstream(message) && message@ == text
    }

    /// Whether this is the I/O error of the operation `operation` with the failure `failure`.
    pub open spec fn is_io(self, operation: Seq<char>, failure: IoFailure) -> bool {
        &&& self matches InlineCompactionError::Io { operation: o, source }
        &&& o@ == operation
        &&& source == failure
    }

    /// Whether no more state can be written after this failure: a directory sync that failed
    /// with a degrading error number.
    pub open spec fn degrades(self) -> bool {
        &&& self matches InlineCompactionError::DurabilityIndeterminate { source, .. }
        &&& source.on_linux
        &&& degrading(source.raw_os_error)
    }

    /// A stable name for the kind of failure.
    pub fn reason_code(&self) -> (code: &'static str)
        ensures
            code@ == self.reason(),
    {
        match self {
            InlineCompactionError::Config(_) => "configuration_error",
            InlineCompactionError::LaneWaitTimeout => "lane_wait_timeout",
            InlineCompactionError::SessionQueueTimeout => "session_queue_timeout",
            InlineCompactionError::StateDirWriterLocked => "state_dir_writer_locked",
            InlineCompactionError::StateDurabilityUnsupported { .. } => {
                "state_durability_unsupported"
            },
            InlineCompactionError::InvalidState(_) => "invalid_state",
            InlineCompactionError::InvalidUpstream(_) => "invalid_upstream",
            InlineCompactionError::Io { .. } => "state_io_error",
            InlineCompactionError::DurabilityIndeterminate { .. } => {
                "state_durability_indeterminate"
            },
        }
    }

    /// What is known of an indeterminate commit.
    pub fn durability_details(&self) -> (details: Option<&DurabilityIndeterminateDetails>)
        ensures
            details == match *self {
                InlineCompactionError::DurabilityIndeterminate { details: held, .. } => Some(&*held),
                _ => None,
            },
    {
        match self {
            InlineCompactionError::DurabilityIndeterminate { details, .. } => Some(&**details),
            _ => None,
        }
    }

    /// Whether no more state can be written after this failure.
    pub fn degrades_state_backend(&self) -> (result: bool)
        ensures
            result == self.degrades(),
    {
        match self {
            InlineCompactionError::DurabilityIndeterminate { source, .. } => {
                source.on_linux && state_backend_degrading_errno(source.raw_os_error)
            },
            _ => false,
        }
    }

    /// The sentence that describes the failure.
    pub open spec fn sentence(self) -> Seq<char> {
        match self {
            InlineCompactionError::Config(text) => "inline compaction configuration error: "@
                + text@,
            InlineCompactionError::LaneWaitTimeout => {
                "request timed out waiting for the same conversation lane"@
            },
            InlineCompactionError::SessionQueueTimeout => {
                "request timed out in the conversation concurrency queue"@
            },
            InlineCompactionError::StateDirWriterLocked => {
                "inline compaction state directory is already owned by another bridge process"@
            },
            InlineCompactionError::StateDurabilityUnsupported { .. } => {
                "inline compaction state directory does not support strict durable commits"@
            },
            InlineCompactionError::InvalidState(text) => "inline compaction state is invalid: "@
                + text@,
            InlineCompactionError::InvalidUpstream(text) => {
                "inline compaction upstream stream is invalid: "@ + text@
            },
            InlineCompactionError::Io { operation, .. } => {
                "inline compaction state I/O failed during "@ + operation@
            },
            InlineCompactionError::DurabilityIndeterminate { .. } => {
                "inline compaction state durability is indeterminate after the canonical namespace switch"@
            },
        }
    }

    /// The sentence that describes the failure.
    pub fn message(&self) -> (text: String)
        ensures
            text@ == self.sentence(),
    {
        match self {
            InlineCompactionError::Config(text) => {
                concatenated("inline compaction configuration error: ", text)
            },
            InlineCompactionError::LaneWaitTimeout => {
                "request timed out waiting for the same conversation lane".to_owned()
            },
            InlineCompactionError::SessionQueueTimeout => {
                "request timed out in the conversation concurrency queue".to_owned()
            },
            InlineCompactionError::StateDirWriterLocked => {
                "inline compaction state directory is already owned by another bridge process".to_owned()
            },
            InlineCompactionError::StateDurabilityUnsupported { .. } => {
                "inline compaction state directory does not support strict durable commits".to_owned()
            },
            InlineCompactionError::InvalidState(text) => {
                concatenated("inline compaction state is invalid: ", text)
            },
            InlineCompactionError::InvalidUpstream(text) => {
                concatenated("inline compaction upstream stream is invalid: ", text)
            },
            InlineCompactionError::Io { operation, .. } => {
                concatenated("inline compaction state I/O failed during ", operation)
            },
            InlineCompactionError::DurabilityIndeterminate { .. } => {
                "inline compaction state durability is indeterminate after the canonical namespace switch".to_owned()
            },
        }
    }
}

/// `front` with `back` behind it.
pub fn concatenated(front: &str, back: &str) -> (text: String)
    ensures
        text@ == front@ + back@,
{
    let mut text = front.to_owned();
    text.append(back);
    text
}

/// A failure degrades the backend exactly where a directory sync fails on Linux with an I/O error,
/// for want of space, on a read-only file system or over a quota.
pub proof fn law_degrading_failures(error: InlineCompactionError)
    ensures
        error !is DurabilityIndeterminate ==> !error.degrades(),
        error matches InlineCompactionError::DurabilityIndeterminate { source, .. } ==> (
        error.degrades() <==> {
            &&& source.on_linux
            &&& source.raw_os_error matches Some(number)
            &&& set![5int, 28int, 30int, 122int].contains(number as int)
        }),
{
}

/// A directory cannot be synced where Linux calls that an invalid argument, and on other systems
/// where it is said to be unsupported.
pub proof fn law_unsupported_syncs(failure: IoFailure)
    ensures
        failure.on_linux ==> (failure.says_sync_unsupported() <==> (failure.raw_os_error matches Some(
            number,
        ) && number as int == 22)),
        !failure.on_linux ==> (failure.says_sync_unsupported() <==> failure.kind is Unsupported),
{
}

/// Each kind of failure has its own name.
pub proof fn law_failures_are_named(error: InlineCompactionError)
    ensures
        error is Config ==> error.reason() == "configuration_error"@,
        error is LaneWaitTimeout ==> error.reason() == "lane_wait_timeout"@,
        error is SessionQueueTimeout ==> error.reason() == "session_queue_timeout"@,
        error is StateDirWriterLocked ==> error.reason() == "state_dir_writer_locked"@,
        error is StateDurabilityUnsupported ==> error.reason() == "state_durability_unsupported"@,
        error is InvalidState ==> error.reason() == "invalid_state"@,
        error is InvalidUpstream ==> error.reason() == "invalid_upstream"@,
        error is Io ==> error.reason() == "state_io_error"@,
        error is DurabilityIndeterminate ==> error.reason() == "state_durability_indeterminate"@,
{
}

/// The sentence about a failure ends with the text or the operation that the failure holds.
pub proof fn law_failures_are_described(error: InlineCompactionError)
    ensures
        error matches InlineCompactionError::Config(text) ==> error.sentence()
            == "inline compaction configuration error: "@ + text@,
        error matches InlineCompactionError::InvalidState(text) ==> error.sentence()
            == "inline compaction state is invalid: "@ + text@,
        error matches InlineCompactionError::InvalidUpstream(text) ==> error.sentence()
            == "inline compaction upstream stream is invalid: "@ + text@,
        error matches InlineCompactionError::Io { operation, .. } ==> error.sentence()
            == "inline compaction state I/O failed during "@ + operation@,
        error is LaneWaitTimeout ==> error.sentence()
            == "request timed out waiting for the same conversation lane"@,
        error is SessionQueueTimeout ==> error.sentence()
            == "request timed out in the conversation concurrency queue"@,
        error is StateDirWriterLocked ==> error.sentence()
            == "inline compaction state directory is already owned by another bridge process"@,
        error is StateDurabilityUnsupported ==> error.sentence()
            == "inline compaction state directory does not support strict durable commits"@,
        error is DurabilityIndeterminate ==> error.sentence()
            == "inline compaction state durability is indeterminate after the canonical namespace switch"@,
{
}

/// An error is told by its kind and by the text that it holds.
pub proof fn law_errors_are_told_by_their_text(
    text: &'static str,
    failure: IoFailure,
    expected: Seq<char>,
)
    ensures
        InlineCompactionError::Config(text).is_config(expected) <==> text@ == expected,
        InlineCompactionError::InvalidState(text).is_invalid_state(expected) <==> text@ == expected,
        InlineCompactionError::InvalidUpstream(text).is_invalid_upstream(expected) <==> text@
            == expected,
        (InlineCompactionError::Io { operation: text, source: failure }).is_io(expected, failure)
            <==> text@ == expected,
        !InlineCompactionError::InvalidState(text).is_config(expected),
        !InlineCompactionError::InvalidUpstream(text).is_invalid_state(expected),
        !InlineCompactionError::Config(text).is_invalid_upstream(expected),
{
}

}
