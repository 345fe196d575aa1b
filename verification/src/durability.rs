//! Durable commits: in which steps a sidecar is written, how a state directory is taken over, and
//! how it is found out whether it can be trusted. The steps are performed elsewhere; here it is
//! decided which comes next and what a failure means.

use vstd::prelude::*;
use vstd::string::*;

use crate::decimal::to_decimal;
use crate::decimal;
use crate::digest::{bytes_to_hex, sha256_hex};
use crate::digest;
use crate::error::{
    DurabilityIndeterminateDetails, InlineCompactionError, IoFailure, IoKind,
};
use crate::mount::StateDirMountMetadata;
use crate::parts::{begins_with, finishes_with};
use crate::parts;
use crate::sidecar::{has_permissions, seal_state, SidecarState, StateView};
use crate::sidecar;
use crate::text;

verus! {

/// The name of the file whose lock makes a process the writer of a state directory.
pub const WRITER_LOCK_FILENAME: &'static str = ".writer.lock";

/// What a durability probe writes.
pub const PROBE_CONTENTS: &'static str = "claudex-state-durability-probe-v1\n";

/// What a state directory was found to support.
#[derive(Debug, Clone, PartialEq, Eq)]
pub struct StateDirDurabilityCapability {
    pub filesystem_type: Option<String>,
    pub mount_id: Option<u64>,
    pub mount_options: Option<String>,
    pub directory_fsync_supported: bool,
}

impl Default for StateDirDurabilityCapability {
    /// Nothing is known to be supported.
    fn default() -> (capability: Self)
        ensures
            capability == (StateDirDurabilityCapability {
                filesystem_type: None,
                mount_id: None,
                mount_options: None,
                directory_fsync_supported: false,
            }),
    {
        StateDirDurabilityCapability {
            filesystem_type: None,
            mount_id: None,
            mount_options: None,
            directory_fsync_supported: false,
        }
    }
}

impl StateDirDurabilityCapability {
    /// Whether this is what a state directory on the mount `mount` supports once the probe has
    /// succeeded.
    pub open spec fn is_probed(self, mount: StateDirMountMetadata) -> bool {
        &&& self.filesystem_type == mount.filesystem_type
        &&& self.mount_id == mount.mount_id
        &&& self.mount_options == mount.mount_options
        &&& self.directory_fsync_supported
    }

    /// What a state directory on the mount `mount` supports once the probe has succeeded.
    pub fn probed(mount: StateDirMountMetadata) -> (capability: Self)
        ensures
            capability == (StateDirDurabilityCapability {
                filesystem_type: mount.filesystem_type,
                mount_id: mount.mount_id,
                mount_options: mount.mount_options,
                directory_fsync_supported: true,
            }),
            capability.is_probed(mount),
    {
        StateDirDurabilityCapability {
            filesystem_type: mount.filesystem_type,
            mount_id: mount.mount_id,
            mount_options: mount.mount_options,
            directory_fsync_supported: true,
        }
    }
}

/// The step of writing a sidecar that comes next.
#[derive(Debug, Clone, Copy, PartialEq, Eq, Structural)]
pub enum WriteStep {
    /// Make a new temporary file beside the sidecar.
    CreateTemp,
    /// Write the contents into it.
    WriteTemp,
    /// Make it private.
    RestrictTemp,
    /// Sync it to disk.
    SyncTemp,
    /// Open the state directory.
    OpenDirectory,
    /// Rename the temporary file to the sidecar.
    SwitchName,
    /// Sync the directory to disk.
    SyncDirectory,
    /// The sidecar is committed.
    Committed,
}

impl WriteStep {
    /// How an I/O failure of the step is named.
    pub open spec fn operation_name(self) -> Seq<char> {
        match self {
            WriteStep::CreateTemp => "creating temporary sidecar"@,
            WriteStep::WriteTemp => "writing temporary sidecar"@,
            WriteStep::RestrictTemp => "setting sidecar permissions"@,
            WriteStep::SyncTemp => "syncing temporary sidecar"@,
            WriteStep::OpenDirectory => "opening state directory"@,
            _ => "committing sidecar"@,
        }
    }

    /// Whether the step is repeated when it is interrupted.
    pub open spec fn is_repeated(self) -> bool {
        self is SyncTemp || self is SyncDirectory
    }

    /// The step behind this one, on a system with directory syncs.
    pub open spec fn following(self) -> WriteStep {
        match self {
            WriteStep::CreateTemp => WriteStep::WriteTemp,
            WriteStep::WriteTemp => WriteStep::RestrictTemp,
            WriteStep::RestrictTemp => WriteStep::SyncTemp,
            WriteStep::SyncTemp => WriteStep::OpenDirectory,
            WriteStep::OpenDirectory => WriteStep::SwitchName,
            WriteStep::SwitchName => WriteStep::SyncDirectory,
            _ => WriteStep::Committed,
        }
    }

    /// What is logged once the step is done.
    pub open spec fn event_names(self) -> Seq<Seq<char>> {
        match self {
            WriteStep::CreateTemp => seq!["state_temp_created"@],
            WriteStep::WriteTemp => seq!["state_temp_written"@],
            WriteStep::SyncTemp => seq!["state_temp_fsynced"@],
            WriteStep::SwitchName => seq!["state_namespace_switched"@],
            WriteStep::SyncDirectory => seq![
                "state_directory_fsynced"@,
                "state_sidecar_committed"@,
            ],
            _ => Seq::empty(),
        }
    }

    /// What is logged once the step is done.
    pub fn events(self) -> (names: Vec<&'static str>)
        ensures
            names@.len() == self.event_names().len(),
            forall|i: int|
                0 <= i < names@.len() ==> (#[trigger] names@[i])@ == self.event_names()[i],
    {
        let mut names: Vec<&'static str> = Vec::new();
        match self {
            WriteStep::CreateTemp => names.push("state_temp_created"),
            WriteStep::WriteTemp => names.push("state_temp_written"),
            WriteStep::SyncTemp => names.push("state_temp_fsynced"),
            WriteStep::SwitchName => names.push("state_namespace_switched"),
            WriteStep::SyncDirectory => {
                names.push("state_directory_fsynced");
                names.push("state_sidecar_committed");
            },
            _ => {},
        }
        names
    }

    /// How an I/O failure of the step is named.
    fn operation(self) -> (name: &'static str)
        ensures
            name@ == self.operation_name(),
    {
        match self {
            WriteStep::CreateTemp => "creating temporary sidecar",
            WriteStep::WriteTemp => "writing temporary sidecar",
            WriteStep::RestrictTemp => "setting sidecar permissions",
            WriteStep::SyncTemp => "syncing temporary sidecar",
            WriteStep::OpenDirectory => "opening state directory",
            _ => "committing sidecar",
        }
    }
}

/// The writing of a sidecar: its contents, the step that comes next, and what is told should the
/// last step fail.
#[derive(Debug)]
pub struct StateWrite {
    pub contents: String,
    pub step: WriteStep,
    pub directory_sync: bool,
    pub old_revision: Option<u64>,
    pub candidate_revision: u64,
    pub old_sidecar_hash: Option<String>,
    pub new_sidecar_hash: String,
    pub temp_fsynced_at_ms: u64,
    pub rename_at_ms: u64,
}

/// What a step of writing a sidecar came to.
#[derive(Debug)]
pub enum WriteProgress {
    /// The writing goes on with the next step, or is done.
    Continue(StateWrite),
    /// The writing failed; the temporary file is to be removed.
    Failed(InlineCompactionError),
    /// The sidecar was switched and it is not known whether that is on disk; the temporary file is
    /// to be removed.
    Unconfirmed { write: StateWrite, source: IoFailure },
}

/// The failure where directories cannot be synced at all.
pub open spec fn is_unsupported_commit(error: InlineCompactionError) -> bool {
    &&& error matches InlineCompactionError::StateDurabilityUnsupported { source }
    &&& source.kind == IoKind::Unsupported
    &&& source.raw_os_error is None
    &&& source.message@ == "directory fsync is required for strict durable commits"@
}

/// The failure where directories cannot be synced at all.
pub fn unsupported_commit() -> (error: InlineCompactionError)
    ensures
        is_unsupported_commit(error),
{
    InlineCompactionError::StateDurabilityUnsupported {
        source: IoFailure {
            kind: IoKind::Unsupported,
            raw_os_error: None,
            on_linux: false,
            message: "directory fsync is required for strict durable commits".to_owned(),
        },
    }
}

/// What the bytes of the sidecar before a commit come to: their digest, or none where there was no
/// sidecar.
pub open spec fn previous_hash(previous: Result<Vec<u8>, IoFailure>) -> Option<Seq<char>> {
    match previous {
        Ok(bytes) => Some(digest::fingerprint(bytes@)),
        Err(_) => None,
    }
}

/// Whether `write` is the beginning of writing the state `state` in place of one with the revision
/// `old_revision`.
pub open spec fn is_begun(
    write: StateWrite,
    state: StateView,
    old_revision: Option<u64>,
    previous: Result<Vec<u8>, IoFailure>,
    directory_sync: bool,
) -> bool {
    &&& write.contents@ == sidecar::sealed(state)
    &&& write.step is CreateTemp
    &&& write.directory_sync == directory_sync
    &&& write.old_revision == old_revision
    &&& write.candidate_revision == state.updated_at_ms
    &&& text::optional_text(write.old_sidecar_hash) == previous_hash(previous)
    &&& write.new_sidecar_hash@ == digest::text_fingerprint(sidecar::sealed(state))
    &&& write.temp_fsynced_at_ms == 0
    &&& write.rename_at_ms == 0
}

impl StateWrite {
    /// The step that comes next once this one is done, on this system.
    pub open spec fn next_step(self) -> WriteStep {
        if self.directory_sync {
            self.step.following()
        } else {
            match self.step {
                WriteStep::CreateTemp => WriteStep::WriteTemp,
                WriteStep::WriteTemp => WriteStep::SyncTemp,
                WriteStep::SyncTemp => WriteStep::SwitchName,
                other => other.following(),
            }
        }
    }

    /// The writing once this step was done at the time `at_ms`.
    pub open spec fn after_step(self, at_ms: u64) -> StateWrite {
        StateWrite {
            step: self.next_step(),
            temp_fsynced_at_ms: if self.step is SyncTemp {
                at_ms
            } else {
                self.temp_fsynced_at_ms
            },
            rename_at_ms: if self.step is SwitchName {
                at_ms
            } else {
                self.rename_at_ms
            },
            ..self
        }
    }

    /// Whether the outcome `outcome` of this step, at the time `at_ms`, leads to `progress`. A
    /// sync that was interrupted is tried again; a directory sync that failed leaves it open what
    /// is on disk; any other failure ends the writing before the sidecar was switched, except
    /// where directories cannot be synced.
    pub open spec fn leads_to(
        self,
        outcome: Result<(), IoFailure>,
        at_ms: u64,
        progress: WriteProgress,
    ) -> bool {
        match outcome {
            Ok(_) => if self.step is SwitchName && !self.directory_sync {
                progress matches WriteProgress::Failed(error) && is_unsupported_commit(error)
            } else {
                progress == WriteProgress::Continue(self.after_step(at_ms))
            },
            Err(failure) => if self.step.is_repeated() && failure.kind == IoKind::Interrupted {
                progress == WriteProgress::Continue(self)
            } else if self.step is SyncDirectory {
                progress == (WriteProgress::Unconfirmed { write: self, source: failure })
            } else {
                progress matches WriteProgress::Failed(error) && error.is_io(
                    self.step.operation_name(),
                    failure,
                )
            },
        }
    }

    /// Begins to write `state`, where the sidecar before it was read as `previous`.
    pub fn begin(
        state: &SidecarState,
        old_revision: Option<u64>,
        previous: Result<Vec<u8>, IoFailure>,
        directory_sync: bool,
    ) -> (result: Result<StateWrite, InlineCompactionError>)
        ensures
            if vstd::utf8::encode_utf8(sidecar::sealed(state@)).len() > sidecar::MAX_STATE_BYTES {
                result matches Err(error) && error.is_invalid_state(
                    "sidecar exceeds the size limit"@,
                )
            } else if previous matches Err(failure) && failure.kind != IoKind::NotFound {
                result matches Err(error) && error.is_io(
                    "hashing previous sidecar"@,
                    previous->Err_0,
                )
            } else {
                &&& result matches Ok(write)
                &&& write.contents@ == sidecar::sealed(state@)
                &&& write.step is CreateTemp
                &&& write.directory_sync == directory_sync
                &&& write.old_revision == old_revision
                &&& write.candidate_revision == state.updated_at_ms
                &&& text::optional_text(write.old_sidecar_hash) == previous_hash(previous)
                &&& write.new_sidecar_hash@ == digest::text_fingerprint(sidecar::sealed(state@))
                &&& write.temp_fsynced_at_ms == 0
                &&& write.rename_at_ms == 0
            },
            result matches Ok(write) ==> is_begun(
                write,
                state@,
                old_revision,
                previous,
                directory_sync,
            ),
    {
        let contents = match seal_state(state) {
            Ok(contents) => contents,
            Err(error) => {
                return Err(error);
            },
        };
        let old_sidecar_hash = match previous {
            Ok(bytes) => Some(sha256_hex(bytes.as_slice())),
            Err(source) => {
                if source.kind == IoKind::NotFound {
                    None
                } else {
                    return Err(
                        InlineCompactionError::Io { operation: "hashing previous sidecar", source },
                    );
                }
            },
        };
        let new_sidecar_hash = sha256_hex(contents.as_str().as_bytes());
        Ok(
            StateWrite {
                contents,
                step: WriteStep::CreateTemp,
                directory_sync,
                old_revision,
                candidate_revision: state.updated_at_ms,
                old_sidecar_hash,
                new_sidecar_hash,
                temp_fsynced_at_ms: 0,
                rename_at_ms: 0,
            },
        )
    }

    /// Decides what follows the step that was performed with the outcome `outcome`, at the time
    /// `at_ms`.
    pub fn advance(self, outcome: Result<(), IoFailure>, at_ms: u64) -> (progress: WriteProgress)
        requires
            self.step !is Committed,
        ensures
            self.leads_to(outcome, at_ms, progress),
    {
        let step = self.step;
        match outcome {
            Ok(_) => {
                if step == WriteStep::SwitchName && !self.directory_sync {
                    return WriteProgress::Failed(unsupported_commit());
                }
                let mut write = self;
                if step == WriteStep::SyncTemp {
                    write.temp_fsynced_at_ms = at_ms;
                }
                if step == WriteStep::SwitchName {
                    write.rename_at_ms = at_ms;
                }
                write.step = match step {
                    WriteStep::CreateTemp => WriteStep::WriteTemp,
                    WriteStep::WriteTemp => if write.directory_sync {
                        WriteStep::RestrictTemp
                    } else {
                        WriteStep::SyncTemp
                    },
                    WriteStep::RestrictTemp => WriteStep::SyncTemp,
                    WriteStep::SyncTemp => if write.directory_sync {
                        WriteStep::OpenDirectory
                    } else {
                        WriteStep::SwitchName
                    },
                    WriteStep::OpenDirectory => WriteStep::SwitchName,
                    WriteStep::SwitchName => WriteStep::SyncDirectory,
                    _ => WriteStep::Committed,
                };
                WriteProgress::Continue(write)
            },
            Err(source) => {
                let repeated = step == WriteStep::SyncTemp || step == WriteStep::SyncDirectory;
                if repeated && source.kind == IoKind::Interrupted {
                    WriteProgress::Continue(self)
                } else if step == WriteStep::SyncDirectory {
                    WriteProgress::Unconfirmed { write: self, source }
                } else {
                    WriteProgress::Failed(
                        InlineCompactionError::Io { operation: step.operation(), source },
                    )
                }
            },
        }
    }

    /// What is known of a commit whose directory sync failed.
    pub open spec fn known(
        self,
        source: IoFailure,
        started_at_ms: u64,
        failed_at_ms: u64,
        mount: StateDirMountMetadata,
    ) -> DurabilityIndeterminateDetails {
        DurabilityIndeterminateDetails {
            old_revision: self.old_revision,
            candidate_revision: self.candidate_revision,
            old_sidecar_hash: self.old_sidecar_hash,
            new_sidecar_hash: self.new_sidecar_hash,
            temp_fsynced_at_ms: self.temp_fsynced_at_ms,
            rename_at_ms: self.rename_at_ms,
            directory_fsync_started_at_ms: started_at_ms,
            directory_fsync_failed_at_ms: failed_at_ms,
            errno: source.raw_os_error,
            filesystem_type: mount.filesystem_type,
            mount_id: mount.mount_id,
            mount_options: mount.mount_options,
        }
    }

    /// The failure of a commit whose directory sync failed: it began at `started_at_ms` and failed
    /// at `failed_at_ms`, on the mount `mount`.
    pub fn indeterminate(
        self,
        source: IoFailure,
        started_at_ms: u64,
        failed_at_ms: u64,
        mount: StateDirMountMetadata,
    ) -> (error: InlineCompactionError)
        ensures
            error == (InlineCompactionError::DurabilityIndeterminate {
                details: Box::new(
                    DurabilityIndeterminateDetails {
                        old_revision: self.old_revision,
                        candidate_revision: self.candidate_revision,
                        old_sidecar_hash: self.old_sidecar_hash,
                        new_sidecar_hash: self.new_sidecar_hash,
                        temp_fsynced_at_ms: self.temp_fsynced_at_ms,
                        rename_at_ms: self.rename_at_ms,
                        directory_fsync_started_at_ms: started_at_ms,
                        directory_fsync_failed_at_ms: failed_at_ms,
                        errno: source.raw_os_error,
                        filesystem_type: mount.filesystem_type,
                        mount_id: mount.mount_id,
                        mount_options: mount.mount_options,
                    },
                ),
                source,
            }),
            error matches InlineCompactionError::DurabilityIndeterminate { details, source: cause }
                && *details == self.known(source, started_at_ms, failed_at_ms, mount) && cause
                == source,
    {
        let errno = source.raw_os_error;
        let details = DurabilityIndeterminateDetails {
            old_revision: self.old_revision,
            candidate_revision: self.candidate_revision,
            old_sidecar_hash: self.old_sidecar_hash,
            new_sidecar_hash: self.new_sidecar_hash,
            temp_fsynced_at_ms: self.temp_fsynced_at_ms,
            rename_at_ms: self.rename_at_ms,
            directory_fsync_started_at_ms: started_at_ms,
            directory_fsync_failed_at_ms: failed_at_ms,
            errno,
            filesystem_type: mount.filesystem_type,
            mount_id: mount.mount_id,
            mount_options: mount.mount_options,
        };
        InlineCompactionError::DurabilityIndeterminate { details: Box::new(details), source }
    }

    /// The size of the sidecar in bytes.
    pub fn size(&self) -> (bytes: u64)
        ensures
            bytes == vstd::utf8::encode_utf8(self.contents@).len(),
    {
        self.contents.as_str().as_bytes().len() as u64
    }
}

/// Sixteen hexadecimal digits.
pub open spec fn hex_number(n: u64) -> Seq<char> {
    digest::hex(digest::length_bytes(n))
}

/// A process number and a nonce, as they stand in the names of temporary files.
pub open spec fn stamp(process_id: u32, nonce: u64) -> Seq<char> {
    decimal::decimal(process_id as nat) + "-"@ + hex_number(nonce)
}

/// The name of a temporary sidecar.
pub open spec fn temp_name(process_id: u32, nonce: u64) -> Seq<char> {
    ".inline-compaction-"@ + stamp(process_id, nonce) + ".tmp"@
}

/// The name of a durability probe, before the ending.
pub open spec fn probe_stem(process_id: u32, nonce: u64) -> Seq<char> {
    ".durability-probe-"@ + stamp(process_id, nonce)
}

/// A process number and a nonce, as they stand in the names of temporary files.
fn make_stamp(process_id: u32, nonce: u64) -> (result: String)
    ensures
        result@ == stamp(process_id, nonce),
{
    let mut result = to_decimal(process_id as u64);
    result.append("-");
    result.append(bytes_to_hex(digest::big_endian_bytes(nonce).as_slice()).as_str());
    result
}

/// The name of the temporary sidecar of the process `process_id` with the nonce `nonce`.
pub fn temp_sidecar_name(process_id: u32, nonce: u64) -> (name: String)
    ensures
        name@ == temp_name(process_id, nonce),
{
    let mut name = ".inline-compaction-".to_owned();
    name.append(make_stamp(process_id, nonce).as_str());
    name.append(".tmp");
    name
}

/// The names of the durability probe of the process `process_id` with the nonce `nonce`, before
/// and after it is renamed.
pub fn probe_names(process_id: u32, nonce: u64) -> (names: (String, String))
    ensures
        names.0@ == probe_stem(process_id, nonce) + ".tmp"@,
        names.1@ == probe_stem(process_id, nonce) + ".commit"@,
{
    let mut temp = ".durability-probe-".to_owned();
    temp.append(make_stamp(process_id, nonce).as_str());
    let mut committed = temp.clone();
    temp.append(".tmp");
    committed.append(".commit");
    (temp, committed)
}

/// `rand::random` at the type `u64`. Nothing is claimed of the number.
#[verifier::external_body]
fn random_nonce() -> (nonce: u64) {
    rand::random::<u64>()
}

/// A fresh name for a temporary sidecar of the process `process_id`.
pub fn fresh_temp_sidecar_name(process_id: u32) -> (name: String)
    ensures
        exists|nonce: u64| name@ == #[trigger] temp_name(process_id, nonce),
{
    let nonce: u64 = random_nonce();
    temp_sidecar_name(process_id, nonce)
}

/// Fresh names for a durability probe of the process `process_id`.
pub fn fresh_probe_names(process_id: u32) -> (names: (String, String))
    ensures
        exists|nonce: u64|
            names.0@ == #[trigger] probe_stem(process_id, nonce) + ".tmp"@ && names.1@
                == probe_stem(process_id, nonce) + ".commit"@,
{
    let nonce: u64 = random_nonce();
    probe_names(process_id, nonce)
}

/// Whether a file of the state directory is left over from a commit or a probe that did not end.
pub open spec fn is_leftover(name: Seq<char>) -> bool {
    ||| parts::stands_at(name, ".inline-compaction-"@, 0) && parts::stands_at(
        name,
        ".tmp"@,
        name.len() - ".tmp"@.len(),
    )
    ||| parts::stands_at(name, ".durability-probe-"@, 0)
}

/// Whether a file of the state directory is left over from a commit or a probe that did not end.
pub fn is_orphan_artifact(name: &str) -> (orphan: bool)
    ensures
        orphan == is_leftover(name@),
{
    (begins_with(name, ".inline-compaction-") && finishes_with(name, ".tmp")) || begins_with(
        name,
        ".durability-probe-",
    )
}

/// Every temporary sidecar and every probe that is left over is recognised as such.
pub proof fn law_temporary_names_are_leftovers(process_id: u32, nonce: u64)
    ensures
        is_leftover(temp_name(process_id, nonce)),
        is_leftover(probe_stem(process_id, nonce) + ".tmp"@),
        is_leftover(probe_stem(process_id, nonce) + ".commit"@),
{
    let name = temp_name(process_id, nonce);
    let stem = probe_stem(process_id, nonce);
    let front = ".inline-compaction-"@;
    assert(name.subrange(0, front.len() as int) =~= front);
    assert(name.subrange(name.len() - ".tmp"@.len(), name.len() as int) =~= ".tmp"@);
    assert((stem + ".tmp"@).subrange(0, ".durability-probe-"@.len() as int)
        =~= ".durability-probe-"@);
    assert((stem + ".commit"@).subrange(0, ".durability-probe-"@.len() as int)
        =~= ".durability-probe-"@);
}

/// No sidecar, and not the lock of the writer, is taken for a left-over file.
pub proof fn law_kept_files_are_no_leftovers(lane_hash: Seq<char>)
    requires
        lane_hash.len() > 0,
        lane_hash[0] != '.',
    ensures
        !is_leftover(lane_hash + ".json"@),
        !is_leftover(WRITER_LOCK_FILENAME@),
{
    reveal_strlit(".inline-compaction-");
    reveal_strlit(".durability-probe-");
    reveal_strlit(".writer.lock");
    let name = lane_hash + ".json"@;
    assert(name[0] == lane_hash[0]);
    let front = ".inline-compaction-"@;
    let probe = ".durability-probe-"@;
    if parts::stands_at(name, front, 0) {
        assert(name.subrange(0, front.len() as int)[0] == front[0]);
    }
    if parts::stands_at(name, probe, 0) {
        assert(name.subrange(0, probe.len() as int)[0] == probe[0]);
    }
}

/// The step of making a state directory ready that comes next.
#[derive(Debug, Clone, Copy, PartialEq, Eq, Structural)]
pub enum DirectoryStep {
    /// Make it, with the directories above it.
    Create,
    /// Look what kind of file it is.
    Inspect,
    /// Make it private.
    Restrict,
    /// Look at its permissions.
    Verify,
    /// It can be used.
    Ready,
}

/// What a step of making a state directory ready found.
#[derive(Debug)]
pub enum DirectoryEvent {
    /// The step was done.
    Done,
    /// It is a directory and no link, or it is not.
    Kind { real_directory: bool },
    /// It has this mode.
    Mode(u32),
    /// The step failed.
    Failed(IoFailure),
}

impl DirectoryStep {
    /// How an I/O failure of the step is named.
    pub open spec fn operation_name(self) -> Seq<char> {
        match self {
            DirectoryStep::Create => "creating state directory"@,
            DirectoryStep::Inspect => "inspecting state directory"@,
            DirectoryStep::Restrict => "setting state directory permissions"@,
            _ => "verifying state directory permissions"@,
        }
    }

    /// Whether the step can find `event`.
    pub open spec fn finds(self, event: DirectoryEvent) -> bool {
        match event {
            DirectoryEvent::Failed(_) => self !is Ready,
            DirectoryEvent::Done => self is Create || self is Restrict,
            DirectoryEvent::Kind { .. } => self is Inspect,
            DirectoryEvent::Mode(_) => self is Verify,
        }
    }

    /// The step that follows the one that found `event`, unless it failed.
    pub open spec fn next(self, event: DirectoryEvent, has_modes: bool) -> Option<DirectoryStep> {
        match event {
            DirectoryEvent::Failed(_) => None,
            DirectoryEvent::Done => Some(
                if self is Create {
                    DirectoryStep::Inspect
                } else {
                    DirectoryStep::Verify
                },
            ),
            DirectoryEvent::Kind { real_directory } => if !real_directory {
                None
            } else if has_modes {
                Some(DirectoryStep::Restrict)
            } else {
                Some(DirectoryStep::Ready)
            },
            DirectoryEvent::Mode(mode) => if sidecar::permits(Some(mode), 0o700) {
                Some(DirectoryStep::Ready)
            } else {
                None
            },
        }
    }

    /// Whether a step that failed on `event` fails with `error`.
    pub open spec fn fails_with(self, event: DirectoryEvent, error: InlineCompactionError) -> bool {
        match event {
            DirectoryEvent::Failed(failure) => error.is_io(self.operation_name(), failure),
            DirectoryEvent::Kind { .. } => error.is_invalid_state(
                "state directory is not a real directory"@,
            ),
            DirectoryEvent::Mode(_) => error.is_invalid_state(
                "state directory permissions are not 0700"@,
            ),
            DirectoryEvent::Done => false,
        }
    }

    /// How an I/O failure of the step is named.
    fn operation(self) -> (name: &'static str)
        ensures
            name@ == self.operation_name(),
    {
        match self {
            DirectoryStep::Create => "creating state directory",
            DirectoryStep::Inspect => "inspecting state directory",
            DirectoryStep::Restrict => "setting state directory permissions",
            _ => "verifying state directory permissions",
        }
    }

    /// Decides what follows the step that found `event`. Where files have no modes, a directory
    /// can be used once its kind is known.
    pub fn advance(self, event: DirectoryEvent, has_modes: bool) -> (result: Result<
        DirectoryStep,
        InlineCompactionError,
    >)
        requires
            self.finds(event),
        ensures
            match self.next(event, has_modes) {
                Some(step) => result == Ok::<DirectoryStep, InlineCompactionError>(step),
                None => result matches Err(error) && self.fails_with(event, error),
            },
    {
        match event {
            DirectoryEvent::Failed(source) => Err(
                InlineCompactionError::Io { operation: self.operation(), source },
            ),
            DirectoryEvent::Done => if self == DirectoryStep::Create {
                Ok(DirectoryStep::Inspect)
            } else {
                Ok(DirectoryStep::Verify)
            },
            DirectoryEvent::Kind { real_directory } => if !real_directory {
                Err(InlineCompactionError::InvalidState("state directory is not a real directory"))
            } else if has_modes {
                Ok(DirectoryStep::Restrict)
            } else {
                Ok(DirectoryStep::Ready)
            },
            DirectoryEvent::Mode(mode) => if has_permissions(Some(mode), 0o700) {
                Ok(DirectoryStep::Ready)
            } else {
                Err(InlineCompactionError::InvalidState("state directory permissions are not 0700"))
            },
        }
    }
}

/// The step of becoming the writer of a state directory that comes next.
#[derive(Debug, Clone, Copy, PartialEq, Eq, Structural)]
pub enum LockStep {
    /// Look what stands at the path of the lock.
    InspectPath,
    /// Open the lock, making it where there is none.
    Open,
    /// Look what was opened.
    InspectOpened,
    /// Make the lock private.
    Restrict,
    /// Take the lock, without waiting.
    Lock,
    /// The process is the writer.
    Held,
}

/// What a step of becoming the writer found.
#[derive(Debug)]
pub enum LockEvent {
    /// The step was done.
    Done,
    /// It is a regular file and no link, or it is not.
    Kind { regular: bool },
    /// The step failed.
    Failed(IoFailure),
}

impl LockStep {
    /// How an I/O failure of the step is named.
    pub open spec fn operation_name(self) -> Seq<char> {
        match self {
            LockStep::Open => "opening state directory writer lock"@,
            LockStep::InspectOpened => "inspecting state directory writer lock"@,
            LockStep::Restrict => "setting writer lock permissions"@,
            _ => "locking state directory writer"@,
        }
    }

    /// Whether the step can find `event`.
    pub open spec fn finds(self, event: LockEvent) -> bool {
        match event {
            LockEvent::Failed(_) => self !is Held,
            LockEvent::Done => self is Open || self is Restrict || self is Lock,
            LockEvent::Kind { .. } => self is InspectPath || self is InspectOpened,
        }
    }

    /// The step behind this one.
    pub open spec fn following(self, has_modes: bool) -> LockStep {
        match self {
            LockStep::InspectPath => LockStep::Open,
            LockStep::Open => LockStep::InspectOpened,
            LockStep::InspectOpened => if has_modes {
                LockStep::Restrict
            } else {
                LockStep::Lock
            },
            LockStep::Restrict => LockStep::Lock,
            _ => LockStep::Held,
        }
    }

    /// The step that follows the one that found `event`, unless it failed.
    pub open spec fn next(self, event: LockEvent, has_modes: bool) -> Option<LockStep> {
        match event {
            LockEvent::Done => Some(self.following(has_modes)),
            LockEvent::Kind { regular } => if regular {
                Some(self.following(has_modes))
            } else {
                None
            },
            LockEvent::Failed(_) => if self is InspectPath {
                Some(LockStep::Open)
            } else {
                None
            },
        }
    }

    /// Whether a step that failed on `event` fails with `error`.
    pub open spec fn fails_with(self, event: LockEvent, error: InlineCompactionError) -> bool {
        match event {
            LockEvent::Kind { .. } => error.is_invalid_state(
                "writer lock path is not a regular file"@,
            ),
            LockEvent::Failed(failure) => if self is Lock && failure.kind == IoKind::WouldBlock {
                error is StateDirWriterLocked
            } else {
                error.is_io(self.operation_name(), failure)
            },
            LockEvent::Done => false,
        }
    }

    /// How an I/O failure of the step is named.
    fn operation(self) -> (name: &'static str)
        ensures
            name@ == self.operation_name(),
    {
        match self {
            LockStep::Open => "opening state directory writer lock",
            LockStep::InspectOpened => "inspecting state directory writer lock",
            LockStep::Restrict => "setting writer lock permissions",
            _ => "locking state directory writer",
        }
    }

    /// Decides what follows the step that found `event`. A path that cannot be inspected is left
    /// to the step that opens it; a lock that is taken has another owner.
    pub fn advance(self, event: LockEvent, has_modes: bool) -> (result: Result<
        LockStep,
        InlineCompactionError,
    >)
        requires
            self.finds(event),
        ensures
            match self.next(event, has_modes) {
                Some(step) => result == Ok::<LockStep, InlineCompactionError>(step),
                None => result matches Err(error) && self.fails_with(event, error),
            },
    {
        match event {
            LockEvent::Kind { regular } if !regular => Err(
                InlineCompactionError::InvalidState("writer lock path is not a regular file"),
            ),
            LockEvent::Failed(source) => if self == LockStep::InspectPath {
                Ok(LockStep::Open)
            } else if self == LockStep::Lock && source.kind == IoKind::WouldBlock {
                Err(InlineCompactionError::StateDirWriterLocked)
            } else {
                Err(InlineCompactionError::Io { operation: self.operation(), source })
            },
            _ => Ok(
                match self {
                    LockStep::InspectPath => LockStep::Open,
                    LockStep::Open => LockStep::InspectOpened,
                    LockStep::InspectOpened => if has_modes {
                        LockStep::Restrict
                    } else {
                        LockStep::Lock
                    },
                    LockStep::Restrict => LockStep::Lock,
                    _ => LockStep::Held,
                },
            ),
        }
    }
}

/// The step of probing a state directory that comes next.
#[derive(Debug, Clone, Copy, PartialEq, Eq, Structural)]
pub enum ProbeStep {
    /// Make the probe.
    Create,
    /// Write into it.
    Write,
    /// Sync it to disk.
    Sync,
    /// Open the state directory.
    OpenDirectory,
    /// Rename the probe.
    Rename,
    /// Sync the directory to disk.
    SyncRename,
    /// Remove the probe.
    Remove,
    /// Sync the directory to disk once more.
    SyncRemoval,
    /// The directory supports durable commits.
    Passed,
}

impl ProbeStep {
    /// How an I/O failure of the step is named.
    pub open spec fn operation_name(self) -> Seq<char> {
        match self {
            ProbeStep::Create => "creating state durability probe"@,
            ProbeStep::Write => "writing state durability probe"@,
            ProbeStep::Sync => "syncing state durability probe"@,
            ProbeStep::OpenDirectory => "opening state directory for probe"@,
            ProbeStep::Rename => "renaming state durability probe"@,
            ProbeStep::SyncRename => "syncing state directory after probe rename"@,
            ProbeStep::Remove => "removing state durability probe"@,
            _ => "syncing state directory after probe cleanup"@,
        }
    }

    /// Whether the step syncs a directory.
    pub open spec fn syncs_directory(self) -> bool {
        self is SyncRename || self is SyncRemoval
    }

    /// Whether the step is repeated when it is interrupted.
    pub open spec fn is_repeated(self) -> bool {
        self is Sync || self.syncs_directory()
    }

    /// The step behind this one.
    pub open spec fn following(self) -> ProbeStep {
        match self {
            ProbeStep::Create => ProbeStep::Write,
            ProbeStep::Write => ProbeStep::Sync,
            ProbeStep::Sync => ProbeStep::OpenDirectory,
            ProbeStep::OpenDirectory => ProbeStep::Rename,
            ProbeStep::Rename => ProbeStep::SyncRename,
            ProbeStep::SyncRename => ProbeStep::Remove,
            ProbeStep::Remove => ProbeStep::SyncRemoval,
            _ => ProbeStep::Passed,
        }
    }

    /// The step that follows the one that was performed with the outcome `outcome`, unless it
    /// failed.
    pub open spec fn next(self, outcome: Result<(), IoFailure>) -> Option<ProbeStep> {
        match outcome {
            Ok(_) => Some(self.following()),
            Err(failure) => if self.is_repeated() && failure.kind == IoKind::Interrupted {
                Some(self)
            } else {
                None
            },
        }
    }

    /// Whether a step that failed with the outcome `outcome` fails with `error`.
    pub open spec fn fails_with(
        self,
        outcome: Result<(), IoFailure>,
        error: InlineCompactionError,
    ) -> bool {
        match outcome {
            Ok(_) => false,
            Err(failure) => if self.syncs_directory() && failure.says_sync_unsupported() {
                error == (InlineCompactionError::StateDurabilityUnsupported { source: failure })
            } else {
                error.is_io(self.operation_name(), failure)
            },
        }
    }

    /// How an I/O failure of the step is named.
    fn operation(self) -> (name: &'static str)
        ensures
            name@ == self.operation_name(),
    {
        match self {
            ProbeStep::Create => "creating state durability probe",
            ProbeStep::Write => "writing state durability probe",
            ProbeStep::Sync => "syncing state durability probe",
            ProbeStep::OpenDirectory => "opening state directory for probe",
            ProbeStep::Rename => "renaming state durability probe",
            ProbeStep::SyncRename => "syncing state directory after probe rename",
            ProbeStep::Remove => "removing state durability probe",
            _ => "syncing state directory after probe cleanup",
        }
    }

    /// The first step of a probe, where there is one.
    pub open spec fn first(directory_sync: bool) -> Option<ProbeStep> {
        if directory_sync {
            Some(ProbeStep::Create)
        } else {
            None
        }
    }

    /// The first step of a probe, where directories can be synced at all.
    pub fn begin(directory_sync: bool) -> (result: Result<ProbeStep, InlineCompactionError>)
        ensures
            directory_sync ==> result == Ok::<ProbeStep, InlineCompactionError>(ProbeStep::Create),
            !directory_sync ==> (result matches Err(error) && is_unsupported_commit(error)),
            match ProbeStep::first(directory_sync) {
                Some(step) => result == Ok::<ProbeStep, InlineCompactionError>(step),
                None => result is Err,
            },
    {
        if directory_sync {
            Ok(ProbeStep::Create)
        } else {
            Err(unsupported_commit())
        }
    }

    /// Decides what follows the step that was performed with the outcome `outcome`. On a failure
    /// what is left of the probe is to be removed.
    pub fn advance(self, outcome: Result<(), IoFailure>) -> (result: Result<
        ProbeStep,
        InlineCompactionError,
    >)
        requires
            self !is Passed,
        ensures
            match self.next(outcome) {
                Some(step) => result == Ok::<ProbeStep, InlineCompactionError>(step),
                None => result matches Err(error) && self.fails_with(outcome, error),
            },
    {
        let syncs_directory = self == ProbeStep::SyncRename || self == ProbeStep::SyncRemoval;
        match outcome {
            Ok(_) => Ok(
                match self {
                    ProbeStep::Create => ProbeStep::Write,
                    ProbeStep::Write => ProbeStep::Sync,
                    ProbeStep::Sync => ProbeStep::OpenDirectory,
                    ProbeStep::OpenDirectory => ProbeStep::Rename,
                    ProbeStep::Rename => ProbeStep::SyncRename,
                    ProbeStep::SyncRename => ProbeStep::Remove,
                    ProbeStep::Remove => ProbeStep::SyncRemoval,
                    _ => ProbeStep::Passed,
                },
            ),
            Err(source) => if (self == ProbeStep::Sync || syncs_directory) && source.kind
                == IoKind::Interrupted {
                Ok(self)
            } else if syncs_directory && source.directory_sync_unsupported() {
                Err(InlineCompactionError::StateDurabilityUnsupported { source })
            } else {
                Err(InlineCompactionError::Io { operation: self.operation(), source })
            },
        }
    }
}

/// What the inspection of a stale sidecar comes to: whether it is to be removed, unless it failed.
pub open spec fn stale_sidecar(found: Result<bool, IoFailure>) -> Option<bool> {
    match found {
        Ok(regular) => if regular {
            Some(true)
        } else {
            None
        },
        Err(failure) => if failure.kind == IoKind::NotFound {
            Some(false)
        } else {
            None
        },
    }
}

/// Decides on removing a stale sidecar by what its inspection found, as whether it is a regular
/// file and no link: `false` where there is none, `true` where it is to be removed.
pub fn inspect_stale_sidecar(found: Result<bool, IoFailure>) -> (result: Result<
    bool,
    InlineCompactionError,
>)
    ensures
        match found {
            Ok(regular) => if regular {
                result == Ok::<bool, InlineCompactionError>(true)
            } else {
                result matches Err(error) && error.is_invalid_state(
                    "sidecar removal target is not a regular file"@,
                )
            },
            Err(failure) => if failure.kind == IoKind::NotFound {
                result == Ok::<bool, InlineCompactionError>(false)
            } else {
                result matches Err(error) && error.is_io("inspecting stale sidecar"@, failure)
            },
        },
        match stale_sidecar(found) {
            Some(removed) => result == Ok::<bool, InlineCompactionError>(removed),
            None => result is Err,
        },
{
    match found {
        Ok(regular) => if regular {
            Ok(true)
        } else {
            Err(InlineCompactionError::InvalidState("sidecar removal target is not a regular file"))
        },
        Err(source) => if source.kind == IoKind::NotFound {
            Ok(false)
        } else {
            Err(InlineCompactionError::Io { operation: "inspecting stale sidecar", source })
        },
    }
}

/// The writing after the outcomes `outcomes`, as long as each lets it go on.
pub open spec fn write_run(write: StateWrite, outcomes: Seq<Result<(), IoFailure>>) -> Option<
    WriteStep,
>
    decreases outcomes.len(),
{
    if outcomes.len() == 0 {
        Some(write.step)
    } else {
        match write_run(write, outcomes.drop_last()) {
            None => None,
            Some(step) => step_after(write, step, outcomes.last()),
        }
    }
}

/// The step behind `step` with the outcome `outcome`, where the writing goes on.
pub open spec fn step_after(
    write: StateWrite,
    step: WriteStep,
    outcome: Result<(), IoFailure>,
) -> Option<WriteStep> {
    if step is Committed {
        None
    } else {
        match outcome {
            Ok(_) => if step is SwitchName && !write.directory_sync {
                None
            } else {
                Some((StateWrite { step, ..write }).next_step())
            },
            Err(failure) => if step.is_repeated() && failure.kind == IoKind::Interrupted {
                Some(step)
            } else {
                None
            },
        }
    }
}

/// How many of the outcomes are successes.
pub open spec fn successes(outcomes: Seq<Result<(), IoFailure>>) -> nat
    decreases outcomes.len(),
{
    if outcomes.len() == 0 {
        0
    } else {
        successes(outcomes.drop_last()) + if outcomes.last() is Ok {
            1nat
        } else {
            0nat
        }
    }
}

/// How many steps stand before `step`.
pub open spec fn rank(step: WriteStep) -> nat {
    match step {
        WriteStep::CreateTemp => 0,
        WriteStep::WriteTemp => 1,
        WriteStep::RestrictTemp => 2,
        WriteStep::SyncTemp => 3,
        WriteStep::OpenDirectory => 4,
        WriteStep::SwitchName => 5,
        WriteStep::SyncDirectory => 6,
        WriteStep::Committed => 7,
    }
}

/// What a step decides is where a run of the writing goes.
pub proof fn law_steps_follow_the_run(
    write: StateWrite,
    progress: WriteProgress,
    outcome: Result<(), IoFailure>,
    at_ms: u64,
)
    requires
        write.step !is Committed,
        write.leads_to(outcome, at_ms, progress),
    ensures
        step_after(write, write.step, outcome) == match progress {
            WriteProgress::Continue(next) => Some(next.step),
            _ => None,
        },
{
}

/// A sidecar is committed only when each of the seven steps has succeeded, in their order: the
/// directory entry is switched after the new contents are on disk, and the commit is confirmed
/// after the directory is. Only a sync that was interrupted is tried again.
pub proof fn law_commit_takes_every_step(write: StateWrite, outcomes: Seq<Result<(), IoFailure>>)
    requires
        write.step is CreateTemp,
        write_run(write, outcomes) is Some,
    ensures
        write.directory_sync ==> rank(write_run(write, outcomes)->0) == successes(outcomes),
        write_run(write, outcomes)->0 is Committed ==> write.directory_sync && successes(outcomes)
            == 7,
        forall|i: int|
            0 <= i < outcomes.len() && (#[trigger] outcomes[i]) is Err ==> outcomes[i]->Err_0.kind
                == IoKind::Interrupted,
    decreases outcomes.len(),
{
    if outcomes.len() > 0 {
        let front = outcomes.drop_last();
        law_commit_takes_every_step(write, front);
        assert forall|i: int|
            0 <= i < outcomes.len() && (#[trigger] outcomes[i]) is Err implies outcomes[i]->Err_0.kind
            == IoKind::Interrupted by {
            if i < front.len() {
                assert(front[i] == outcomes[i]);
            }
        }
        if !write.directory_sync {
            lemma_no_commit_without_directory_sync(write, outcomes);
        }
    }
}

/// Where directories cannot be synced, nothing is committed.
proof fn lemma_no_commit_without_directory_sync(
    write: StateWrite,
    outcomes: Seq<Result<(), IoFailure>>,
)
    requires
        write.step is CreateTemp,
        !write.directory_sync,
        write_run(write, outcomes) is Some,
    ensures
        rank(write_run(write, outcomes)->0) <= 5,
    decreases outcomes.len(),
{
    if outcomes.len() > 0 {
        lemma_no_commit_without_directory_sync(write, outcomes.drop_last());
    }
}

/// A failure before the directory entry is switched is an I/O error that leaves the sidecar as it
/// was; it is indeterminate what is on disk only once the entry has been switched.
pub proof fn law_only_the_last_step_is_indeterminate(
    write: StateWrite,
    outcomes: Seq<Result<(), IoFailure>>,
)
    requires
        write.step is CreateTemp,
        write.directory_sync,
        write_run(write, outcomes) == Some(WriteStep::SyncDirectory),
    ensures
        successes(outcomes) == 6,
{
    law_commit_takes_every_step(write, outcomes);
}

/// The probe after the outcomes `outcomes`, as long as each lets it go on.
pub open spec fn probe_run(outcomes: Seq<Result<(), IoFailure>>) -> Option<ProbeStep>
    decreases outcomes.len(),
{
    if outcomes.len() == 0 {
        Some(ProbeStep::Create)
    } else {
        match probe_run(outcomes.drop_last()) {
            None => None,
            Some(step) => if step is Passed {
                None
            } else {
                match outcomes.last() {
                    Ok(_) => Some(step.following()),
                    Err(failure) => if step.is_repeated() && failure.kind == IoKind::Interrupted {
                        Some(step)
                    } else {
                        None
                    },
                }
            },
        }
    }
}

/// How many steps of a probe stand before `step`.
pub open spec fn probe_rank(step: ProbeStep) -> nat {
    match step {
        ProbeStep::Create => 0,
        ProbeStep::Write => 1,
        ProbeStep::Sync => 2,
        ProbeStep::OpenDirectory => 3,
        ProbeStep::Rename => 4,
        ProbeStep::SyncRename => 5,
        ProbeStep::Remove => 6,
        ProbeStep::SyncRemoval => 7,
        ProbeStep::Passed => 8,
    }
}

/// A state directory passes the probe only when each of the eight steps has succeeded, both
/// directory syncs among them.
pub proof fn law_probe_takes_every_step(outcomes: Seq<Result<(), IoFailure>>)
    requires
        probe_run(outcomes) is Some,
    ensures
        probe_rank(probe_run(outcomes)->0) == successes(outcomes),
        probe_run(outcomes)->0 is Passed ==> successes(outcomes) == 8,
    decreases outcomes.len(),
{
    if outcomes.len() > 0 {
        law_probe_takes_every_step(outcomes.drop_last());
    }
}

/// A commit where directories can be synced makes a temporary file, writes it, makes it private,
/// syncs it, opens the directory, renames the file and syncs the directory, in this order. It keeps
/// what it writes, and notes when the file was synced and when it was renamed.
pub proof fn law_commits_go_step_by_step(
    write: StateWrite,
    i: int,
    order: Seq<WriteStep>,
    at_ms: u64,
    progress: WriteProgress,
)
    requires
        order == seq![
            WriteStep::CreateTemp,
            WriteStep::WriteTemp,
            WriteStep::RestrictTemp,
            WriteStep::SyncTemp,
            WriteStep::OpenDirectory,
            WriteStep::SwitchName,
            WriteStep::SyncDirectory,
            WriteStep::Committed,
        ],
        0 <= i < 7,
        write.step == order[i],
        write.directory_sync,
        write.leads_to(Ok(()), at_ms, progress),
    ensures
        progress matches WriteProgress::Continue(next) && {
            &&& next.step == order[i + 1]
            &&& next.contents == write.contents
            &&& next.directory_sync
            &&& next.old_revision == write.old_revision
            &&& next.candidate_revision == write.candidate_revision
            &&& next.old_sidecar_hash == write.old_sidecar_hash
            &&& next.new_sidecar_hash == write.new_sidecar_hash
            &&& next.temp_fsynced_at_ms == if write.step is SyncTemp {
                at_ms
            } else {
                write.temp_fsynced_at_ms
            }
            &&& next.rename_at_ms == if write.step is SwitchName {
                at_ms
            } else {
                write.rename_at_ms
            }
        },
{
}

/// Where directories cannot be synced a commit makes a temporary file, writes it, syncs it and
/// renames it, and then fails: it cannot be confirmed.
pub proof fn law_commits_without_directory_sync_fail(
    write: StateWrite,
    i: int,
    order: Seq<WriteStep>,
    at_ms: u64,
    progress: WriteProgress,
)
    requires
        order == seq![
            WriteStep::CreateTemp,
            WriteStep::WriteTemp,
            WriteStep::SyncTemp,
            WriteStep::SwitchName,
        ],
        0 <= i < 4,
        write.step == order[i],
        !write.directory_sync,
        write.leads_to(Ok(()), at_ms, progress),
    ensures
        i < 3 ==> (progress matches WriteProgress::Continue(next) && next.step == order[i + 1]
            && next.contents == write.contents && !next.directory_sync),
        i == 3 ==> (progress matches WriteProgress::Failed(error)
            && error matches InlineCompactionError::StateDurabilityUnsupported { source }
            && source.kind is Unsupported && source.message@
            == "directory fsync is required for strict durable commits"@),
{
}

/// A step that fails ends the commit with the failure and the name of what was done, but for two
/// kinds of failure: a sync that was interrupted is tried again, and a failure to sync the directory
/// leaves it open what is on disk.
pub proof fn law_failed_steps_end_the_commit(
    write: StateWrite,
    failure: IoFailure,
    at_ms: u64,
    progress: WriteProgress,
)
    requires
        write.step !is Committed,
        write.leads_to(Err(failure), at_ms, progress),
    ensures
        (write.step is SyncTemp || write.step is SyncDirectory) && failure.kind is Interrupted
            ==> progress == WriteProgress::Continue(write),
        write.step is SyncDirectory && failure.kind !is Interrupted ==> progress == (
        WriteProgress::Unconfirmed { write, source: failure }),
        write.step !is SyncDirectory && !(write.step is SyncTemp && failure.kind is Interrupted)
            ==> (progress matches WriteProgress::Failed(error)
            && error matches InlineCompactionError::Io { operation, source } && source == failure && (
        write.step is CreateTemp ==> operation@ == "creating temporary sidecar"@) && (
        write.step is WriteTemp ==> operation@ == "writing temporary sidecar"@) && (
        write.step is RestrictTemp ==> operation@ == "setting sidecar permissions"@) && (
        write.step is SyncTemp ==> operation@ == "syncing temporary sidecar"@) && (
        write.step is OpenDirectory ==> operation@ == "opening state directory"@) && (
        write.step is SwitchName ==> operation@ == "committing sidecar"@)),
{
}

/// A commit begins with the sealed state, its digest and its revision, and with the digest of the
/// sidecar before it where there was one.
pub proof fn law_commits_begin_with_the_sealed_state(
    write: StateWrite,
    state: StateView,
    old_revision: Option<u64>,
    previous: Result<Vec<u8>, IoFailure>,
    directory_sync: bool,
)
    requires
        is_begun(write, state, old_revision, previous, directory_sync),
    ensures
        write.contents@ == sidecar::sealed(state),
        write.new_sidecar_hash@ == digest::text_fingerprint(write.contents@),
        write.candidate_revision == state.updated_at_ms,
        write.old_revision == old_revision,
        write.directory_sync == directory_sync,
        previous is Err ==> write.old_sidecar_hash is None,
        previous matches Ok(bytes) ==> (write.old_sidecar_hash matches Some(hash) && hash@
            == digest::fingerprint(bytes@)),
        write.temp_fsynced_at_ms == 0 && write.rename_at_ms == 0,
        write_run(write, Seq::empty()) == Some(WriteStep::CreateTemp),
{
}

/// What is logged of a commit, over all its steps in order: each step that changes what is on disk
/// is told once it is done, and the last tells that the sidecar is committed.
pub proof fn law_commits_are_logged(step: WriteStep)
    ensures
        WriteStep::CreateTemp.event_names() + WriteStep::WriteTemp.event_names()
            + WriteStep::RestrictTemp.event_names() + WriteStep::SyncTemp.event_names()
            + WriteStep::OpenDirectory.event_names() + WriteStep::SwitchName.event_names()
            + WriteStep::SyncDirectory.event_names() + WriteStep::Committed.event_names() == seq![
            "state_temp_created"@,
            "state_temp_written"@,
            "state_temp_fsynced"@,
            "state_namespace_switched"@,
            "state_directory_fsynced"@,
            "state_sidecar_committed"@,
        ],
        step.event_names().contains("state_temp_created"@) ==> step is CreateTemp,
        step.event_names().contains("state_temp_written"@) ==> step is WriteTemp,
        step.event_names().contains("state_temp_fsynced"@) ==> step is SyncTemp,
        step.event_names().contains("state_namespace_switched"@) ==> step is SwitchName,
        step.event_names().contains("state_directory_fsynced"@) ==> step is SyncDirectory,
        step.event_names().contains("state_sidecar_committed"@) ==> step is SyncDirectory,
{
    reveal_strlit("state_temp_created");
    reveal_strlit("state_temp_written");
    reveal_strlit("state_temp_fsynced");
    reveal_strlit("state_namespace_switched");
    reveal_strlit("state_directory_fsynced");
    reveal_strlit("state_sidecar_committed");
    assert("state_temp_created"@.len() == 18 && "state_temp_created"@[11] == 'c');
    assert("state_temp_written"@.len() == 18 && "state_temp_written"@[11] == 'w');
    assert("state_temp_fsynced"@.len() == 18 && "state_temp_fsynced"@[11] == 'f');
    assert("state_namespace_switched"@.len() == 24);
    assert("state_directory_fsynced"@.len() == 23 && "state_directory_fsynced"@[6] == 'd');
    assert("state_sidecar_committed"@.len() == 23 && "state_sidecar_committed"@[6] == 's');
}

/// Temporary files are named by the process and a number of sixteen hexadecimal digits.
pub proof fn law_temporary_names(process_id: u32, nonce: u64)
    ensures
        temp_name(process_id, nonce) == ".inline-compaction-"@ + (decimal::decimal(
            process_id as nat,
        ) + "-"@ + digest::hex(digest::length_bytes(nonce))) + ".tmp"@,
        probe_stem(process_id, nonce) == ".durability-probe-"@ + (decimal::decimal(
            process_id as nat,
        ) + "-"@ + digest::hex(digest::length_bytes(nonce))),
        digest::hex(digest::length_bytes(nonce)).len() == 16,
        WRITER_LOCK_FILENAME@ == ".writer.lock"@,
        PROBE_CONTENTS@ == "claudex-state-durability-probe-v1\n"@,
{
    digest::law_lengths_are_written_in_eight_bytes(nonce);
}

/// A file is left over where it is named as a temporary sidecar is, at both ends, or as a probe is,
/// in front, and no other file is.
pub proof fn law_leftovers_are_told_by_their_names(name: Seq<char>)
    ensures
        is_leftover(name) <==> {
            ||| exists|middle: Seq<char>|
                name == #[trigger] (".inline-compaction-"@ + middle + ".tmp"@)
            ||| exists|rest: Seq<char>| name == #[trigger] (".durability-probe-"@ + rest)
        },
{
    reveal_strlit(".inline-compaction-");
    reveal_strlit(".durability-probe-");
    reveal_strlit(".tmp");
    let (front, back, probe) = (".inline-compaction-"@, ".tmp"@, ".durability-probe-"@);
    assert(front.len() == 19 && back.len() == 4 && probe.len() == 18);
    assert(front[15] == 'i' && front[16] == 'o' && front[17] == 'n' && front[18] == '-');
    assert(back[0] == '.');
    let n = name.len();
    if parts::stands_at(name, front, 0) && parts::stands_at(name, back, n - 4) {
        let (head, tail) = (name.subrange(0, 19), name.subrange(n - 4, n as int));
        assert(tail[0] == name[n - 4]);
        if n < 23 {
            assert(head[n - 4] == name[n - 4]);
            assert(false);
        }
        let middle = name.subrange(19, n - 4);
        assert(name =~= front + middle + back);
    }
    if parts::stands_at(name, probe, 0) {
        assert(name =~= name.subrange(0, 18) + name.skip(18));
        assert(name == probe + name.skip(18));
    }
    if exists|middle: Seq<char>| name == #[trigger] (front + middle + back) {
        let middle = choose|middle: Seq<char>| name == #[trigger] (front + middle + back);
        assert(name.subrange(0, 19) =~= front);
        assert(name.subrange(n - 4, n as int) =~= back);
    }
    if exists|rest: Seq<char>| name == #[trigger] (probe + rest) {
        let rest = choose|rest: Seq<char>| name == #[trigger] (probe + rest);
        assert(name.subrange(0, 18) =~= probe);
    }
}

/// A probe makes a file, writes and syncs it, opens the directory, renames the file, syncs the
/// directory, removes the file and syncs the directory again. A sync that was interrupted is tried
/// again; any other failure ends the probe.
pub proof fn law_probes_go_step_by_step(
    i: int,
    order: Seq<ProbeStep>,
    step: ProbeStep,
    failure: IoFailure,
)
    requires
        order == seq![
            ProbeStep::Create,
            ProbeStep::Write,
            ProbeStep::Sync,
            ProbeStep::OpenDirectory,
            ProbeStep::Rename,
            ProbeStep::SyncRename,
            ProbeStep::Remove,
            ProbeStep::SyncRemoval,
            ProbeStep::Passed,
        ],
        0 <= i < 8,
        step == order[i],
    ensures
        step.next(Ok(())) == Some(order[i + 1]),
        failure.kind is Interrupted && (i == 2 || i == 5 || i == 7) ==> step.next(Err(failure))
            == Some(step),
        !(failure.kind is Interrupted && (i == 2 || i == 5 || i == 7)) ==> step.next(
            Err(failure),
        ) is None,
{
}

/// A probe that fails is refused with the failure and the name of what was done; only where a sync
/// of the directory says that it cannot be done at all, the directory is said not to support it.
pub proof fn law_failed_probes_are_named(
    step: ProbeStep,
    failure: IoFailure,
    error: InlineCompactionError,
)
    requires
        step !is Passed,
        step.fails_with(Err(failure), error),
    ensures
        (step is SyncRename || step is SyncRemoval) && failure.says_sync_unsupported()
            <==> error is StateDurabilityUnsupported,
        error matches InlineCompactionError::StateDurabilityUnsupported { source } ==> source
            == failure,
        error !is StateDurabilityUnsupported ==> (error matches InlineCompactionError::Io {
            operation,
            source,
        } && source == failure && (step is Create ==> operation@
            == "creating state durability probe"@) && (step is Write ==> operation@
            == "writing state durability probe"@) && (step is Sync ==> operation@
            == "syncing state durability probe"@) && (step is OpenDirectory ==> operation@
            == "opening state directory for probe"@) && (step is Rename ==> operation@
            == "renaming state durability probe"@) && (step is SyncRename ==> operation@
            == "syncing state directory after probe rename"@) && (step is Remove ==> operation@
            == "removing state durability probe"@) && (step is SyncRemoval ==> operation@
            == "syncing state directory after probe cleanup"@)),
{
}

/// A state directory that cannot be made ready, or whose lock cannot be had, is refused with the
/// failure and the name of what was done, or for what it was found to be.
pub proof fn law_refused_directories_are_named(
    step: DirectoryStep,
    event: DirectoryEvent,
    lock: LockStep,
    found: LockEvent,
    error: InlineCompactionError,
)
    ensures
        event matches DirectoryEvent::Failed(failure) ==> (step.fails_with(event, error) <==> (
        error matches InlineCompactionError::Io { operation, source } && source == failure
            && operation@ == if step is Create {
            "creating state directory"@
        } else if step is Inspect {
            "inspecting state directory"@
        } else if step is Restrict {
            "setting state directory permissions"@
        } else {
            "verifying state directory permissions"@
        })),
        event is Kind ==> (step.fails_with(event, error) <==> (
        error matches InlineCompactionError::InvalidState(text) && text@
            == "state directory is not a real directory"@)),
        event is Mode ==> (step.fails_with(event, error) <==> (
        error matches InlineCompactionError::InvalidState(text) && text@
            == "state directory permissions are not 0700"@)),
        found is Kind ==> (lock.fails_with(found, error) <==> (
        error matches InlineCompactionError::InvalidState(text) && text@
            == "writer lock path is not a regular file"@)),
        found matches LockEvent::Failed(failure) ==> (lock.fails_with(found, error) <==> if lock
            is Lock && failure.kind is WouldBlock {
            error is StateDirWriterLocked
        } else {
            error matches InlineCompactionError::Io { operation, source } && source == failure
                && operation@ == if lock is Open {
                "opening state directory writer lock"@
            } else if lock is InspectOpened {
                "inspecting state directory writer lock"@
            } else if lock is Restrict {
                "setting writer lock permissions"@
            } else {
                "locking state directory writer"@
            }
        }),
{
}

/// What is told of a commit that may or may not have reached the disk: the digests and revisions of
/// the sidecar before and of the new one, when each step was done, and where.
pub proof fn law_indeterminate_commits_tell_what_is_known(
    write: StateWrite,
    state: StateView,
    old_revision: Option<u64>,
    previous: Result<Vec<u8>, IoFailure>,
    later: StateWrite,
    source: IoFailure,
    started_at_ms: u64,
    failed_at_ms: u64,
    mount: StateDirMountMetadata,
    details: DurabilityIndeterminateDetails,
)
    requires
        is_begun(write, state, old_revision, previous, true),
        later == (StateWrite {
            step: later.step,
            temp_fsynced_at_ms: later.temp_fsynced_at_ms,
            rename_at_ms: later.rename_at_ms,
            ..write
        }),
        details == later.known(source, started_at_ms, failed_at_ms, mount),
    ensures
        details.old_revision == old_revision,
        details.candidate_revision == state.updated_at_ms,
        details.new_sidecar_hash@ == digest::text_fingerprint(sidecar::sealed(state)),
        previous is Err ==> details.old_sidecar_hash is None,
        previous matches Ok(bytes) ==> (details.old_sidecar_hash matches Some(hash) && hash@
            == digest::fingerprint(bytes@)),
        details.temp_fsynced_at_ms == later.temp_fsynced_at_ms,
        details.rename_at_ms == later.rename_at_ms,
        details.directory_fsync_started_at_ms == started_at_ms,
        details.directory_fsync_failed_at_ms == failed_at_ms,
        details.errno == source.raw_os_error,
        details.filesystem_type == mount.filesystem_type,
        details.mount_id == mount.mount_id,
        details.mount_options == mount.mount_options,
{
}

/// A stale sidecar is removed where it is a regular file, and left alone where it is not there;
/// anything else is refused.
pub proof fn law_stale_sidecars_are_regular_files(found: Result<bool, IoFailure>)
    ensures
        stale_sidecar(found) == Some(true) <==> found == Ok::<bool, IoFailure>(true),
        stale_sidecar(found) == Some(false) <==> (found matches Err(failure) && failure.kind
            is NotFound),
{
}

/// A probe begins with making a file, and only where directories can be synced; a directory that has
/// passed it is said to support directory syncs, on the mount that it lies on.
pub proof fn law_probed_directories_support_syncs(
    directory_sync: bool,
    capability: StateDirDurabilityCapability,
    mount: StateDirMountMetadata,
)
    requires
        capability.is_probed(mount),
    ensures
        directory_sync <==> ProbeStep::first(directory_sync) == probe_run(Seq::empty()),
        !directory_sync <==> ProbeStep::first(directory_sync) is None,
        capability.directory_fsync_supported,
        capability == (StateDirDurabilityCapability {
            filesystem_type: mount.filesystem_type,
            mount_id: mount.mount_id,
            mount_options: mount.mount_options,
            directory_fsync_supported: true,
        }),
{
}

}
