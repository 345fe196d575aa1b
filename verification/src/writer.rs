//! Becoming the writer of a state directory: it is made ready, its lock is taken, what an earlier
//! writer left over is removed, and it is probed, in this order. The steps are performed elsewhere;
//! here it is decided which comes next and what a failure means.

use vstd::prelude::*;
use vstd::string::*;

use crate::durability::{
    is_orphan_artifact, DirectoryEvent, DirectoryStep, LockEvent, LockStep, ProbeStep,
    StateDirDurabilityCapability,
};
use crate::durability;
use crate::error::{InlineCompactionError, IoFailure, IoKind};
use crate::mount::StateDirMountMetadata;

verus! {

/// The step of removing left-over files that comes next.
#[derive(Debug, Clone, Copy, PartialEq, Eq, Structural)]
pub enum CleanupStep {
    /// List the state directory.
    List,
    /// Look at the next entry of the list.
    Next,
    /// Look what kind of file the entry is.
    Inspect,
    /// Remove the entry.
    Remove,
    /// Nothing is left over.
    Clean,
}

/// What a step of removing left-over files found.
#[derive(Debug)]
pub enum CleanupEvent {
    /// The step was done.
    Done,
    /// There is an entry with this name, or with a name that is not Unicode.
    Entry(Option<String>),
    /// There is no further entry.
    End,
    /// It is a regular file and no link, or it is not.
    Kind { regular: bool },
    /// The step failed.
    Failed(IoFailure),
}

impl CleanupStep {
    /// How an I/O failure of the step is named.
    pub open spec fn operation_name(self) -> Seq<char> {
        match self {
            CleanupStep::List => "listing state directory"@,
            CleanupStep::Next => "reading state directory entry"@,
            CleanupStep::Inspect => "inspecting orphan temporary sidecar"@,
            _ => "removing orphan temporary sidecar"@,
        }
    }

    /// Whether the step can find `event`.
    pub open spec fn finds(self, event: CleanupEvent) -> bool {
        match event {
            CleanupEvent::Failed(_) => self !is Clean,
            CleanupEvent::Done => self is List || self is Remove,
            CleanupEvent::Entry(_) => self is Next,
            CleanupEvent::End => self is Next,
            CleanupEvent::Kind { .. } => self is Inspect,
        }
    }

    /// The step that follows the one that found `event`, unless it failed. Only a left-over file is
    /// inspected and removed.
    pub open spec fn next(self, event: CleanupEvent) -> Option<CleanupStep> {
        match event {
            CleanupEvent::Failed(_) => None,
            CleanupEvent::Done => Some(CleanupStep::Next),
            CleanupEvent::Entry(name) => Some(
                if name matches Some(name) && durability::is_leftover(name@) {
                    CleanupStep::Inspect
                } else {
                    CleanupStep::Next
                },
            ),
            CleanupEvent::End => Some(CleanupStep::Clean),
            CleanupEvent::Kind { regular } => if regular {
                Some(CleanupStep::Remove)
            } else {
                None
            },
        }
    }

    /// Whether a step that failed on `event` fails with `error`.
    pub open spec fn fails_with(self, event: CleanupEvent, error: InlineCompactionError) -> bool {
        match event {
            CleanupEvent::Failed(failure) => error.is_io(self.operation_name(), failure),
            CleanupEvent::Kind { .. } => error.is_invalid_state(
                "orphan temporary sidecar is not a regular file"@,
            ),
            _ => false,
        }
    }

    /// How an I/O failure of the step is named.
    fn operation(self) -> (name: &'static str)
        ensures
            name@ == self.operation_name(),
    {
        match self {
            CleanupStep::List => "listing state directory",
            CleanupStep::Next => "reading state directory entry",
            CleanupStep::Inspect => "inspecting orphan temporary sidecar",
            _ => "removing orphan temporary sidecar",
        }
    }

    /// Decides what follows the step that found `event`.
    pub fn advance(self, event: CleanupEvent) -> (result: Result<
        CleanupStep,
        InlineCompactionError,
    >)
        requires
            self.finds(event),
        ensures
            match self.next(event) {
                Some(step) => result == Ok::<CleanupStep, InlineCompactionError>(step),
                None => result matches Err(error) && self.fails_with(event, error),
            },
    {
        match event {
            CleanupEvent::Failed(source) => Err(
                InlineCompactionError::Io { operation: self.operation(), source },
            ),
            CleanupEvent::Done => Ok(CleanupStep::Next),
            CleanupEvent::Entry(name) => match name {
                Some(name) if is_orphan_artifact(name.as_str()) => Ok(CleanupStep::Inspect),
                _ => Ok(CleanupStep::Next),
            },
            CleanupEvent::End => Ok(CleanupStep::Clean),
            CleanupEvent::Kind { regular } => if regular {
                Ok(CleanupStep::Remove)
            } else {
                Err(
                    InlineCompactionError::InvalidState(
                        "orphan temporary sidecar is not a regular file",
                    ),
                )
            },
        }
    }
}

/// What the platform offers.
#[derive(Debug, Clone, Copy)]
pub struct Platform {
    /// Files have modes.
    pub has_modes: bool,
    /// Directories can be synced.
    pub directory_sync: bool,
}

/// The step of becoming the writer of a state directory that comes next.
#[derive(Debug, Clone, Copy, PartialEq, Eq, Structural)]
pub enum WriterStep {
    /// Make the directory ready.
    Directory(DirectoryStep),
    /// Take its lock.
    Lock(LockStep),
    /// Remove what was left over.
    Cleanup(CleanupStep),
    /// Probe the directory.
    Probe(ProbeStep),
    /// The process is the writer, of a directory that supports durable commits.
    Acquired,
}

/// What a step of becoming the writer found.
#[derive(Debug)]
pub enum WriterEvent {
    Directory(DirectoryEvent),
    Lock(LockEvent),
    Cleanup(CleanupEvent),
    Probe(Result<(), IoFailure>),
}

impl WriterStep {
    /// Whether the step can find `event`.
    pub open spec fn finds(self, event: WriterEvent) -> bool {
        match (self, event) {
            (WriterStep::Directory(step), WriterEvent::Directory(event)) => step.finds(event),
            (WriterStep::Lock(step), WriterEvent::Lock(event)) => step.finds(event),
            (WriterStep::Cleanup(step), WriterEvent::Cleanup(event)) => step.finds(event),
            (WriterStep::Probe(step), WriterEvent::Probe(_)) => step !is Passed,
            _ => false,
        }
    }

    /// The step that follows the one that found `event`, unless it failed.
    pub open spec fn next(self, event: WriterEvent, platform: Platform) -> Option<WriterStep> {
        match (self, event) {
            (WriterStep::Directory(step), WriterEvent::Directory(event)) => match step.next(
                event,
                platform.has_modes,
            ) {
                Some(DirectoryStep::Ready) => Some(WriterStep::Lock(LockStep::InspectPath)),
                Some(next) => Some(WriterStep::Directory(next)),
                None => None,
            },
            (WriterStep::Lock(step), WriterEvent::Lock(event)) => match step.next(
                event,
                platform.has_modes,
            ) {
                Some(LockStep::Held) => Some(WriterStep::Cleanup(CleanupStep::List)),
                Some(next) => Some(WriterStep::Lock(next)),
                None => None,
            },
            (WriterStep::Cleanup(step), WriterEvent::Cleanup(event)) => match step.next(event) {
                Some(CleanupStep::Clean) => if platform.directory_sync {
                    Some(WriterStep::Probe(ProbeStep::Create))
                } else {
                    None
                },
                Some(next) => Some(WriterStep::Cleanup(next)),
                None => None,
            },
            (WriterStep::Probe(step), WriterEvent::Probe(outcome)) => match step.next(outcome) {
                Some(ProbeStep::Passed) => Some(WriterStep::Acquired),
                Some(next) => Some(WriterStep::Probe(next)),
                None => None,
            },
            _ => None,
        }
    }

    /// Whether a step that failed on `event` fails with `error`. Where directories cannot be
    /// synced, the attempt ends before the probe.
    pub open spec fn fails_with(self, event: WriterEvent, error: InlineCompactionError) -> bool {
        match (self, event) {
            (WriterStep::Directory(step), WriterEvent::Directory(event)) => step.fails_with(
                event,
                error,
            ),
            (WriterStep::Lock(step), WriterEvent::Lock(event)) => step.fails_with(event, error),
            (WriterStep::Cleanup(step), WriterEvent::Cleanup(event)) => if event is End {
                durability::is_unsupported_commit(error)
            } else {
                step.fails_with(event, error)
            },
            (WriterStep::Probe(step), WriterEvent::Probe(outcome)) => step.fails_with(
                outcome,
                error,
            ),
            _ => false,
        }
    }

    /// The first step.
    pub fn begin() -> (step: WriterStep)
        ensures
            step == first_step(),
    {
        WriterStep::Directory(DirectoryStep::Create)
    }

    /// Decides what follows the step that found `event`. When the probe fails, what is left of it
    /// is to be removed.
    pub fn advance(self, event: WriterEvent, platform: Platform) -> (result: Result<
        WriterStep,
        InlineCompactionError,
    >)
        requires
            self.finds(event),
        ensures
            match self.next(event, platform) {
                Some(step) => result == Ok::<WriterStep, InlineCompactionError>(step),
                None => result matches Err(error) && self.fails_with(event, error),
            },
    {
        match (self, event) {
            (WriterStep::Directory(step), WriterEvent::Directory(event)) => match step.advance(
                event,
                platform.has_modes,
            ) {
                Ok(DirectoryStep::Ready) => Ok(WriterStep::Lock(LockStep::InspectPath)),
                Ok(next) => Ok(WriterStep::Directory(next)),
                Err(error) => Err(error),
            },
            (WriterStep::Lock(step), WriterEvent::Lock(event)) => match step.advance(
                event,
                platform.has_modes,
            ) {
                Ok(LockStep::Held) => Ok(WriterStep::Cleanup(CleanupStep::List)),
                Ok(next) => Ok(WriterStep::Lock(next)),
                Err(error) => Err(error),
            },
            (WriterStep::Cleanup(step), WriterEvent::Cleanup(event)) => match step.advance(event) {
                Ok(CleanupStep::Clean) => match ProbeStep::begin(platform.directory_sync) {
                    Ok(first) => Ok(WriterStep::Probe(first)),
                    Err(error) => Err(error),
                },
                Ok(next) => Ok(WriterStep::Cleanup(next)),
                Err(error) => Err(error),
            },
            (WriterStep::Probe(step), WriterEvent::Probe(outcome)) => match step.advance(outcome) {
                Ok(ProbeStep::Passed) => Ok(WriterStep::Acquired),
                Ok(next) => Ok(WriterStep::Probe(next)),
                Err(error) => Err(error),
            },
            _ => Ok(self),
        }
    }

    /// What the state directory on the mount `mount` supports, once the process is the writer.
    pub fn capability(self, mount: StateDirMountMetadata) -> (capability: Option<
        StateDirDurabilityCapability,
    >)
        ensures
            capability == if self is Acquired {
                Some(
                    StateDirDurabilityCapability {
                        filesystem_type: mount.filesystem_type,
                        mount_id: mount.mount_id,
                        mount_options: mount.mount_options,
                        directory_fsync_supported: true,
                    },
                )
            } else {
                None
            },
            capability is Some <==> self is Acquired,
            capability matches Some(found) ==> found.is_probed(mount),
    {
        if self == WriterStep::Acquired {
            Some(StateDirDurabilityCapability::probed(mount))
        } else {
            None
        }
    }
}

/// The first step of becoming the writer.
pub open spec fn first_step() -> WriterStep {
    WriterStep::Directory(DirectoryStep::Create)
}

/// The step that comes next after the events `events`, as long as none of them ended the attempt.
pub open spec fn reached(events: Seq<WriterEvent>, platform: Platform) -> Option<WriterStep>
    decreases events.len(),
{
    if events.len() == 0 {
        Some(first_step())
    } else {
        match reached(events.drop_last(), platform) {
            Some(step) => if step.finds(events.last()) {
                step.next(events.last(), platform)
            } else {
                None
            },
            None => None,
        }
    }
}

/// How far a step stands on the way to being the writer.
pub open spec fn stage(step: WriterStep) -> int {
    match step {
        WriterStep::Directory(_) => 0,
        WriterStep::Lock(_) => 1,
        WriterStep::Cleanup(_) => 2,
        WriterStep::Probe(_) => 3,
        WriterStep::Acquired => 4,
    }
}

/// The first step of a stage.
pub open spec fn entry_of(stage: int) -> WriterStep {
    if stage <= 0 {
        first_step()
    } else if stage == 1 {
        WriterStep::Lock(LockStep::InspectPath)
    } else if stage == 2 {
        WriterStep::Cleanup(CleanupStep::List)
    } else if stage == 3 {
        WriterStep::Probe(ProbeStep::Create)
    } else {
        WriterStep::Acquired
    }
}

/// An attempt never goes back to an earlier stage.
pub proof fn law_stages_follow_each_other(
    events: Seq<WriterEvent>,
    platform: Platform,
    earlier: int,
)
    requires
        reached(events, platform) is Some,
        0 <= earlier <= events.len(),
    ensures
        reached(events.take(earlier), platform) is Some,
        stage(reached(events.take(earlier), platform)->0) <= stage(reached(events, platform)->0),
    decreases events.len(),
{
    if earlier < events.len() {
        law_stages_follow_each_other(events.drop_last(), platform, earlier);
        assert(events.drop_last().take(earlier) =~= events.take(earlier));
    } else {
        assert(events.take(earlier) =~= events);
    }
}

/// A stage that was reached was entered at its first step.
proof fn lemma_stage_entered(events: Seq<WriterEvent>, platform: Platform, wanted: int) -> (at: int)
    requires
        reached(events, platform) is Some,
        0 <= wanted <= stage(reached(events, platform)->0),
    ensures
        0 <= at <= events.len(),
        reached(events.take(at), platform) == Some(entry_of(wanted)),
    decreases events.len(),
{
    if events.len() == 0 || reached(events, platform) == Some(entry_of(wanted)) {
        assert(events.take(events.len() as int) =~= events);
        events.len() as int
    } else {
        let at = lemma_stage_entered(events.drop_last(), platform, wanted);
        assert(events.drop_last().take(at) =~= events.take(at));
        at
    }
}

/// Whoever is the writer has made the directory ready, then held the lock, then removed what was
/// left over, and then passed the probe. The law tells after how many events each of the first
/// three was done.
pub proof fn law_writer_passed_every_stage(
    events: Seq<WriterEvent>,
    platform: Platform,
) -> (done: (int, int, int))
    requires
        reached(events, platform) == Some(WriterStep::Acquired),
    ensures
        0 < done.0 < done.1 < done.2 < events.len(),
        reached(events.take(done.0), platform) == Some(WriterStep::Lock(LockStep::InspectPath)),
        reached(events.take(done.1), platform) == Some(WriterStep::Cleanup(CleanupStep::List)),
        reached(events.take(done.2), platform) == Some(WriterStep::Probe(ProbeStep::Create)),
{
    let ready = lemma_stage_entered(events, platform, 1);
    let held = lemma_stage_entered(events, platform, 2);
    let clean = lemma_stage_entered(events, platform, 3);
    if ready == 0 {
        assert(events.take(ready) =~= Seq::empty());
    }
    if held <= ready {
        law_stages_follow_each_other(events.take(ready), platform, held);
        assert(events.take(ready).take(held) =~= events.take(held));
    }
    if clean <= held {
        law_stages_follow_each_other(events.take(held), platform, clean);
        assert(events.take(held).take(clean) =~= events.take(clean));
    }
    if clean == events.len() {
        assert(events.take(clean) =~= events);
    }
    (ready, held, clean)
}

/// Whether an attempt came to removing left-over files, or further.
pub open spec fn is_past_the_lock(events: Seq<WriterEvent>, platform: Platform) -> bool {
    reached(events, platform) matches Some(step) && stage(step) >= stage(
        WriterStep::Cleanup(CleanupStep::List),
    )
}

/// Left-over files are removed, and the directory is probed, only by a process that was given the
/// lock before. The law tells after how many events it was asked for.
pub proof fn law_leftovers_wait_for_the_lock(
    events: Seq<WriterEvent>,
    platform: Platform,
) -> (asked: int)
    requires
        is_past_the_lock(events, platform),
    ensures
        0 <= asked < events.len(),
        reached(events.take(asked), platform) == Some(WriterStep::Lock(LockStep::Lock)),
        events[asked] == WriterEvent::Lock(LockEvent::Done),
{
    let held = lemma_stage_entered(events, platform, 2);
    let front = events.take(held);
    if held == 0 {
        assert(front =~= Seq::empty());
    }
    assert(front.drop_last() =~= events.take(held - 1));
    held - 1
}

/// Whether an attempt asked for the lock and was given it.
pub open spec fn was_given_the_lock(events: Seq<WriterEvent>, platform: Platform) -> bool {
    exists|asked: int|
        0 <= asked < events.len() && #[trigger] events[asked] == WriterEvent::Lock(LockEvent::Done)
            && reached(events.take(asked), platform) == Some(WriterStep::Lock(LockStep::Lock))
}

/// A state directory has one writer: where at most one of two attempts is given the lock, at most
/// one of them removes left-over files, probes the directory or becomes its writer.
pub proof fn law_one_writer(
    events: Seq<WriterEvent>,
    other_events: Seq<WriterEvent>,
    platform: Platform,
)
    requires
        !was_given_the_lock(events, platform) || !was_given_the_lock(other_events, platform),
    ensures
        !is_past_the_lock(events, platform) || !is_past_the_lock(other_events, platform),
{
    if is_past_the_lock(events, platform) {
        let asked = law_leftovers_wait_for_the_lock(events, platform);
        assert(events[asked] == WriterEvent::Lock(LockEvent::Done));
    }
    if is_past_the_lock(other_events, platform) {
        let asked = law_leftovers_wait_for_the_lock(other_events, platform);
        assert(other_events[asked] == WriterEvent::Lock(LockEvent::Done));
    }
}

/// An attempt that finds the lock taken ends there, and says so. Up to then it has removed no file
/// and probed nothing.
pub proof fn law_refused_writer_removes_nothing(
    events: Seq<WriterEvent>,
    platform: Platform,
    failure: IoFailure,
)
    requires
        reached(events, platform) == Some(WriterStep::Lock(LockStep::Lock)),
        failure.kind == IoKind::WouldBlock,
    ensures
        reached(events.push(WriterEvent::Lock(LockEvent::Failed(failure))), platform) is None,
        forall|error: InlineCompactionError| #[trigger]
            WriterStep::Lock(LockStep::Lock).fails_with(
                WriterEvent::Lock(LockEvent::Failed(failure)),
                error,
            ) <==> error is StateDirWriterLocked,
        forall|earlier: int|
            0 <= earlier <= events.len() ==> stage(
                (#[trigger] reached(events.take(earlier), platform))->0,
            ) < stage(WriterStep::Cleanup(CleanupStep::List)),
{
    let longer = events.push(WriterEvent::Lock(LockEvent::Failed(failure)));
    assert(longer.drop_last() =~= events);
    assert forall|earlier: int| 0 <= earlier <= events.len() implies stage(
        (#[trigger] reached(events.take(earlier), platform))->0,
    ) < stage(WriterStep::Cleanup(CleanupStep::List)) by {
        law_stages_follow_each_other(events, platform, earlier);
    }
}

/// Where files have modes, the way to the lock has nine steps: the directory is made, found to be a
/// directory, made private and found to be private; what stands at the path of the lock, if
/// anything, is a regular file; the lock is opened, found to be a regular file, made private and
/// taken. The attempt goes on exactly as long as each of these is so.
pub proof fn law_way_to_the_lock(events: Seq<WriterEvent>, platform: Platform)
    requires
        platform.has_modes,
        events.len() <= 9,
    ensures
        reached(events, platform) is Some <==> {
            &&& events.len() > 0 ==> events[0] == WriterEvent::Directory(DirectoryEvent::Done)
            &&& events.len() > 1 ==> events[1] == WriterEvent::Directory(
                DirectoryEvent::Kind { real_directory: true },
            )
            &&& events.len() > 2 ==> events[2] == WriterEvent::Directory(DirectoryEvent::Done)
            &&& events.len() > 3 ==> (events[3] matches WriterEvent::Directory(found)
                && found matches DirectoryEvent::Mode(mode) && mode & 0o777 == 0o700)
            &&& events.len() > 4 ==> (events[4] == WriterEvent::Lock(
                LockEvent::Kind { regular: true },
            ) || (events[4] matches WriterEvent::Lock(found) && found is Failed))
            &&& events.len() > 5 ==> events[5] == WriterEvent::Lock(LockEvent::Done)
            &&& events.len() > 6 ==> events[6] == WriterEvent::Lock(
                LockEvent::Kind { regular: true },
            )
            &&& events.len() > 7 ==> events[7] == WriterEvent::Lock(LockEvent::Done)
            &&& events.len() > 8 ==> events[8] == WriterEvent::Lock(LockEvent::Done)
        },
        reached(events, platform) matches Some(step) ==> step == seq![
            WriterStep::Directory(DirectoryStep::Create),
            WriterStep::Directory(DirectoryStep::Inspect),
            WriterStep::Directory(DirectoryStep::Restrict),
            WriterStep::Directory(DirectoryStep::Verify),
            WriterStep::Lock(LockStep::InspectPath),
            WriterStep::Lock(LockStep::Open),
            WriterStep::Lock(LockStep::InspectOpened),
            WriterStep::Lock(LockStep::Restrict),
            WriterStep::Lock(LockStep::Lock),
            WriterStep::Cleanup(CleanupStep::List),
        ][events.len() as int],
    decreases events.len(),
{
    if events.len() > 0 {
        let front = events.drop_last();
        law_way_to_the_lock(front, platform);
        assert(forall|i: int| 0 <= i < front.len() ==> front[i] == events[i]);
        assert(events.last() == events[events.len() - 1]);
    }
}

/// Where files have no modes, nothing is made private: the way to the lock has six steps.
pub proof fn law_way_to_the_lock_without_modes(events: Seq<WriterEvent>, platform: Platform)
    requires
        !platform.has_modes,
        events.len() <= 6,
    ensures
        reached(events, platform) is Some <==> {
            &&& events.len() > 0 ==> events[0] == WriterEvent::Directory(DirectoryEvent::Done)
            &&& events.len() > 1 ==> events[1] == WriterEvent::Directory(
                DirectoryEvent::Kind { real_directory: true },
            )
            &&& events.len() > 2 ==> (events[2] == WriterEvent::Lock(
                LockEvent::Kind { regular: true },
            ) || (events[2] matches WriterEvent::Lock(found) && found is Failed))
            &&& events.len() > 3 ==> events[3] == WriterEvent::Lock(LockEvent::Done)
            &&& events.len() > 4 ==> events[4] == WriterEvent::Lock(
                LockEvent::Kind { regular: true },
            )
            &&& events.len() > 5 ==> events[5] == WriterEvent::Lock(LockEvent::Done)
        },
        reached(events, platform) matches Some(step) ==> step == seq![
            WriterStep::Directory(DirectoryStep::Create),
            WriterStep::Directory(DirectoryStep::Inspect),
            WriterStep::Lock(LockStep::InspectPath),
            WriterStep::Lock(LockStep::Open),
            WriterStep::Lock(LockStep::InspectOpened),
            WriterStep::Lock(LockStep::Lock),
            WriterStep::Cleanup(CleanupStep::List),
        ][events.len() as int],
    decreases events.len(),
{
    if events.len() > 0 {
        let front = events.drop_last();
        law_way_to_the_lock_without_modes(front, platform);
        assert(forall|i: int| 0 <= i < front.len() ==> front[i] == events[i]);
        assert(events.last() == events[events.len() - 1]);
    }
}

/// While files are gone through, one that is left over is inspected and, as a regular file, removed;
/// any other is passed over. At the end of the list the probe begins, where directories can be
/// synced.
pub proof fn law_exactly_the_leftovers_are_removed(
    events: Seq<WriterEvent>,
    platform: Platform,
    name: String,
    step: CleanupStep,
)
    requires
        reached(events, platform) == Some(WriterStep::Cleanup(step)),
    ensures
        step is List ==> reached(
            events.push(WriterEvent::Cleanup(CleanupEvent::Done)),
            platform,
        ) == Some(WriterStep::Cleanup(CleanupStep::Next)),
        step is Next ==> {
            &&& reached(events.push(WriterEvent::Cleanup(CleanupEvent::Entry(None))), platform)
                == Some(WriterStep::Cleanup(CleanupStep::Next))
            &&& durability::is_leftover(name@) ==> reached(
                events.push(WriterEvent::Cleanup(CleanupEvent::Entry(Some(name)))),
                platform,
            ) == Some(WriterStep::Cleanup(CleanupStep::Inspect))
            &&& !durability::is_leftover(name@) ==> reached(
                events.push(WriterEvent::Cleanup(CleanupEvent::Entry(Some(name)))),
                platform,
            ) == Some(WriterStep::Cleanup(CleanupStep::Next))
            &&& platform.directory_sync ==> reached(
                events.push(WriterEvent::Cleanup(CleanupEvent::End)),
                platform,
            ) == Some(WriterStep::Probe(ProbeStep::Create))
            &&& !platform.directory_sync ==> reached(
                events.push(WriterEvent::Cleanup(CleanupEvent::End)),
                platform,
            ) is None
        },
        step is Inspect ==> reached(
            events.push(WriterEvent::Cleanup(CleanupEvent::Kind { regular: true })),
            platform,
        ) == Some(WriterStep::Cleanup(CleanupStep::Remove)) && reached(
            events.push(WriterEvent::Cleanup(CleanupEvent::Kind { regular: false })),
            platform,
        ) is None,
        step is Remove ==> reached(
            events.push(WriterEvent::Cleanup(CleanupEvent::Done)),
            platform,
        ) == Some(WriterStep::Cleanup(CleanupStep::Next)),
{
    let done = WriterEvent::Cleanup(CleanupEvent::Done);
    let end = WriterEvent::Cleanup(CleanupEvent::End);
    let unnamed = WriterEvent::Cleanup(CleanupEvent::Entry(None));
    let named = WriterEvent::Cleanup(CleanupEvent::Entry(Some(name)));
    let regular = WriterEvent::Cleanup(CleanupEvent::Kind { regular: true });
    let other = WriterEvent::Cleanup(CleanupEvent::Kind { regular: false });
    assert(events.push(done).drop_last() =~= events);
    assert(events.push(end).drop_last() =~= events);
    assert(events.push(unnamed).drop_last() =~= events);
    assert(events.push(named).drop_last() =~= events);
    assert(events.push(regular).drop_last() =~= events);
    assert(events.push(other).drop_last() =~= events);
}

/// A step of the cleanup that fails ends the attempt, and is named; so is what is no regular file.
pub proof fn law_failed_cleanups_are_named(
    step: CleanupStep,
    failure: IoFailure,
    error: InlineCompactionError,
    platform: Platform,
)
    requires
        step !is Clean,
    ensures
        WriterStep::Cleanup(step).next(
            WriterEvent::Cleanup(CleanupEvent::Failed(failure)),
            platform,
        ) is None,
        WriterStep::Cleanup(step).fails_with(
            WriterEvent::Cleanup(CleanupEvent::Failed(failure)),
            error,
        ) <==> (error matches InlineCompactionError::Io { operation, source } && source == failure
            && operation@ == if step is List {
            "listing state directory"@
        } else if step is Next {
            "reading state directory entry"@
        } else if step is Inspect {
            "inspecting orphan temporary sidecar"@
        } else {
            "removing orphan temporary sidecar"@
        }),
        WriterStep::Cleanup(step).fails_with(
            WriterEvent::Cleanup(CleanupEvent::Kind { regular: false }),
            error,
        ) <==> (error matches InlineCompactionError::InvalidState(text) && text@
            == "orphan temporary sidecar is not a regular file"@),
        WriterStep::Cleanup(step).fails_with(WriterEvent::Cleanup(CleanupEvent::End), error) <==> (
        error matches InlineCompactionError::StateDurabilityUnsupported { source }
            && source.kind is Unsupported && source.raw_os_error is None && source.message@
            == "directory fsync is required for strict durable commits"@),
{
}

/// The probe is the last stage: a process becomes the writer when it has passed, and not before.
pub proof fn law_probe_makes_the_writer(
    events: Seq<WriterEvent>,
    platform: Platform,
    step: ProbeStep,
    outcome: Result<(), IoFailure>,
)
    requires
        reached(events, platform) == Some(WriterStep::Probe(step)),
        step !is Passed,
    ensures
        reached(events.push(WriterEvent::Probe(outcome)), platform) == Some(WriterStep::Acquired)
            <==> step is SyncRemoval && outcome is Ok,
        outcome is Ok && step !is SyncRemoval ==> (reached(
            events.push(WriterEvent::Probe(outcome)),
            platform,
        ) matches Some(next) && next is Probe && next != WriterStep::Probe(step)),
{
    assert(events.push(WriterEvent::Probe(outcome)).drop_last() =~= events);
}

}
