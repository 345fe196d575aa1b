//! State directories: taking them over, probing them, and the mount they lie on.

use claudex_bridge::durability::{
    fresh_probe_names, fresh_temp_sidecar_name, inspect_stale_sidecar, is_orphan_artifact,
    probe_names, temp_sidecar_name, DirectoryEvent, DirectoryStep, LockEvent, LockStep, ProbeStep,
    StateDirDurabilityCapability, StateWrite, WriteProgress, WriteStep,
};
use claudex_bridge::error::{InlineCompactionError, IoFailure, IoKind};
use claudex_bridge::mount::{
    decode_mountinfo_field, sanitized_mount_options, state_dir_mount_metadata,
    StateDirMountMetadata,
};
use claudex_bridge::sidecar::SidecarState;
use claudex_bridge::writer::{CleanupEvent, CleanupStep, Platform, WriterEvent, WriterStep};

fn failure(kind: IoKind, raw_os_error: Option<i32>) -> IoFailure {
    IoFailure {
        kind,
        raw_os_error,
        on_linux: true,
        message: String::new(),
    }
}

fn probe(outcomes: &mut Vec<(ProbeStep, IoFailure)>) -> Result<usize, InlineCompactionError> {
    let mut step = ProbeStep::begin(true)?;
    let mut performed = 0;
    while step != ProbeStep::Passed {
        performed += 1;
        let outcome = match outcomes.iter().position(|(failing, _)| *failing == step) {
            Some(index) => Err(outcomes.remove(index).1),
            None => Ok(()),
        };
        step = step.advance(outcome)?;
    }
    Ok(performed)
}

#[test]
fn state_directory_probe_retries_eintr_and_rejects_einval() {
    assert_eq!(probe(&mut vec![]).unwrap(), 8);
    let mut interrupted = vec![(
        ProbeStep::SyncRename,
        failure(IoKind::Interrupted, Some(4)),
    )];
    assert_eq!(probe(&mut interrupted).unwrap(), 9);
    let mut unsupported = vec![(ProbeStep::SyncRename, failure(IoKind::Other, Some(22)))];
    assert!(matches!(
        probe(&mut unsupported),
        Err(InlineCompactionError::StateDurabilityUnsupported { .. })
    ));
    let mut elsewhere = vec![(
        ProbeStep::SyncRemoval,
        IoFailure {
            on_linux: false,
            ..failure(IoKind::Unsupported, None)
        },
    )];
    assert!(matches!(
        probe(&mut elsewhere),
        Err(InlineCompactionError::StateDurabilityUnsupported { .. })
    ));
    assert!(matches!(
        ProbeStep::begin(false),
        Err(InlineCompactionError::StateDurabilityUnsupported { .. })
    ));
}

#[test]
fn probe_failures_name_their_operation() {
    for (step, name) in [
        (ProbeStep::Create, "creating state durability probe"),
        (ProbeStep::Write, "writing state durability probe"),
        (ProbeStep::Sync, "syncing state durability probe"),
        (ProbeStep::OpenDirectory, "opening state directory for probe"),
        (ProbeStep::Rename, "renaming state durability probe"),
        (
            ProbeStep::SyncRename,
            "syncing state directory after probe rename",
        ),
        (ProbeStep::Remove, "removing state durability probe"),
        (
            ProbeStep::SyncRemoval,
            "syncing state directory after probe cleanup",
        ),
    ] {
        assert!(matches!(
            probe(&mut vec![(step, failure(IoKind::Other, Some(5)))]),
            Err(InlineCompactionError::Io { operation, .. }) if operation == name
        ));
    }
}

fn take_lock(taken: bool) -> Result<LockStep, InlineCompactionError> {
    let mut step = LockStep::InspectPath;
    while step != LockStep::Held {
        let event = match step {
            LockStep::InspectPath => LockEvent::Failed(failure(IoKind::NotFound, Some(2))),
            LockStep::InspectOpened => LockEvent::Kind { regular: true },
            LockStep::Lock if taken => LockEvent::Failed(failure(IoKind::WouldBlock, Some(11))),
            _ => LockEvent::Done,
        };
        step = step.advance(event, true)?;
    }
    Ok(step)
}

#[test]
fn state_directory_has_one_writer() {
    assert!(take_lock(false).is_ok());
    assert!(matches!(
        take_lock(true),
        Err(InlineCompactionError::StateDirWriterLocked)
    ));
    for step in [LockStep::InspectPath, LockStep::InspectOpened] {
        assert!(matches!(
            step.advance(LockEvent::Kind { regular: false }, true),
            Err(InlineCompactionError::InvalidState(
                "writer lock path is not a regular file"
            ))
        ));
    }
    for (step, name) in [
        (LockStep::Open, "opening state directory writer lock"),
        (
            LockStep::InspectOpened,
            "inspecting state directory writer lock",
        ),
        (LockStep::Restrict, "setting writer lock permissions"),
        (LockStep::Lock, "locking state directory writer"),
    ] {
        assert!(matches!(
            step.advance(LockEvent::Failed(failure(IoKind::Other, None)), true),
            Err(InlineCompactionError::Io { operation, .. }) if operation == name
        ));
    }
    assert_eq!(
        LockStep::InspectOpened
            .advance(LockEvent::Kind { regular: true }, false)
            .unwrap(),
        LockStep::Lock
    );
}

#[test]
fn state_directories_are_made_private() {
    let mut step = DirectoryStep::Create;
    let mut seen = vec![];
    while step != DirectoryStep::Ready {
        seen.push(step);
        let event = match step {
            DirectoryStep::Inspect => DirectoryEvent::Kind {
                real_directory: true,
            },
            DirectoryStep::Verify => DirectoryEvent::Mode(0o040700),
            _ => DirectoryEvent::Done,
        };
        step = step.advance(event, true).unwrap();
    }
    assert_eq!(
        seen,
        vec![
            DirectoryStep::Create,
            DirectoryStep::Inspect,
            DirectoryStep::Restrict,
            DirectoryStep::Verify
        ]
    );
    assert!(matches!(
        DirectoryStep::Verify.advance(DirectoryEvent::Mode(0o040755), true),
        Err(InlineCompactionError::InvalidState(
            "state directory permissions are not 0700"
        ))
    ));
    assert!(matches!(
        DirectoryStep::Inspect.advance(
            DirectoryEvent::Kind {
                real_directory: false
            },
            true
        ),
        Err(InlineCompactionError::InvalidState(
            "state directory is not a real directory"
        ))
    ));
    for (step, name) in [
        (DirectoryStep::Create, "creating state directory"),
        (DirectoryStep::Inspect, "inspecting state directory"),
        (DirectoryStep::Restrict, "setting state directory permissions"),
        (
            DirectoryStep::Verify,
            "verifying state directory permissions",
        ),
    ] {
        assert!(matches!(
            step.advance(DirectoryEvent::Failed(failure(IoKind::Other, None)), true),
            Err(InlineCompactionError::Io { operation, .. }) if operation == name
        ));
    }
}

#[test]
fn temporary_files_are_recognised() {
    assert_eq!(
        temp_sidecar_name(42, 0x1f),
        ".inline-compaction-42-000000000000001f.tmp"
    );
    assert_eq!(
        probe_names(7, u64::MAX),
        (
            ".durability-probe-7-ffffffffffffffff.tmp".to_string(),
            ".durability-probe-7-ffffffffffffffff.commit".to_string()
        )
    );
    let fresh = fresh_temp_sidecar_name(42);
    assert_eq!(fresh.len(), temp_sidecar_name(42, 0).len());
    assert_ne!(fresh, fresh_temp_sidecar_name(42));
    let (temp, committed) = fresh_probe_names(42);
    for name in [&fresh, &temp, &committed] {
        assert!(is_orphan_artifact(name));
    }
    for name in [
        ".writer.lock",
        "0a1b.json",
        ".inline-compaction-42-1f.json",
        "x.inline-compaction-1.tmp",
        "",
    ] {
        assert!(!is_orphan_artifact(name));
    }
}

/// A state directory in memory: its files, whether each is a regular one, and whether its lock is
/// taken.
struct Directory {
    files: Vec<(String, bool)>,
    locked: bool,
}

impl Directory {
    fn holding(names: &[&str]) -> Self {
        Directory {
            files: names.iter().map(|name| (name.to_string(), true)).collect(),
            locked: false,
        }
    }

    fn names(&self) -> Vec<&str> {
        self.files.iter().map(|(name, _)| name.as_str()).collect()
    }

    /// Tries to become the writer, and tells how many steps of each stage were performed.
    fn acquire(
        &mut self,
        platform: Platform,
    ) -> (Result<StateDirDurabilityCapability, InlineCompactionError>, [usize; 4]) {
        let mut performed = [0; 4];
        let mut entries: Vec<String> = vec![];
        let mut entry = String::new();
        let mut step = WriterStep::begin();
        while step != WriterStep::Acquired {
            let event = match step {
                WriterStep::Directory(step) => {
                    performed[0] += 1;
                    WriterEvent::Directory(match step {
                        DirectoryStep::Inspect => DirectoryEvent::Kind {
                            real_directory: true,
                        },
                        DirectoryStep::Verify => DirectoryEvent::Mode(0o040700),
                        _ => DirectoryEvent::Done,
                    })
                }
                WriterStep::Lock(step) => {
                    performed[1] += 1;
                    WriterEvent::Lock(match step {
                        LockStep::InspectPath | LockStep::InspectOpened => {
                            LockEvent::Kind { regular: true }
                        }
                        LockStep::Lock if self.locked => {
                            LockEvent::Failed(failure(IoKind::WouldBlock, Some(11)))
                        }
                        LockStep::Lock => {
                            self.locked = true;
                            LockEvent::Done
                        }
                        _ => LockEvent::Done,
                    })
                }
                WriterStep::Cleanup(step) => {
                    performed[2] += 1;
                    WriterEvent::Cleanup(match step {
                        CleanupStep::List => {
                            entries = self.files.iter().map(|(name, _)| name.clone()).collect();
                            entries.reverse();
                            CleanupEvent::Done
                        }
                        CleanupStep::Next => match entries.pop() {
                            Some(name) => {
                                entry = name.clone();
                                CleanupEvent::Entry(Some(name))
                            }
                            None => CleanupEvent::End,
                        },
                        CleanupStep::Inspect => CleanupEvent::Kind {
                            regular: self.files.iter().any(|(name, regular)| *name == entry && *regular),
                        },
                        _ => {
                            self.files.retain(|(name, _)| *name != entry);
                            CleanupEvent::Done
                        }
                    })
                }
                _ => {
                    performed[3] += 1;
                    WriterEvent::Probe(Ok(()))
                }
            };
            step = match step.advance(event, platform) {
                Ok(next) => next,
                Err(error) => return (Err(error), performed),
            };
        }
        let capability = step.capability(StateDirMountMetadata::default());
        (Ok(capability.unwrap()), performed)
    }
}

const UNIX: Platform = Platform {
    has_modes: true,
    directory_sync: true,
};

#[test]
fn state_directory_has_one_process_lifetime_writer() {
    let left_over = ".inline-compaction-42-000000000000001f.tmp";
    let mut directory = Directory::holding(&["0a1b.json", left_over, ".durability-probe-7-1.tmp"]);
    let (first, performed) = directory.acquire(UNIX);
    assert!(first.unwrap().directory_fsync_supported);
    assert_eq!(performed, [4, 5, 9, 8]);
    assert_eq!(directory.names(), vec!["0a1b.json"]);

    directory.files.push((left_over.to_string(), true));
    let (second, performed) = directory.acquire(UNIX);
    assert!(matches!(
        second,
        Err(InlineCompactionError::StateDirWriterLocked)
    ));
    assert_eq!(performed, [4, 5, 0, 0]);
    assert_eq!(directory.names(), vec!["0a1b.json", left_over]);

    directory.locked = false;
    assert!(directory.acquire(UNIX).0.unwrap().directory_fsync_supported);
    assert_eq!(directory.names(), vec!["0a1b.json"]);
}

#[test]
fn left_over_files_are_removed_before_the_probe() {
    let mut directory = Directory::holding(&["0a1b.json"]);
    directory.files.push((".durability-probe-x".to_string(), false));
    let (refused, performed) = directory.acquire(UNIX);
    assert!(matches!(
        refused,
        Err(InlineCompactionError::InvalidState(
            "orphan temporary sidecar is not a regular file"
        ))
    ));
    assert_eq!(performed[3], 0);
    assert_eq!(directory.names(), vec!["0a1b.json", ".durability-probe-x"]);

    let mut directory = Directory::holding(&[".durability-probe-x"]);
    let (unsupported, performed) = directory.acquire(Platform {
        has_modes: false,
        directory_sync: false,
    });
    assert!(matches!(
        unsupported,
        Err(InlineCompactionError::StateDurabilityUnsupported { source })
            if source.kind == IoKind::Unsupported
    ));
    assert_eq!(performed, [2, 4, 5, 0]);
    assert!(directory.names().is_empty());

    for (step, name) in [
        (CleanupStep::List, "listing state directory"),
        (CleanupStep::Next, "reading state directory entry"),
        (CleanupStep::Inspect, "inspecting orphan temporary sidecar"),
        (CleanupStep::Remove, "removing orphan temporary sidecar"),
    ] {
        assert!(matches!(
            step.advance(CleanupEvent::Failed(failure(IoKind::Other, None))),
            Err(InlineCompactionError::Io { operation, .. }) if operation == name
        ));
    }
    assert_eq!(
        CleanupStep::Next.advance(CleanupEvent::Entry(None)).unwrap(),
        CleanupStep::Next
    );
    assert!(WriterStep::begin()
        .capability(StateDirMountMetadata::default())
        .is_none());
}

#[test]
fn stale_sidecars_are_removed_when_they_are_files() {
    assert!(inspect_stale_sidecar(Ok(true)).unwrap());
    assert!(!inspect_stale_sidecar(Err(failure(IoKind::NotFound, Some(2)))).unwrap());
    assert!(matches!(
        inspect_stale_sidecar(Ok(false)),
        Err(InlineCompactionError::InvalidState(
            "sidecar removal target is not a regular file"
        ))
    ));
    assert!(matches!(
        inspect_stale_sidecar(Err(failure(IoKind::Other, Some(13)))),
        Err(InlineCompactionError::Io {
            operation: "inspecting stale sidecar",
            ..
        })
    ));
}

fn state() -> SidecarState {
    SidecarState {
        version: 1,
        lane_hash: String::new(),
        model: String::new(),
        semantic_fingerprint: String::new(),
        compact_threshold: 0,
        source_prefix_count: 0,
        source_prefix_sha256: String::new(),
        last_output_match: vec![],
        compaction_item_json: String::new(),
        compaction_item_sha256: String::new(),
        opaque_sha256: String::new(),
        raw_suffix_json: vec![],
        raw_suffix_sha256: String::new(),
        usage_input_tokens: 0,
        updated_at_ms: 17,
    }
}

#[test]
fn writing_takes_every_step_in_order() {
    let mut write = StateWrite::begin(
        &state(),
        Some(16),
        Err(failure(IoKind::NotFound, None)),
        true,
    )
    .unwrap();
    assert_eq!(write.candidate_revision, 17);
    assert_eq!(write.old_sidecar_hash, None);
    let mut seen = vec![];
    while write.step != WriteStep::Committed {
        let interrupted = write.step == WriteStep::SyncTemp && seen.len() == 3;
        seen.push(write.step);
        let outcome = if interrupted {
            Err(failure(IoKind::Interrupted, Some(4)))
        } else {
            Ok(())
        };
        write = match write.advance(outcome, seen.len() as u64) {
            WriteProgress::Continue(next) => next,
            other => panic!("expected to go on, got {other:?}"),
        };
    }
    assert_eq!(
        seen,
        vec![
            WriteStep::CreateTemp,
            WriteStep::WriteTemp,
            WriteStep::RestrictTemp,
            WriteStep::SyncTemp,
            WriteStep::SyncTemp,
            WriteStep::OpenDirectory,
            WriteStep::SwitchName,
            WriteStep::SyncDirectory,
        ]
    );
    assert_eq!(write.temp_fsynced_at_ms, 5);
    assert_eq!(write.rename_at_ms, 7);
    assert_eq!(write.size(), write.contents.len() as u64);
}

#[test]
fn writing_fails_where_directories_cannot_be_synced() {
    let previous = Ok(b"abc".to_vec());
    let mut write = StateWrite::begin(&state(), None, previous, false).unwrap();
    assert_eq!(
        write.old_sidecar_hash.as_deref(),
        Some("ba7816bf8f01cfea414140de5dae2223b00361a396177a9cb410ff61f20015ad")
    );
    let mut seen = vec![];
    let error = loop {
        seen.push(write.step);
        match write.advance(Ok(()), 1) {
            WriteProgress::Continue(next) => write = next,
            WriteProgress::Failed(error) => break error,
            other => panic!("expected a failure, got {other:?}"),
        }
    };
    assert_eq!(
        seen,
        vec![
            WriteStep::CreateTemp,
            WriteStep::WriteTemp,
            WriteStep::SyncTemp,
            WriteStep::SwitchName
        ]
    );
    assert!(matches!(
        error,
        InlineCompactionError::StateDurabilityUnsupported { source }
            if source.message == "directory fsync is required for strict durable commits"
    ));
}

#[test]
fn write_failures_name_their_operation() {
    for (failing, name) in [
        (WriteStep::CreateTemp, "creating temporary sidecar"),
        (WriteStep::WriteTemp, "writing temporary sidecar"),
        (WriteStep::RestrictTemp, "setting sidecar permissions"),
        (WriteStep::SyncTemp, "syncing temporary sidecar"),
        (WriteStep::OpenDirectory, "opening state directory"),
        (WriteStep::SwitchName, "committing sidecar"),
    ] {
        let mut write =
            StateWrite::begin(&state(), None, Err(failure(IoKind::NotFound, None)), true).unwrap();
        let error = loop {
            let outcome = if write.step == failing {
                Err(failure(IoKind::Other, Some(5)))
            } else {
                Ok(())
            };
            match write.advance(outcome, 1) {
                WriteProgress::Continue(next) => write = next,
                WriteProgress::Failed(error) => break error,
                other => panic!("expected a failure, got {other:?}"),
            }
        };
        assert!(matches!(
            error,
            InlineCompactionError::Io { operation, .. } if operation == name
        ));
        assert!(!error.degrades_state_backend());
    }
    assert!(matches!(
        StateWrite::begin(&state(), None, Err(failure(IoKind::Other, Some(5))), true),
        Err(InlineCompactionError::Io {
            operation: "hashing previous sidecar",
            ..
        })
    ));
}

#[test]
fn sidecars_over_the_limit_are_not_written() {
    let mut large = state();
    large.model = "m".repeat(64 * 1024 * 1024);
    assert!(matches!(
        StateWrite::begin(&large, None, Err(failure(IoKind::NotFound, None)), true),
        Err(InlineCompactionError::InvalidState(
            "sidecar exceeds the size limit"
        ))
    ));
}

#[test]
fn mount_fields_are_unescaped() {
    assert_eq!(decode_mountinfo_field(r"/mnt/my\040disk"), "/mnt/my disk");
    assert_eq!(decode_mountinfo_field(r"a\134b\011"), "a\\b\t");
    assert_eq!(decode_mountinfo_field(r"\08\04"), r"\08\04");
    assert_eq!(decode_mountinfo_field(r"caf\303\251"), "caf\u{e9}");
    assert_eq!(decode_mountinfo_field(r"\377"), "\u{fffd}");
    assert_eq!(decode_mountinfo_field(""), "");
    let path = "/m\u{e9}dia/a b\\134\t#1";
    let mut escaped = String::new();
    for byte in path.bytes() {
        if byte.is_ascii_alphanumeric() || byte == b'/' {
            escaped.push(byte as char);
        } else {
            escaped.push_str(&format!("\\{byte:03o}"));
        }
    }
    assert_eq!(decode_mountinfo_field(&escaped), path);
}

#[test]
fn mount_options_are_sanitized() {
    assert_eq!(
        sanitized_mount_options("rw,relatime", "rw,errors=remount-ro,upperdir=/secret").as_deref(),
        Some("errors=remount-ro,relatime,rw")
    );
    assert_eq!(sanitized_mount_options("uid=7", "password=x,"), None);
    assert_eq!(
        sanitized_mount_options("commit=5=6", "data").as_deref(),
        Some("commit=5=6,data")
    );
}

#[test]
fn the_deepest_mount_counts() {
    let mountinfo = concat(&[
        "25 1 8:1 / / rw,relatime shared:1 - ext4 /dev/sda1 rw,errors=remount-ro",
        "nonsense",
        "30 25 0:30 / /var/lib rw,nosuid - xfs /dev/sdb rw",
        "31 25 0:31 / /var/library rw - tmpfs tmpfs rw",
        "32 25 0:32 / /var/lib rw,noexec - btrfs /dev/sdc rw",
        "x 25 0:33 / /var/lib/my\\040state rw,sync - zfs pool rw",
    ]);
    assert_eq!(
        state_dir_mount_metadata("/var/lib/state", &mountinfo),
        StateDirMountMetadata {
            filesystem_type: Some("xfs".to_string()),
            mount_id: Some(30),
            mount_options: Some("nosuid,rw".to_string()),
        }
    );
    assert_eq!(
        state_dir_mount_metadata("/home", &mountinfo),
        StateDirMountMetadata {
            filesystem_type: Some("ext4".to_string()),
            mount_id: Some(25),
            mount_options: Some("errors=remount-ro,relatime,rw".to_string()),
        }
    );
    assert_eq!(
        state_dir_mount_metadata("/var/lib/my state/deep", &mountinfo),
        StateDirMountMetadata {
            filesystem_type: Some("zfs".to_string()),
            mount_id: None,
            mount_options: Some("rw,sync".to_string()),
        }
    );
    assert_eq!(
        state_dir_mount_metadata("/home", ""),
        StateDirMountMetadata::default()
    );
    let capability =
        StateDirDurabilityCapability::probed(state_dir_mount_metadata("/home", &mountinfo));
    assert!(capability.directory_fsync_supported);
    assert_eq!(capability.mount_id, Some(25));
    assert!(!StateDirDurabilityCapability::default().directory_fsync_supported);
}

fn concat(lines: &[&str]) -> String {
    let mut text = String::new();
    for line in lines {
        text.push_str(line);
        text.push('\n');
    }
    text
}

#[test]
fn the_steps_of_a_write_are_told_in_order() {
    let steps = [
        WriteStep::CreateTemp,
        WriteStep::WriteTemp,
        WriteStep::RestrictTemp,
        WriteStep::SyncTemp,
        WriteStep::OpenDirectory,
        WriteStep::SwitchName,
        WriteStep::SyncDirectory,
        WriteStep::Committed,
    ];
    let told: Vec<&str> = steps.into_iter().flat_map(WriteStep::events).collect();
    assert_eq!(
        told,
        [
            "state_temp_created",
            "state_temp_written",
            "state_temp_fsynced",
            "state_namespace_switched",
            "state_directory_fsynced",
            "state_sidecar_committed",
        ]
    );
}
