use rustdn::lock::LockError;
use rustdn::protocol::{
    exit_status, step, Action, CacheEntry, Event, Failure, Held, Phase, ARTIFACT_NAME,
    BACKOFF_MILLIS, DEFAULT_FAILURE_STATUS, MARKER_NAME, SNAPSHOT_NAME,
};
use rustdn::toolchain::{Channel, ToolchainOverride};

/// A cache entry and a pin file, and a count of the builds that were run.
struct Disk {
    artifact: bool,
    snapshot: Option<Vec<u8>>,
    pin: Vec<u8>,
    builds: u32,
    build_succeeds: bool,
}

impl Disk {
    fn empty(pin: &[u8]) -> Disk {
        Disk {
            artifact: false,
            snapshot: None,
            pin: pin.to_vec(),
            builds: 0,
            build_succeeds: true,
        }
    }

    /// Carries out an action of a process that is alone, and reports on it.
    fn perform(&mut self, action: Action) -> Event {
        match action {
            Action::AcquireShared => Event::Locked {
                outcome: Ok(()),
                entry: CacheEntry {
                    artifact: self.artifact,
                    snapshot: self.snapshot.clone(),
                },
                pin: self.pin.clone(),
            },
            Action::Upgrade => Event::Upgraded { outcome: Ok(()) },
            Action::Sleep(_) => Event::Rested,
            Action::Build => {
                self.builds += 1;
                self.artifact = true;
                Event::Built {
                    success: self.build_succeeds,
                    code: if self.build_succeeds { Some(0) } else { Some(3) },
                }
            }
            Action::Purge => {
                self.artifact = false;
                self.snapshot = None;
                Event::Purged
            }
            Action::RecordPin => {
                self.snapshot = Some(self.pin.clone());
                Event::Recorded
            }
            Action::Return | Action::Fail => unreachable!(),
        }
    }

    /// Resolves `spec` against this disk, and returns the last phase and the
    /// actions that were asked for on the way.
    fn resolve(&mut self, spec: &ToolchainOverride) -> (Phase, Vec<Action>) {
        let (mut phase, mut action) = Phase::start();
        let mut asked = vec![action];
        while !phase.is_final() {
            let event = self.perform(action);
            let then = step(spec, phase, event);
            phase = then.0;
            action = then.1;
            asked.push(action);
            assert!(asked.len() < 50);
        }
        (phase, asked)
    }
}

fn stable_1_78() -> ToolchainOverride {
    ToolchainOverride::Version {
        channel: Channel::Stable,
        version: Some("1.78".to_owned()),
    }
}

#[test]
fn a_version_is_built_once() {
    let spec = stable_1_78();
    let mut disk = Disk::empty(b"");
    let (phase, asked) = disk.resolve(&spec);
    assert!(matches!(phase, Phase::Done));
    assert_eq!(
        asked,
        vec![
            Action::AcquireShared,
            Action::Upgrade,
            Action::Build,
            Action::AcquireShared,
            Action::Return
        ]
    );
    assert_eq!(disk.builds, 1);

    let (phase, asked) = disk.resolve(&spec);
    assert!(matches!(phase, Phase::Done));
    assert_eq!(asked, vec![Action::AcquireShared, Action::Return]);
    assert_eq!(disk.builds, 1);
}

#[test]
fn a_changed_pin_file_is_rebuilt_and_recorded() {
    let spec = ToolchainOverride::File(b"/tmp/p.toml".to_vec());
    let mut disk = Disk::empty(b"A");
    let (phase, asked) = disk.resolve(&spec);
    assert!(matches!(phase, Phase::Done));
    assert_eq!(
        asked,
        vec![
            Action::AcquireShared,
            Action::Upgrade,
            Action::Build,
            Action::RecordPin,
            Action::AcquireShared,
            Action::Return
        ]
    );
    assert_eq!(disk.snapshot, Some(b"A".to_vec()));
    assert_eq!(disk.builds, 1);

    let (_, asked) = disk.resolve(&spec);
    assert_eq!(asked, vec![Action::AcquireShared, Action::Return]);
    assert_eq!(disk.builds, 1);

    disk.pin = b"B".to_vec();
    let (phase, asked) = disk.resolve(&spec);
    assert!(matches!(phase, Phase::Done));
    assert_eq!(
        asked,
        vec![
            Action::AcquireShared,
            Action::Upgrade,
            Action::Build,
            Action::RecordPin,
            Action::AcquireShared,
            Action::Return
        ]
    );
    assert_eq!(disk.snapshot, Some(b"B".to_vec()));
    assert_eq!(disk.builds, 2);
}

#[test]
fn a_floating_target_is_rebuilt_each_time_and_not_looked_at_again() {
    for spec in [
        ToolchainOverride::Default,
        ToolchainOverride::Version {
            channel: Channel::Nightly,
            version: None,
        },
    ] {
        let mut disk = Disk::empty(b"");
        for round in 1..=3 {
            let (phase, asked) = disk.resolve(&spec);
            assert!(matches!(phase, Phase::Done));
            assert_eq!(
                asked,
                vec![
                    Action::AcquireShared,
                    Action::Upgrade,
                    Action::Build,
                    Action::Return
                ]
            );
            assert_eq!(disk.builds, round);
        }
    }
}

#[test]
fn a_failed_build_leaves_no_entry_and_the_next_resolution_builds_again() {
    let spec = stable_1_78();
    let mut disk = Disk::empty(b"");
    disk.build_succeeds = false;
    let (phase, asked) = disk.resolve(&spec);
    assert!(matches!(phase, Phase::Fatal(Failure::Build(3))));
    assert_eq!(
        asked,
        vec![
            Action::AcquireShared,
            Action::Upgrade,
            Action::Build,
            Action::Purge,
            Action::Fail
        ]
    );
    assert!(!disk.artifact);
    assert_eq!(disk.snapshot, None);
    assert_eq!(disk.builds, 1);

    disk.build_succeeds = true;
    let (phase, asked) = disk.resolve(&spec);
    assert!(matches!(phase, Phase::Done));
    assert_eq!(asked[2], Action::Build);
    assert_eq!(disk.builds, 2);
}

#[test]
fn a_failed_build_of_a_pin_file_records_nothing() {
    let spec = ToolchainOverride::File(b"p.toml".to_vec());
    let mut disk = Disk::empty(b"A");
    disk.snapshot = Some(b"A".to_vec());
    disk.build_succeeds = false;
    let (phase, asked) = disk.resolve(&spec);
    assert!(matches!(phase, Phase::Fatal(Failure::Build(3))));
    assert!(!asked.contains(&Action::RecordPin));
    assert_eq!(disk.snapshot, None);
}

#[test]
fn a_deadlock_rests_and_looks_again() {
    let spec = stable_1_78();
    let (phase, _) = Phase::start();
    let (phase, action) = step(
        &spec,
        phase,
        Event::Locked {
            outcome: Ok(()),
            entry: CacheEntry {
                artifact: false,
                snapshot: None,
            },
            pin: Vec::new(),
        },
    );
    assert_eq!(action, Action::Upgrade);
    assert_eq!(phase.held(), Held::Shared);
    let (phase, action) = step(
        &spec,
        phase,
        Event::Upgraded {
            outcome: Err(LockError::Deadlock),
        },
    );
    assert_eq!(action, Action::Sleep(100));
    assert_eq!(BACKOFF_MILLIS, 100);
    assert!(matches!(phase, Phase::BackoffRetry));
    assert_eq!(phase.held(), Held::Nothing);
    let (phase, action) = step(&spec, phase, Event::Rested);
    assert_eq!(action, Action::AcquireShared);
    assert!(matches!(phase, Phase::CheckExisting));
}

#[test]
fn a_lock_error_is_fatal() {
    let spec = stable_1_78();
    let (phase, _) = Phase::start();
    let (phase, action) = step(
        &spec,
        phase,
        Event::Locked {
            outcome: Err(LockError::Os(5)),
            entry: CacheEntry {
                artifact: true,
                snapshot: None,
            },
            pin: Vec::new(),
        },
    );
    assert_eq!(action, Action::Fail);
    assert!(matches!(phase, Phase::Fatal(Failure::Lock(LockError::Os(5)))));
    assert!(phase.is_final());

    let (phase, _) = Phase::start();
    let (phase, _) = step(
        &spec,
        phase,
        Event::Locked {
            outcome: Err(LockError::Deadlock),
            entry: CacheEntry {
                artifact: true,
                snapshot: None,
            },
            pin: Vec::new(),
        },
    );
    assert!(matches!(
        phase,
        Phase::Fatal(Failure::Lock(LockError::Deadlock))
    ));

    let (phase, _) = Phase::start();
    let (phase, _) = step(
        &spec,
        phase,
        Event::Locked {
            outcome: Ok(()),
            entry: CacheEntry {
                artifact: false,
                snapshot: None,
            },
            pin: Vec::new(),
        },
    );
    let (phase, action) = step(
        &spec,
        phase,
        Event::Upgraded {
            outcome: Err(LockError::Os(13)),
        },
    );
    assert_eq!(action, Action::Fail);
    assert!(matches!(
        phase,
        Phase::Fatal(Failure::Lock(LockError::Os(13)))
    ));
}

#[test]
fn an_event_that_answers_nothing_is_fatal() {
    let spec = stable_1_78();
    let (phase, _) = Phase::start();
    let (phase, action) = step(&spec, phase, Event::Recorded);
    assert_eq!(action, Action::Fail);
    assert!(matches!(phase, Phase::Fatal(Failure::Unexpected)));
    let (phase, action) = step(&spec, phase, Event::Rested);
    assert_eq!(action, Action::Fail);
    assert!(matches!(phase, Phase::Fatal(Failure::Unexpected)));

    let (phase, action) = step(&spec, Phase::Done, Event::Purged);
    assert_eq!(action, Action::Return);
    assert!(matches!(phase, Phase::Done));
}

#[test]
fn lock_levels_of_the_phases() {
    let spec = stable_1_78();
    let (phase, _) = Phase::start();
    assert_eq!(phase.held(), Held::Nothing);
    assert!(!phase.is_final());
    let (phase, _) = step(
        &spec,
        phase,
        Event::Locked {
            outcome: Ok(()),
            entry: CacheEntry {
                artifact: false,
                snapshot: None,
            },
            pin: Vec::new(),
        },
    );
    assert_eq!(phase.held(), Held::Shared);
    let (phase, action) = step(&spec, phase, Event::Upgraded { outcome: Ok(()) });
    assert_eq!(action, Action::Build);
    assert_eq!(phase.held(), Held::Exclusive);
    let (phase, action) = step(
        &spec,
        phase,
        Event::Built {
            success: false,
            code: None,
        },
    );
    assert_eq!(action, Action::Purge);
    assert_eq!(phase.held(), Held::Exclusive);
    let (phase, action) = step(&spec, phase, Event::Purged);
    assert_eq!(action, Action::Fail);
    assert_eq!(phase.held(), Held::Nothing);
    assert!(matches!(phase, Phase::Fatal(Failure::Build(1))));
}

#[test]
fn the_status_of_a_failed_build() {
    assert_eq!(exit_status(Some(2)), 2);
    assert_eq!(exit_status(Some(0)), 0);
    assert_eq!(exit_status(Some(-1)), -1);
    assert_eq!(exit_status(None), 1);
}

#[test]
fn an_artifact_without_a_record_is_rebuilt_for_a_pin_file() {
    let spec = ToolchainOverride::File(b"p.toml".to_vec());
    let mut disk = Disk::empty(b"A");
    disk.artifact = true;
    let (_, asked) = disk.resolve(&spec);
    assert_eq!(asked[1], Action::Upgrade);
    assert_eq!(disk.builds, 1);
}

#[test]
fn the_names_in_an_entry() {
    assert_eq!(MARKER_NAME, "lock");
    assert_eq!(ARTIFACT_NAME, "toolchain");
    assert_eq!(SNAPSHOT_NAME, "rust-toolchain.toml");
    assert_eq!(DEFAULT_FAILURE_STATUS, 1);
}
