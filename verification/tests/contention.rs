use rustdn::lock::LockError;
use rustdn::protocol::{step, Action, CacheEntry, Event, Held, Phase};
use rustdn::toolchain::{Channel, ToolchainOverride};

/// Several processes at one marker, with a lock manager that grants a shared
/// lock while nobody else holds the exclusive one, grants an upgrade while
/// nobody else holds anything, and answers an upgrade with a deadlock while
/// another process waits for one.
struct Crowd {
    spec: ToolchainOverride,
    phases: Vec<Option<Phase>>,
    actions: Vec<Action>,
    /// Whether the process has asked for its upgrade and waits for the answer.
    waiting: Vec<bool>,
    artifact: bool,
    snapshot: Option<Vec<u8>>,
    pin: Vec<u8>,
    builds: u32,
    deadlocks: u32,
}

impl Crowd {
    fn new(spec: ToolchainOverride, size: usize, pin: &[u8]) -> Crowd {
        let mut phases = Vec::new();
        let mut actions = Vec::new();
        for _ in 0..size {
            let (phase, action) = Phase::start();
            phases.push(Some(phase));
            actions.push(action);
        }
        Crowd {
            spec,
            phases,
            actions,
            waiting: vec![false; size],
            artifact: false,
            snapshot: None,
            pin: pin.to_vec(),
            builds: 0,
            deadlocks: 0,
        }
    }

    fn held(&self, who: usize) -> Held {
        self.phases[who].as_ref().unwrap().held()
    }

    fn others_hold(&self, who: usize, level: Held) -> bool {
        (0..self.phases.len()).any(|j| j != who && self.held(j) == level)
    }

    fn check_exclusion(&self) {
        let exclusive = (0..self.phases.len())
            .filter(|&i| self.held(i) == Held::Exclusive)
            .count();
        let shared = (0..self.phases.len())
            .filter(|&i| self.held(i) == Held::Shared)
            .count();
        assert!(exclusive <= 1);
        assert!(exclusive == 0 || shared == 0);
    }

    /// Lets process `who` try its pending action. Returns whether it moved.
    fn turn(&mut self, who: usize) -> bool {
        let event = match self.actions[who] {
            Action::AcquireShared => {
                if self.others_hold(who, Held::Exclusive) {
                    return false;
                }
                Event::Locked {
                    outcome: Ok(()),
                    entry: CacheEntry {
                        artifact: self.artifact,
                        snapshot: self.snapshot.clone(),
                    },
                    pin: self.pin.clone(),
                }
            }
            Action::Upgrade => {
                if !self.others_hold(who, Held::Shared) && !self.others_hold(who, Held::Exclusive)
                {
                    self.waiting[who] = false;
                    Event::Upgraded { outcome: Ok(()) }
                } else if (0..self.phases.len()).any(|j| j != who && self.waiting[j]) {
                    self.deadlocks += 1;
                    Event::Upgraded {
                        outcome: Err(LockError::Deadlock),
                    }
                } else {
                    self.waiting[who] = true;
                    return false;
                }
            }
            Action::Sleep(_) => Event::Rested,
            Action::Build => {
                self.builds += 1;
                self.artifact = true;
                Event::Built {
                    success: true,
                    code: Some(0),
                }
            }
            Action::Purge => {
                self.artifact = false;
                self.snapshot = None;
                Event::Purged
            }
            Action::RecordPin => {
                self.snapshot = Some(self.pin.clone());
                Event::Recorded
            }
            Action::Return | Action::Fail => return false,
        };
        if self.actions[who] == Action::Build
            || self.actions[who] == Action::Purge
            || self.actions[who] == Action::RecordPin
        {
            assert_eq!(self.held(who), Held::Exclusive);
        }
        let phase = self.phases[who].take().unwrap();
        let (phase, action) = step(&self.spec, phase, event);
        self.phases[who] = Some(phase);
        self.actions[who] = action;
        self.check_exclusion();
        true
    }

    fn all_done(&self) -> bool {
        self.phases
            .iter()
            .all(|p| matches!(p.as_ref().unwrap(), Phase::Done))
    }

    /// Gives the processes their turns one after the other until none moves.
    fn run_in_turns(&mut self) -> u32 {
        let mut rounds = 0;
        loop {
            let mut moved = false;
            for who in 0..self.phases.len() {
                moved |= self.turn(who);
            }
            if !moved {
                return rounds;
            }
            rounds += 1;
            assert!(rounds < 1000);
        }
    }
}

fn stable_1_78() -> ToolchainOverride {
    ToolchainOverride::Version {
        channel: Channel::Stable,
        version: Some("1.78".to_owned()),
    }
}

#[test]
fn one_of_many_rebuilds_and_the_others_find_the_entry() {
    for size in 2..=6 {
        let mut crowd = Crowd::new(stable_1_78(), size, b"");
        let rounds = crowd.run_in_turns();
        assert!(crowd.all_done());
        assert_eq!(crowd.builds, 1);
        assert_eq!(crowd.deadlocks, size as u32 - 1);
        assert!(rounds <= 8);
    }
}

#[test]
fn one_of_many_rebuilds_a_pin_file() {
    for size in 2..=5 {
        let spec = ToolchainOverride::File(b"/tmp/p.toml".to_vec());
        let mut crowd = Crowd::new(spec, size, b"A");
        crowd.run_in_turns();
        assert!(crowd.all_done());
        assert_eq!(crowd.builds, 1);
        assert_eq!(crowd.snapshot, Some(b"A".to_vec()));
    }
}

#[test]
fn no_two_hold_the_exclusive_lock_in_any_order_of_turns() {
    // Every order of turns of three processes that a short word over their
    // numbers gives; `turn` checks the exclusion after each move.
    for word in 0..3u32.pow(9) {
        let mut crowd = Crowd::new(stable_1_78(), 3, b"");
        let mut rest = word;
        for _ in 0..9 {
            crowd.turn((rest % 3) as usize);
            rest /= 3;
        }
        crowd.run_in_turns();
        assert!(crowd.all_done());
        assert_eq!(crowd.builds, 1);
    }
}

#[test]
fn a_second_resolution_waits_for_the_first_and_does_not_build() {
    let mut crowd = Crowd::new(stable_1_78(), 2, b"");
    assert!(crowd.turn(0));
    assert!(crowd.turn(0));
    assert_eq!(crowd.held(0), Held::Exclusive);
    assert_eq!(crowd.actions[0], Action::Build);
    // The second process cannot take the shared lock before the commit.
    assert!(!crowd.turn(1));
    assert!(crowd.turn(0));
    assert_eq!(crowd.held(0), Held::Nothing);
    assert!(crowd.turn(1));
    assert!(matches!(crowd.phases[1].as_ref().unwrap(), Phase::Done));
    assert_eq!(crowd.actions[1], Action::Return);
    assert!(crowd.turn(0));
    assert!(crowd.all_done());
    assert_eq!(crowd.builds, 1);
}
