//! Resolving an override to a cached toolchain, step by step.
//!
//! Many processes may want the same cache entry at once. Each of them goes
//! through the same states: it takes the shared lock and looks at the entry;
//! if the entry cannot be used it tries to make its lock exclusive; the one
//! that succeeds rebuilds the entry while the others wait, and those that were
//! refused rest and start again.
//!
//! What is decided here is what to do next. The doing is the caller's: it
//! carries out each [`Action`] and reports what came of it as an [`Event`].

use std::ops::ControlFlow;
use vstd::prelude::*;

use crate::lock::{lock_shared, Exclusive, Lock, LockError, Shared};
use crate::toolchain::{rechecks, trustworthy, OverrideView, ToolchainOverride};

verus! {

/// How long to rest after an upgrade was refused as a deadlock, in milliseconds.
pub const BACKOFF_MILLIS: u64 = 100;

/// The name of the marker file in an entry's directory.
pub const MARKER_NAME: &'static str = "lock";

/// The name under which an entry's directory holds the artifact.
pub const ARTIFACT_NAME: &'static str = "toolchain";

/// The name under which an entry's directory records the pin file.
pub const SNAPSHOT_NAME: &'static str = "rust-toolchain.toml";

/// The status to leave with where a failed build gave none.
pub const DEFAULT_FAILURE_STATUS: i32 = 1;

/// Why a resolution ended without a toolchain.
#[derive(Debug, Clone, Copy, PartialEq, Eq, Structural)]
pub enum Failure {
    /// A lock request failed, and not as a deadlock on an upgrade.
    Lock(LockError),
    /// The build failed with this status. The cache entry is deleted.
    Build(i32),
    /// The event reported does not answer the action that was asked for.
    Unexpected,
}

/// The lock level that a process holds on a marker.
#[derive(Debug, Clone, Copy, PartialEq, Eq, Structural)]
pub enum Held {
    /// No lock.
    Nothing,
    /// The lock that readers of the entry share.
    Shared,
    /// The lock of the one process that rebuilds the entry.
    Exclusive,
}

/// Where a resolution stands, as a plain value.
#[derive(Debug, Clone, Copy, PartialEq, Eq, Structural)]
pub enum State {
    /// The shared lock is being asked for, to look at the entry under it.
    CheckExisting,
    /// The entry cannot be used; the shared lock is being made exclusive.
    Upgrading,
    /// The upgrade was refused as a deadlock; the process rests.
    BackoffRetry,
    /// The process is the one that rebuilds; the build runs.
    Rebuild,
    /// The build failed with this status; the entry is being deleted.
    Purge(i32),
    /// The build succeeded; the pin file is being recorded.
    Commit,
    /// The entry holds a toolchain that can be used.
    Done,
    /// The resolution failed.
    Fatal(Failure),
}

impl State {
    /// The lock level that a process in this state holds.
    pub open spec fn held(self) -> Held {
        match self {
            State::Upgrading => Held::Shared,
            State::Rebuild => Held::Exclusive,
            State::Purge(_) => Held::Exclusive,
            State::Commit => Held::Exclusive,
            _ => Held::Nothing,
        }
    }

    /// Whether the resolution has ended.
    pub open spec fn is_final(self) -> bool {
        self is Done || self is Fatal
    }
}

/// Where a resolution stands, together with the lock that it holds there.
///
/// A state in which a lock is held carries that lock, and it carries one of
/// the level that the state needs: no state holds two locks, and none rebuilds
/// or deletes under a shared one.
#[derive(Debug)]
pub enum Phase {
    /// See [`State::CheckExisting`].
    CheckExisting,
    /// See [`State::Upgrading`].
    Upgrading(Lock<Shared>),
    /// See [`State::BackoffRetry`].
    BackoffRetry,
    /// See [`State::Rebuild`].
    Rebuild(Lock<Exclusive>),
    /// See [`State::Purge`].
    Purge(Lock<Exclusive>, i32),
    /// See [`State::Commit`].
    Commit(Lock<Exclusive>),
    /// See [`State::Done`].
    Done,
    /// See [`State::Fatal`].
    Fatal(Failure),
}

impl View for Phase {
    type V = State;

    open spec fn view(&self) -> State {
        match *self {
            Phase::CheckExisting => State::CheckExisting,
            Phase::Upgrading(_) => State::Upgrading,
            Phase::BackoffRetry => State::BackoffRetry,
            Phase::Rebuild(_) => State::Rebuild,
            Phase::Purge(_, status) => State::Purge(status),
            Phase::Commit(_) => State::Commit,
            Phase::Done => State::Done,
            Phase::Fatal(failure) => State::Fatal(failure),
        }
    }
}

/// What the caller is to do next.
#[derive(Debug, Clone, Copy, PartialEq, Eq, Structural)]
pub enum Action {
    /// Give up any lock held. Open the entry's marker, creating it and its
    /// directory if they are missing, and ask for the shared lock on it. Once
    /// it is granted, look whether the entry holds an artifact, and read the
    /// pin file and what the entry recorded of it. Report [`Event::Locked`].
    AcquireShared,
    /// Ask to make the shared lock exclusive, and report [`Event::Upgraded`].
    /// If the request is refused, give the shared lock up before reporting.
    Upgrade,
    /// Rest for so many milliseconds, holding no lock, and report
    /// [`Event::Rested`].
    Sleep(u64),
    /// Run the build for the entry and report [`Event::Built`].
    Build,
    /// Delete the entry's whole directory and report [`Event::Purged`].
    Purge,
    /// Record in the entry what the pin file holds now, and report
    /// [`Event::Recorded`].
    RecordPin,
    /// Give up any lock held and use the entry's artifact.
    Return,
    /// Give up any lock held and fail; the state says why.
    Fail,
}

impl Action {
    /// Whether carrying out the action changes the cache entry.
    pub open spec fn mutates(self) -> bool {
        self is Build || self is Purge || self is RecordPin
    }
}

/// What a cache entry holds.
#[derive(Debug)]
pub struct CacheEntry {
    /// Whether there is an artifact.
    pub artifact: bool,
    /// What the entry recorded of the pin file, if it recorded anything.
    pub snapshot: Option<Vec<u8>>,
}

/// A [`CacheEntry`] as a mathematical value.
pub struct EntryView {
    pub artifact: bool,
    pub snapshot: Option<Seq<u8>>,
}

impl View for CacheEntry {
    type V = EntryView;

    open spec fn view(&self) -> EntryView {
        EntryView {
            artifact: self.artifact,
            snapshot: match self.snapshot {
                Some(s) => Some(s@),
                None => None,
            },
        }
    }
}

/// What came of an action.
#[derive(Debug)]
pub enum Event {
    /// The request for the shared lock was answered. Where it was granted,
    /// `entry` is what the entry held under the lock and `pin` what the pin
    /// file held; for an override that is no pin file, `pin` is empty. Where
    /// it was refused, neither is looked at.
    Locked { outcome: Result<(), LockError>, entry: CacheEntry, pin: Vec<u8> },
    /// The request for the exclusive lock was answered.
    Upgraded { outcome: Result<(), LockError> },
    /// The rest is over.
    Rested,
    /// The build ended, with this exit code if it gave one.
    Built { success: bool, code: Option<i32> },
    /// The entry is deleted.
    Purged,
    /// The pin file is recorded.
    Recorded,
}

/// An [`Event`] as a mathematical value, variant for variant.
pub enum EventView {
    Locked { outcome: Result<(), LockError>, entry: EntryView, pin: Seq<u8> },
    Upgraded { outcome: Result<(), LockError> },
    Rested,
    Built { success: bool, code: Option<i32> },
    Purged,
    Recorded,
}

impl View for Event {
    type V = EventView;

    open spec fn view(&self) -> EventView {
        match *self {
            Event::Locked { outcome, entry, pin } => EventView::Locked {
                outcome,
                entry: entry@,
                pin: pin@,
            },
            Event::Upgraded { outcome } => EventView::Upgraded { outcome },
            Event::Rested => EventView::Rested,
            Event::Built { success, code } => EventView::Built { success, code },
            Event::Purged => EventView::Purged,
            Event::Recorded => EventView::Recorded,
        }
    }
}

/// Whether the entry can be used as it is: it holds an artifact, and that
/// artifact can be trusted.
pub open spec fn usable(t: OverrideView, entry: EntryView, pin: Seq<u8>) -> bool {
    entry.artifact && trustworthy(t, pin, entry.snapshot)
}

/// The status that a failed build is reported with.
pub open spec fn failure_status(code: Option<i32>) -> i32 {
    match code {
        Some(status) => status,
        None => DEFAULT_FAILURE_STATUS,
    }
}

/// What follows a rebuilt entry once all of it is written: another look at
/// the cache where that can find the entry valid, its use as it is where not.
pub open spec fn committed(t: OverrideView) -> (State, Action) {
    if rechecks(t) {
        (State::CheckExisting, Action::AcquireShared)
    } else {
        (State::Done, Action::Return)
    }
}

/// Whether the event reports a lock request that was granted.
pub open spec fn granted(event: EventView) -> bool {
    match event {
        EventView::Locked { outcome, .. } => outcome is Ok,
        EventView::Upgraded { outcome } => outcome is Ok,
        _ => false,
    }
}

/// Whether the event is the report that the action of the state asks for.
/// A resolution that has ended asks for none.
pub open spec fn answers(state: State, event: EventView) -> bool {
    match (state, event) {
        (State::CheckExisting, EventView::Locked { .. }) => true,
        (State::Upgrading, EventView::Upgraded { .. }) => true,
        (State::BackoffRetry, EventView::Rested) => true,
        (State::Rebuild, EventView::Built { .. }) => true,
        (State::Purge(_), EventView::Purged) => true,
        (State::Commit, EventView::Recorded) => true,
        _ => false,
    }
}

/// The state that follows `state` on `event`, and what to do in it.
pub open spec fn next(t: OverrideView, state: State, event: EventView) -> (State, Action) {
    match (state, event) {
        (State::CheckExisting, EventView::Locked { outcome: Ok(_), entry, pin }) => if usable(
            t,
            entry,
            pin,
        ) {
            (State::Done, Action::Return)
        } else {
            (State::Upgrading, Action::Upgrade)
        },
        (State::CheckExisting, EventView::Locked { outcome: Err(e), .. }) => (
            State::Fatal(Failure::Lock(e)),
            Action::Fail,
        ),
        (State::Upgrading, EventView::Upgraded { outcome: Ok(_) }) => (
            State::Rebuild,
            Action::Build,
        ),
        (State::Upgrading, EventView::Upgraded { outcome: Err(LockError::Deadlock) }) => (
            State::BackoffRetry,
            Action::Sleep(BACKOFF_MILLIS),
        ),
        (State::Upgrading, EventView::Upgraded { outcome: Err(e) }) => (
            State::Fatal(Failure::Lock(e)),
            Action::Fail,
        ),
        (State::BackoffRetry, EventView::Rested) => (State::CheckExisting, Action::AcquireShared),
        (State::Rebuild, EventView::Built { success: true, .. }) => if t is File {
            (State::Commit, Action::RecordPin)
        } else {
            committed(t)
        },
        (State::Rebuild, EventView::Built { success: false, code }) => (
            State::Purge(failure_status(code)),
            Action::Purge,
        ),
        (State::Purge(status), EventView::Purged) => (
            State::Fatal(Failure::Build(status)),
            Action::Fail,
        ),
        (State::Commit, EventView::Recorded) => committed(t),
        (State::Done, _) => (State::Done, Action::Return),
        (State::Fatal(failure), _) => (State::Fatal(failure), Action::Fail),
        _ => (State::Fatal(Failure::Unexpected), Action::Fail),
    }
}

impl Phase {
    /// Where every resolution begins, and the first thing to do.
    pub fn start() -> (begin: (Phase, Action))
        ensures
            begin.0@ == State::CheckExisting,
            begin.1 == Action::AcquireShared,
    {
        (Phase::CheckExisting, Action::AcquireShared)
    }

    /// The lock level that is held in this phase.
    pub fn held(&self) -> (level: Held)
        ensures
            level == self@.held(),
    {
        match self {
            Phase::Upgrading(_) => Held::Shared,
            Phase::Rebuild(_) => Held::Exclusive,
            Phase::Purge(_, _) => Held::Exclusive,
            Phase::Commit(_) => Held::Exclusive,
            _ => Held::Nothing,
        }
    }

    /// Whether the resolution has ended.
    pub fn is_final(&self) -> (ended: bool)
        ensures
            ended == self@.is_final(),
    {
        match self {
            Phase::Done => true,
            Phase::Fatal(_) => true,
            _ => false,
        }
    }
}

/// The status to leave with after a failed build that ended with `code`.
pub fn exit_status(code: Option<i32>) -> (status: i32)
    ensures
        status == failure_status(code),
{
    match code {
        Some(status) => status,
        None => DEFAULT_FAILURE_STATUS,
    }
}

/// Ends a rebuild whose entry is written in full, giving up the exclusive lock.
fn conclude(spec: &ToolchainOverride, lock: Lock<Exclusive>) -> (then: (Phase, Action))
    ensures
        (then.0@, then.1) == committed(spec@),
{
    let mut lock = lock;
    match spec.commit_cache(&mut lock) {
        ControlFlow::Continue(_) => (Phase::CheckExisting, Action::AcquireShared),
        ControlFlow::Break(_) => (Phase::Done, Action::Return),
    }
}

/// Takes a resolution of `spec` one step on: from the phase it is in and the
/// event that the caller reports, to the phase that follows and what is to be
/// done in it.
///
/// An event that does not answer the action of the phase ends the resolution
/// as [`Failure::Unexpected`]. A resolution that has ended stays as it is.
pub fn step(spec: &ToolchainOverride, phase: Phase, event: Event) -> (then: (Phase, Action))
    ensures
        (then.0@, then.1) == next(spec@, phase@, event@),
{
    match phase {
        Phase::CheckExisting => match event {
            Event::Locked { outcome, entry, pin } => match lock_shared(outcome) {
                Ok(lock) => {
                    let valid = entry.artifact && spec.cache_is_valid(
                        pin.as_slice(),
                        match &entry.snapshot {
                            Some(s) => Some(s.as_slice()),
                            None => None,
                        },
                        &lock,
                    );
                    if valid {
                        (Phase::Done, Action::Return)
                    } else {
                        (Phase::Upgrading(lock), Action::Upgrade)
                    }
                },
                Err(e) => (Phase::Fatal(Failure::Lock(e)), Action::Fail),
            },
            _ => (Phase::Fatal(Failure::Unexpected), Action::Fail),
        },
        Phase::Upgrading(lock) => match event {
            Event::Upgraded { outcome } => match lock.upgrade(outcome) {
                Ok(lock) => (Phase::Rebuild(lock), Action::Build),
                Err(LockError::Deadlock) => (Phase::BackoffRetry, Action::Sleep(BACKOFF_MILLIS)),
                Err(e) => (Phase::Fatal(Failure::Lock(e)), Action::Fail),
            },
            _ => (Phase::Fatal(Failure::Unexpected), Action::Fail),
        },
        Phase::BackoffRetry => match event {
            Event::Rested => (Phase::CheckExisting, Action::AcquireShared),
            _ => (Phase::Fatal(Failure::Unexpected), Action::Fail),
        },
        Phase::Rebuild(lock) => match event {
            Event::Built { success, code } => if !success {
                (Phase::Purge(lock, exit_status(code)), Action::Purge)
            } else if spec.records_pin() {
                (Phase::Commit(lock), Action::RecordPin)
            } else {
                conclude(spec, lock)
            },
            _ => (Phase::Fatal(Failure::Unexpected), Action::Fail),
        },
        Phase::Purge(_, status) => match event {
            Event::Purged => (Phase::Fatal(Failure::Build(status)), Action::Fail),
            _ => (Phase::Fatal(Failure::Unexpected), Action::Fail),
        },
        Phase::Commit(lock) => match event {
            Event::Recorded => conclude(spec, lock),
            _ => (Phase::Fatal(Failure::Unexpected), Action::Fail),
        },
        Phase::Done => (Phase::Done, Action::Return),
        Phase::Fatal(failure) => (Phase::Fatal(failure), Action::Fail),
    }
}

/// The entry after a build that succeeded: it holds an artifact.
pub open spec fn built(entry: EntryView) -> EntryView {
    EntryView { artifact: true, snapshot: entry.snapshot }
}

/// The entry after its directory was deleted: it holds nothing.
pub open spec fn purged() -> EntryView {
    EntryView { artifact: false, snapshot: None }
}

/// The entry after the pin file, which holds `pin`, was recorded in it.
pub open spec fn recorded(entry: EntryView, pin: Seq<u8>) -> EntryView {
    EntryView { artifact: entry.artifact, snapshot: Some(pin) }
}

/// The entry as a rebuild of it for `t` leaves it, once it is committed.
pub open spec fn rebuilt(t: OverrideView, entry: EntryView, pin: Seq<u8>) -> EntryView {
    if t is File {
        recorded(built(entry), pin)
    } else {
        built(entry)
    }
}

/// The state after a run of events, each answered by [`next`].
pub open spec fn run(t: OverrideView, state: State, events: Seq<EventView>) -> State
    decreases events.len(),
{
    if events.len() == 0 {
        state
    } else {
        run(t, next(t, state, events[0]).0, events.skip(1))
    }
}

/// The actions that a run of events asks for, in order.
pub open spec fn actions(t: OverrideView, state: State, events: Seq<EventView>) -> Seq<Action>
    decreases events.len(),
{
    if events.len() == 0 {
        Seq::empty()
    } else {
        let (then, action) = next(t, state, events[0]);
        seq![action] + actions(t, then, events.skip(1))
    }
}

/// Each action is asked for under the lock that it needs: one that changes
/// the entry under the exclusive lock, the upgrade under the shared lock, and
/// every other action with no lock left.
pub proof fn lemma_action_lock_level(t: OverrideView, state: State, event: EventView)
    ensures
        ({
            let (then, action) = next(t, state, event);
            &&& action.mutates() <==> then.held() == Held::Exclusive
            &&& action is Upgrade <==> then.held() == Held::Shared
        }),
{
}

/// How the lock level changes in a step. A shared lock comes only from a
/// granted request at the first look; an exclusive lock comes only from a
/// granted upgrade; and an exclusive lock never becomes a shared one.
pub proof fn lemma_lock_level_steps(t: OverrideView, state: State, event: EventView)
    ensures
        ({
            let then = next(t, state, event).0;
            &&& then.held() == Held::Shared ==> state == State::CheckExisting && granted(event)
            &&& then.held() == Held::Exclusive ==> state.held() == Held::Exclusive || (state
                == State::Upgrading && granted(event))
            &&& state.held() == Held::Exclusive ==> then.held() != Held::Shared
        }),
{
}

/// An upgrade that is refused as a deadlock leaves no lock, and the process
/// rests and then looks at the cache anew: that it lost says nothing of what
/// the entry holds.
pub proof fn lemma_deadlock_backs_off(t: OverrideView)
    ensures
        ({
            let (resting, rest) = next(
                t,
                State::Upgrading,
                EventView::Upgraded { outcome: Err(LockError::Deadlock) },
            );
            &&& resting.held() == Held::Nothing
            &&& rest == Action::Sleep(BACKOFF_MILLIS)
            &&& next(t, resting, EventView::Rested) == (State::CheckExisting, Action::AcquireShared)
        }),
{
}

/// An entry for a channel with a version is usable as soon as it holds an
/// artifact, and stays so whatever else changes: only deleting the entry,
/// which takes the artifact away, ends that.
pub proof fn lemma_versioned_stays_usable(t: OverrideView, entry: EntryView, pin: Seq<u8>)
    requires
        t matches OverrideView::Version { version: Some(_), .. },
    ensures
        usable(t, entry, pin) <==> entry.artifact,
        !usable(t, purged(), pin),
        next(t, State::CheckExisting, EventView::Locked { outcome: Ok(()), entry, pin }).0
            is Done <==> entry.artifact,
{
}

/// An entry that is never trusted is rebuilt at each resolution, and used
/// right after the build without another look.
pub proof fn lemma_floating_always_rebuilds(
    t: OverrideView,
    entry: EntryView,
    pin: Seq<u8>,
    code: Option<i32>,
)
    requires
        !rechecks(t),
    ensures
        next(t, State::CheckExisting, EventView::Locked { outcome: Ok(()), entry, pin }) == (
            State::Upgrading,
            Action::Upgrade,
        ),
        next(t, State::Rebuild, EventView::Built { success: true, code }) == (
            State::Done,
            Action::Return,
        ),
{
}

/// After a rebuild is committed, the look at the cache that follows finds the
/// entry usable and ends the resolution, provided that the pin file still
/// holds what was recorded. So does the first look of every other process.
pub proof fn lemma_rebuilt_entry_is_usable(t: OverrideView, entry: EntryView, pin: Seq<u8>)
    requires
        rechecks(t),
    ensures
        usable(t, rebuilt(t, entry, pin), pin),
        next(
            t,
            State::CheckExisting,
            EventView::Locked { outcome: Ok(()), entry: rebuilt(t, entry, pin), pin },
        ) == (State::Done, Action::Return),
{
}

/// A pin file that no longer holds what the entry recorded makes the entry
/// unusable: the resolution goes on to rebuild it.
pub proof fn lemma_changed_pin_rebuilds(path: Seq<u8>, entry: EntryView, pin: Seq<u8>)
    requires
        entry.snapshot != Some(pin),
    ensures
        next(
            OverrideView::File(path),
            State::CheckExisting,
            EventView::Locked { outcome: Ok(()), entry, pin },
        ) == (State::Upgrading, Action::Upgrade),
{
}

/// A failed build is answered by deleting the entry, before anything else and
/// under the exclusive lock, and the resolution ends with the build's status.
pub proof fn lemma_failed_build_purges(t: OverrideView, code: Option<i32>)
    ensures
        ({
            let (purging, purge) = next(
                t,
                State::Rebuild,
                EventView::Built { success: false, code },
            );
            &&& purge == Action::Purge
            &&& purging.held() == Held::Exclusive
            &&& next(t, purging, EventView::Purged) == (
                State::Fatal(Failure::Build(failure_status(code))),
                Action::Fail,
            )
        }),
{
}

/// Once a build has failed and the deletion of the entry is asked for, the
/// resolution never commits and never ends well: whatever is reported
/// afterwards, every further action is `Fail`, and the last state is not
/// `Done`.
pub proof fn lemma_failed_build_never_commits(
    t: OverrideView,
    code: Option<i32>,
    events: Seq<EventView>,
)
    ensures
        ({
            let purging = next(t, State::Rebuild, EventView::Built { success: false, code }).0;
            &&& !(run(t, purging, events) is Done)
            &&& forall|i: int|
                0 <= i < actions(t, purging, events).len() ==> {
                    let action = #[trigger] actions(t, purging, events)[i];
                    action is Fail
                }
        }),
{
    let purging = next(t, State::Rebuild, EventView::Built { success: false, code }).0;
    lemma_after_failure(t, purging, events);
}

/// From the deletion of a failed entry on, and from a failure on, every
/// action is `Fail` and no state is `Done`.
proof fn lemma_after_failure(t: OverrideView, state: State, events: Seq<EventView>)
    requires
        state is Purge || state is Fatal,
    ensures
        !(run(t, state, events) is Done),
        run(t, state, events) is Purge || run(t, state, events) is Fatal,
        actions(t, state, events).len() == events.len(),
        forall|i: int|
            0 <= i < events.len() ==> (#[trigger] actions(t, state, events)[i]) is Fail,
    decreases events.len(),
{
    if events.len() > 0 {
        let (then, action) = next(t, state, events[0]);
        lemma_after_failure(t, then, events.skip(1));
        let tail = actions(t, then, events.skip(1));
        assert forall|i: int| 0 <= i < events.len() implies (#[trigger] actions(
            t,
            state,
            events,
        )[i]) is Fail by {
            if i > 0 {
                assert(actions(t, state, events)[i] == tail[i - 1]);
            }
        }
    }
}

/// After a failed build the entry is deleted, so the next resolution of the
/// same override finds no artifact and builds again.
pub proof fn lemma_purged_entry_is_rebuilt(t: OverrideView, pin: Seq<u8>)
    ensures
        !usable(t, purged(), pin),
        ({
            let events = seq![
                EventView::Locked { outcome: Ok(()), entry: purged(), pin },
                EventView::Upgraded { outcome: Ok(()) },
            ];
            &&& run(t, State::CheckExisting, events) == State::Rebuild
            &&& actions(t, State::CheckExisting, events) == seq![Action::Upgrade, Action::Build]
        }),
{
    let first = EventView::Locked { outcome: Ok(()), entry: purged(), pin };
    let second = EventView::Upgraded { outcome: Ok(()) };
    let events = seq![first, second];
    assert(events.skip(1) =~= seq![second]);
    assert(events.skip(1).skip(1) =~= Seq::<EventView>::empty());
    assert(next(t, State::CheckExisting, first) == (State::Upgrading, Action::Upgrade));
    assert(next(t, State::Upgrading, second) == (State::Rebuild, Action::Build));
    assert(run(t, State::Rebuild, events.skip(1).skip(1)) == State::Rebuild);
    assert(run(t, State::Upgrading, events.skip(1)) == State::Rebuild);
    assert(actions(t, State::Rebuild, events.skip(1).skip(1)) =~= Seq::<Action>::empty());
    assert(actions(t, State::Upgrading, events.skip(1)) =~= seq![Action::Build]);
    assert(actions(t, State::CheckExisting, events) =~= seq![Action::Upgrade, Action::Build]);
}

/// Throughout a resolution, whatever is reported, the entry is changed only
/// under the exclusive lock: each action that changes it is asked for in a
/// state that holds that lock.
pub proof fn lemma_mutation_only_when_exclusive(
    t: OverrideView,
    state: State,
    events: Seq<EventView>,
    i: int,
)
    requires
        0 <= i < events.len(),
    ensures
        actions(t, state, events).len() == events.len(),
        actions(t, state, events)[i].mutates() ==> run(t, state, events.take(i + 1)).held()
            == Held::Exclusive,
    decreases events.len(),
{
    let (then, action) = next(t, state, events[0]);
    lemma_actions_len(t, state, events);
    if i == 0 {
        lemma_action_lock_level(t, state, events[0]);
        assert(events.take(1).skip(1) =~= Seq::<EventView>::empty());
        assert(events.take(1)[0] == events[0]);
        assert(run(t, then, events.take(1).skip(1)) == then);
    } else {
        lemma_mutation_only_when_exclusive(t, then, events.skip(1), i - 1);
        assert(events.skip(1).take(i) =~= events.take(i + 1).skip(1));
        assert(events.take(i + 1)[0] == events[0]);
        assert(actions(t, state, events)[i] == actions(t, then, events.skip(1))[i - 1]);
    }
}

/// A run asks for one action for each event.
pub proof fn lemma_actions_len(t: OverrideView, state: State, events: Seq<EventView>)
    ensures
        actions(t, state, events).len() == events.len(),
    decreases events.len(),
{
    if events.len() > 0 {
        lemma_actions_len(t, next(t, state, events[0]).0, events.skip(1));
    }
}

} // verus!
