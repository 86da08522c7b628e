//! Several processes at one marker.
//!
//! Each process resolves the same override by the steps of
//! [`crate::protocol`], on its own, and meets the others only in the lock on
//! the marker. This module states what the operating system's lock manager
//! is relied on for, and proves what then holds of all the processes together.

use vstd::prelude::*;

use crate::lock::LockError;
use crate::protocol::{
    answers, built, lemma_rebuilt_entry_is_usable, next, purged, rebuilt, recorded, usable,
    EntryView, EventView, Held, State,
};
use crate::toolchain::{rechecks, OverrideView};

verus! {

/// One step of one process: which process, and the event reported to it.
pub struct Turn {
    pub who: int,
    pub event: EventView,
}

/// Whether no process but `who` holds a lock above `level`.
pub open spec fn others_hold_at_most(crowd: Seq<State>, who: int, level: Held) -> bool {
    forall|j: int|
        0 <= j < crowd.len() && j != who ==> match level {
            Held::Nothing => (#[trigger] crowd[j]).held() == Held::Nothing,
            Held::Shared => (#[trigger] crowd[j]).held() != Held::Exclusive,
            Held::Exclusive => true,
        }
}

/// What the lock manager is relied on for: it grants a shared lock only while
/// no other process holds the exclusive one, and the exclusive lock only while
/// no other process holds any. Events that report no grant are not restricted.
pub open spec fn admissible(crowd: Seq<State>, turn: Turn) -> bool {
    &&& 0 <= turn.who < crowd.len()
    &&& match (crowd[turn.who], turn.event) {
        (State::CheckExisting, EventView::Locked { outcome: Ok(_), .. }) => others_hold_at_most(
            crowd,
            turn.who,
            Held::Shared,
        ),
        (State::Upgrading, EventView::Upgraded { outcome: Ok(_) }) => others_hold_at_most(
            crowd,
            turn.who,
            Held::Nothing,
        ),
        _ => true,
    }
}

/// Whoever holds the exclusive lock is the only one to hold a lock at all.
pub open spec fn exclusive_is_alone(crowd: Seq<State>) -> bool {
    forall|i: int, j: int|
        0 <= i < crowd.len() && 0 <= j < crowd.len() && i != j && (#[trigger] crowd[i]).held()
            == Held::Exclusive ==> (#[trigger] crowd[j]).held() == Held::Nothing
}

/// The crowd after one turn.
pub open spec fn after_turn(t: OverrideView, crowd: Seq<State>, turn: Turn) -> Seq<State> {
    crowd.update(turn.who, next(t, crowd[turn.who], turn.event).0)
}

/// Whether each turn of the schedule is admissible in the crowd that it meets.
pub open spec fn all_admissible(t: OverrideView, crowd: Seq<State>, schedule: Seq<Turn>) -> bool
    decreases schedule.len(),
{
    schedule.len() > 0 ==> admissible(crowd, schedule[0]) && all_admissible(
        t,
        after_turn(t, crowd, schedule[0]),
        schedule.skip(1),
    )
}

/// The crowd after all turns of the schedule.
pub open spec fn after_schedule(t: OverrideView, crowd: Seq<State>, schedule: Seq<Turn>) -> Seq<
    State,
>
    decreases schedule.len(),
{
    if schedule.len() == 0 {
        crowd
    } else {
        after_schedule(t, after_turn(t, crowd, schedule[0]), schedule.skip(1))
    }
}

/// A crowd in which every process is at its first look, holding nothing.
pub open spec fn all_starting(crowd: Seq<State>) -> bool {
    forall|i: int| 0 <= i < crowd.len() ==> #[trigger] crowd[i] == State::CheckExisting
}

/// One admissible turn keeps the exclusive lock alone.
pub proof fn lemma_turn_keeps_exclusion(t: OverrideView, crowd: Seq<State>, turn: Turn)
    requires
        exclusive_is_alone(crowd),
        admissible(crowd, turn),
    ensures
        exclusive_is_alone(after_turn(t, crowd, turn)),
{
    let who = turn.who;
    let then = next(t, crowd[who], turn.event).0;
    let after = after_turn(t, crowd, turn);
    crate::protocol::lemma_lock_level_steps(t, crowd[who], turn.event);
    assert forall|i: int, j: int|
        0 <= i < after.len() && 0 <= j < after.len() && i != j && (#[trigger] after[i]).held()
            == Held::Exclusive implies (#[trigger] after[j]).held() == Held::Nothing by {
        if i == who {
            assert(after[j] == crowd[j]);
            if crowd[who].held() == Held::Exclusive {
                assert(crowd[j].held() == Held::Nothing);
            }
        } else if j == who {
            assert(after[i] == crowd[i]);
            assert(crowd[i].held() == Held::Exclusive);
            if then.held() == Held::Shared {
                assert(false);
            } else if then.held() == Held::Exclusive {
                if crowd[who].held() == Held::Exclusive {
                    assert(crowd[i].held() == Held::Nothing);
                } else {
                    assert(false);
                }
            }
        } else {
            assert(after[i] == crowd[i]);
            assert(after[j] == crowd[j]);
        }
    }
}

/// No two processes ever hold the exclusive lock on one marker at the same
/// time, and none holds a shared lock beside it: this holds after every
/// schedule of admissible turns, from a crowd in which it held.
pub proof fn lemma_schedule_keeps_exclusion(
    t: OverrideView,
    crowd: Seq<State>,
    schedule: Seq<Turn>,
)
    requires
        exclusive_is_alone(crowd),
        all_admissible(t, crowd, schedule),
    ensures
        exclusive_is_alone(after_schedule(t, crowd, schedule)),
    decreases schedule.len(),
{
    if schedule.len() > 0 {
        lemma_turn_keeps_exclusion(t, crowd, schedule[0]);
        lemma_schedule_keeps_exclusion(t, after_turn(t, crowd, schedule[0]), schedule.skip(1));
    }
}

/// Mutual exclusion from the start: processes that all begin at their first
/// look never come to hold the exclusive lock two at a time.
pub proof fn lemma_mutual_exclusion(
    t: OverrideView,
    crowd: Seq<State>,
    schedule: Seq<Turn>,
    i: int,
    j: int,
)
    requires
        all_starting(crowd),
        all_admissible(t, crowd, schedule),
        0 <= i < crowd.len(),
        0 <= j < crowd.len(),
        i != j,
    ensures
        after_schedule(t, crowd, schedule).len() == crowd.len(),
        !(after_schedule(t, crowd, schedule)[i].held() == Held::Exclusive && after_schedule(
            t,
            crowd,
            schedule,
        )[j].held() == Held::Exclusive),
{
    assert(exclusive_is_alone(crowd));
    lemma_schedule_keeps_exclusion(t, crowd, schedule);
    lemma_schedule_keeps_len(t, crowd, schedule);
}

/// A schedule changes no process into two or none.
pub proof fn lemma_schedule_keeps_len(t: OverrideView, crowd: Seq<State>, schedule: Seq<Turn>)
    requires
        all_admissible(t, crowd, schedule),
    ensures
        after_schedule(t, crowd, schedule).len() == crowd.len(),
    decreases schedule.len(),
{
    if schedule.len() > 0 {
        lemma_schedule_keeps_len(t, after_turn(t, crowd, schedule[0]), schedule.skip(1));
    }
}

/// The processes at one marker together with the entry that they share.
pub struct World {
    /// Where each process stands.
    pub crowd: Seq<State>,
    /// What the entry holds.
    pub entry: EntryView,
    /// Whether a build has failed and what it left is not deleted yet: the
    /// entry may then hold anything.
    pub torn: bool,
    /// How many builds were asked for so far.
    pub builds: nat,
}

/// Whether the turn can happen in the world, where the pin file holds `pin`:
/// the lock manager allows it, the event answers what the process was asked
/// to do, and a look at the entry reports what is there.
pub open spec fn possible(w: World, pin: Seq<u8>, turn: Turn) -> bool {
    &&& admissible(w.crowd, turn)
    &&& answers(w.crowd[turn.who], turn.event)
    &&& match turn.event {
        EventView::Locked { outcome: Ok(_), entry, pin: seen } => entry == w.entry && seen == pin,
        _ => true,
    }
}

/// The world after one turn. The entry changes where the turn reports the end
/// of something that changes it: a build, the recording of the pin file, the
/// deletion.
pub open spec fn world_after(t: OverrideView, w: World, pin: Seq<u8>, turn: Turn) -> World {
    let state = w.crowd[turn.who];
    let (then, action) = next(t, state, turn.event);
    World {
        crowd: w.crowd.update(turn.who, then),
        entry: match (state, turn.event) {
            (State::Rebuild, EventView::Built { success: true, .. }) => built(w.entry),
            (State::Commit, EventView::Recorded) => recorded(w.entry, pin),
            (State::Purge(_), EventView::Purged) => purged(),
            _ => w.entry,
        },
        torn: match (state, turn.event) {
            (State::Rebuild, EventView::Built { success: false, .. }) => true,
            (State::Purge(_), EventView::Purged) => false,
            _ => w.torn,
        },
        builds: if action is Build {
            w.builds + 1
        } else {
            w.builds
        },
    }
}

/// Whether each turn of the schedule is possible in the world that it meets.
pub open spec fn all_possible(t: OverrideView, w: World, pin: Seq<u8>, schedule: Seq<Turn>) -> bool
    decreases schedule.len(),
{
    schedule.len() > 0 ==> possible(w, pin, schedule[0]) && all_possible(
        t,
        world_after(t, w, pin, schedule[0]),
        pin,
        schedule.skip(1),
    )
}

/// The world after all turns of the schedule.
pub open spec fn world_after_all(
    t: OverrideView,
    w: World,
    pin: Seq<u8>,
    schedule: Seq<Turn>,
) -> World
    decreases schedule.len(),
{
    if schedule.len() == 0 {
        w
    } else {
        world_after_all(t, world_after(t, w, pin, schedule[0]), pin, schedule.skip(1))
    }
}

/// Whether no build of the schedule fails.
pub open spec fn builds_succeed(schedule: Seq<Turn>) -> bool {
    forall|k: int|
        0 <= k < schedule.len() ==> match (#[trigger] schedule[k]).event {
            EventView::Built { success, .. } => success,
            _ => true,
        }
}

/// Nobody deletes a failed entry.
pub open spec fn nobody_purges(crowd: Seq<State>) -> bool {
    forall|i: int| 0 <= i < crowd.len() ==> !((#[trigger] crowd[i]) is Purge)
}

/// Nobody holds the exclusive lock.
pub open spec fn nobody_exclusive(crowd: Seq<State>) -> bool {
    forall|i: int| 0 <= i < crowd.len() ==> (#[trigger] crowd[i]).held() != Held::Exclusive
}

/// What holds of every world that the processes can reach.
///
/// The exclusive lock is held alone; an entry is torn only while the process
/// that failed to build it is deleting it; and whoever is on the way to a
/// rebuild has found the entry unusable, and it still is.
pub open spec fn sound(t: OverrideView, w: World, pin: Seq<u8>) -> bool {
    &&& exclusive_is_alone(w.crowd)
    &&& nobody_purges(w.crowd) ==> !w.torn
    &&& forall|i: int|
        0 <= i < w.crowd.len() && ((#[trigger] w.crowd[i]) is Upgrading || w.crowd[i] is Rebuild)
            ==> !usable(t, w.entry, pin)
}

/// A possible turn leads from a sound world to a sound world.
pub proof fn lemma_turn_keeps_sound(t: OverrideView, w: World, pin: Seq<u8>, turn: Turn)
    requires
        sound(t, w, pin),
        possible(w, pin, turn),
    ensures
        sound(t, world_after(t, w, pin, turn), pin),
{
    let who = turn.who;
    let state = w.crowd[who];
    let then = next(t, state, turn.event).0;
    let after = world_after(t, w, pin, turn);
    lemma_turn_keeps_exclusion(t, w.crowd, turn);
    assert(after.crowd == after_turn(t, w.crowd, turn));
    assert(after.crowd[who] == then);
    if nobody_purges(after.crowd) {
        if nobody_purges(w.crowd) {
            assert(!(then is Purge));
        } else {
            let x = choose|x: int| 0 <= x < w.crowd.len() && w.crowd[x] is Purge;
            if x != who {
                assert(after.crowd[x] == w.crowd[x]);
            }
        }
    }
    assert forall|i: int|
        0 <= i < after.crowd.len() && ((#[trigger] after.crowd[i]) is Upgrading
            || after.crowd[i] is Rebuild) implies !usable(t, after.entry, pin) by {
        if i == who {
            if state.held() == Held::Nothing {
                assert(after.entry == w.entry);
            }
        } else {
            assert(after.crowd[i] == w.crowd[i]);
            assert(w.crowd[i].held() != Held::Nothing);
            if state.held() == Held::Exclusive {
                assert(w.crowd[i].held() == Held::Nothing);
            }
            assert(after.entry == w.entry);
        }
    }
}

/// A look at the entry never finds it torn: what a failed build left is gone
/// before any process can see it.
pub proof fn lemma_no_look_at_torn_entry(t: OverrideView, w: World, pin: Seq<u8>, turn: Turn)
    requires
        sound(t, w, pin),
        possible(w, pin, turn),
        w.crowd[turn.who] == State::CheckExisting,
        turn.event matches EventView::Locked { outcome: Ok(_), .. },
    ensures
        !w.torn,
{
    assert forall|i: int| 0 <= i < w.crowd.len() implies !((#[trigger] w.crowd[i]) is Purge) by {
        if i != turn.who {
            assert(w.crowd[i].held() != Held::Exclusive);
        }
    }
}

/// Every world that a schedule of possible turns leads to is sound.
pub proof fn lemma_schedule_keeps_sound(
    t: OverrideView,
    w: World,
    pin: Seq<u8>,
    schedule: Seq<Turn>,
)
    requires
        sound(t, w, pin),
        all_possible(t, w, pin, schedule),
    ensures
        sound(t, world_after_all(t, w, pin, schedule), pin),
    decreases schedule.len(),
{
    if schedule.len() > 0 {
        lemma_turn_keeps_sound(t, w, pin, schedule[0]);
        lemma_schedule_keeps_sound(t, world_after(t, w, pin, schedule[0]), pin, schedule.skip(1));
    }
}

/// What holds, beyond [`sound`], while every build succeeds and the override
/// is one whose entry can be trusted once it is built: at most one build was
/// asked for, the entry is untouched before it and usable once it is
/// committed, and whoever has ended well has found the entry usable.
pub open spec fn settled(t: OverrideView, w: World, pin: Seq<u8>) -> bool {
    &&& sound(t, w, pin)
    &&& nobody_purges(w.crowd)
    &&& w.builds <= 1
    &&& w.builds == 0 ==> nobody_exclusive(w.crowd) && !usable(t, w.entry, pin)
    &&& w.builds == 1 && nobody_exclusive(w.crowd) ==> usable(t, w.entry, pin)
    &&& forall|i: int|
        0 <= i < w.crowd.len() && (#[trigger] w.crowd[i]) is Commit ==> w.entry.artifact && t is File
    &&& forall|i: int|
        0 <= i < w.crowd.len() && (#[trigger] w.crowd[i]) is Done ==> usable(t, w.entry, pin)
}

/// A possible turn whose build, if it reports one, succeeded leads from a
/// settled world to a settled world.
pub proof fn lemma_turn_keeps_settled(t: OverrideView, w: World, pin: Seq<u8>, turn: Turn)
    requires
        rechecks(t),
        settled(t, w, pin),
        possible(w, pin, turn),
        turn.event matches EventView::Built { success, .. } ==> success,
    ensures
        settled(t, world_after(t, w, pin, turn), pin),
{
    let who = turn.who;
    let state = w.crowd[who];
    let (then, action) = next(t, state, turn.event);
    let after = world_after(t, w, pin, turn);
    lemma_turn_keeps_sound(t, w, pin, turn);
    assert(after.crowd[who] == then);
    assert(!(state is Purge));
    assert(!(then is Purge));
    assert forall|i: int| 0 <= i < after.crowd.len() implies !((#[trigger] after.crowd[i])
        is Purge) by {
        if i != who {
            assert(after.crowd[i] == w.crowd[i]);
        }
    }
    if action is Build {
        // The upgrade was granted: nobody else holds a lock, and the one who
        // asked holds the shared one, so no build can have gone before.
        assert(state is Upgrading);
        assert forall|i: int| 0 <= i < w.crowd.len() implies (#[trigger] w.crowd[i]).held()
            != Held::Exclusive by {
            if i != who {
                assert(w.crowd[i].held() == Held::Nothing);
            }
        }
        assert(w.builds == 0);
    }
    if state.held() != Held::Exclusive {
        assert(after.entry == w.entry);
    }
    if nobody_exclusive(after.crowd) {
        if state.held() == Held::Exclusive {
        } else {
            assert forall|i: int| 0 <= i < w.crowd.len() implies (#[trigger] w.crowd[i]).held()
                != Held::Exclusive by {
                if i != who {
                    assert(after.crowd[i] == w.crowd[i]);
                }
            }
        }
    } else {
        let x = choose|x: int|
            0 <= x < after.crowd.len() && after.crowd[x].held() == Held::Exclusive;
        if x != who {
            assert(after.crowd[x] == w.crowd[x]);
        }
        assert(after.builds == 1);
    }
    assert forall|i: int|
        0 <= i < after.crowd.len() && (#[trigger] after.crowd[i]) is Commit implies after.entry.artifact
        && t is File by {
        if i != who {
            assert(after.crowd[i] == w.crowd[i]);
            assert(w.crowd[i].held() == Held::Exclusive);
            if state.held() == Held::Exclusive {
                assert(w.crowd[i].held() == Held::Nothing);
            }
        }
    }
    assert forall|i: int|
        0 <= i < after.crowd.len() && (#[trigger] after.crowd[i]) is Done implies usable(
        t,
        after.entry,
        pin,
    ) by {
        if i != who {
            assert(after.crowd[i] == w.crowd[i]);
            assert(usable(t, w.entry, pin));
            if state is Rebuild {
                assert(false);
            }
        }
    }
}

/// At most one rebuild, whatever the order of turns.
///
/// Take processes that resolve an override whose entry can be trusted once it
/// is built, a settled world (a [`fresh`] one is), and a schedule of possible
/// turns in which no build fails. Then one build at most is asked for, and
/// each process that has ended well found the entry usable, after that one
/// build.
///
/// That the processes do end is not stated: it rests on the order in which
/// the lock manager serves them (see [`lemma_orderly_contention_converges`]).
pub proof fn lemma_one_rebuild(t: OverrideView, w: World, pin: Seq<u8>, schedule: Seq<Turn>)
    requires
        rechecks(t),
        settled(t, w, pin),
        all_possible(t, w, pin, schedule),
        builds_succeed(schedule),
    ensures
        settled(t, world_after_all(t, w, pin, schedule), pin),
        world_after_all(t, w, pin, schedule).builds <= 1,
        forall|i: int|
            0 <= i < world_after_all(t, w, pin, schedule).crowd.len() && (
            #[trigger] world_after_all(t, w, pin, schedule).crowd[i]) is Done ==> usable(
                t,
                world_after_all(t, w, pin, schedule).entry,
                pin,
            ) && world_after_all(t, w, pin, schedule).builds == 1,
    decreases schedule.len(),
{
    if schedule.len() > 0 {
        assert(schedule[0] == schedule[0]);
        lemma_turn_keeps_settled(t, w, pin, schedule[0]);
        assert forall|k: int| 0 <= k < schedule.skip(1).len() implies match (
        #[trigger] schedule.skip(1)[k]).event {
            EventView::Built { success, .. } => success,
            _ => true,
        } by {
            assert(schedule.skip(1)[k] == schedule[k + 1]);
        }
        lemma_one_rebuild(t, world_after(t, w, pin, schedule[0]), pin, schedule.skip(1));
    }
}

/// A world in which nothing has happened to the entry yet: it is unusable
/// and whole, no build was asked for, and each process is at its first look,
/// trying to upgrade, or resting.
pub open spec fn fresh(t: OverrideView, w: World, pin: Seq<u8>) -> bool {
    &&& forall|i: int|
        0 <= i < w.crowd.len() ==> (#[trigger] w.crowd[i]) is CheckExisting || w.crowd[i]
            is Upgrading || w.crowd[i] is BackoffRetry
    &&& !usable(t, w.entry, pin)
    &&& !w.torn
    &&& w.builds == 0
}

/// A fresh world is settled: the statements of [`lemma_one_rebuild`] hold of
/// whatever follows it.
pub proof fn lemma_fresh_is_settled(t: OverrideView, w: World, pin: Seq<u8>)
    requires
        fresh(t, w, pin),
    ensures
        settled(t, w, pin),
{
}

/// Running one schedule after another is running the two as one.
pub proof fn lemma_schedules_join(
    t: OverrideView,
    w: World,
    pin: Seq<u8>,
    first: Seq<Turn>,
    second: Seq<Turn>,
)
    ensures
        all_possible(t, w, pin, first + second) == (all_possible(t, w, pin, first) && all_possible(
            t,
            world_after_all(t, w, pin, first),
            pin,
            second,
        )),
        world_after_all(t, w, pin, first + second) == world_after_all(
            t,
            world_after_all(t, w, pin, first),
            pin,
            second,
        ),
    decreases first.len(),
{
    if first.len() == 0 {
        assert(first + second =~= second);
    } else {
        let both = first + second;
        assert(both[0] == first[0]);
        assert(both.skip(1) =~= first.skip(1) + second);
        lemma_schedules_join(t, world_after(t, w, pin, first[0]), pin, first.skip(1), second);
    }
}

/// The schedule in which the `count` processes from `from` on each get the
/// same event, one after the other.
pub open spec fn sweep(from: int, count: nat, event: EventView) -> Seq<Turn> {
    Seq::new(count, |j: int| Turn { who: from + j, event })
}

/// The crowd in which the `count` processes from `from` on stand at `then`,
/// and all others where they stand in `crowd`.
pub open spec fn swept(crowd: Seq<State>, from: int, count: nat, then: State) -> Seq<State> {
    Seq::new(
        crowd.len(),
        |i: int|
            if from <= i < from + count {
                then
            } else {
                crowd[i]
            },
    )
}

/// A sweep over processes that all stand at `state`, with an event that
/// answers them, takes no exclusive lock and changes nothing in the entry, is
/// possible while nobody holds the exclusive lock, and brings each of them to
/// the state that follows.
pub proof fn lemma_sweep(
    t: OverrideView,
    w: World,
    pin: Seq<u8>,
    from: int,
    count: nat,
    event: EventView,
    state: State,
)
    requires
        0 <= from,
        from + count <= w.crowd.len(),
        forall|i: int| from <= i < from + count ==> #[trigger] w.crowd[i] == state,
        nobody_exclusive(w.crowd),
        answers(state, event),
        next(t, state, event).0.held() != Held::Exclusive,
        event matches EventView::Locked { outcome: Ok(_), entry, pin: seen } ==> entry == w.entry
            && seen == pin,
    ensures
        all_possible(t, w, pin, sweep(from, count, event)),
        world_after_all(t, w, pin, sweep(from, count, event)) == (World {
            crowd: swept(w.crowd, from, count, next(t, state, event).0),
            entry: w.entry,
            torn: w.torn,
            builds: w.builds,
        }),
    decreases count,
{
    let then = next(t, state, event).0;
    let schedule = sweep(from, count, event);
    if count == 0 {
        assert(swept(w.crowd, from, count, then) =~= w.crowd);
    } else {
        let turn = schedule[0];
        assert(turn.who == from);
        assert(w.crowd[from] == state);
        assert forall|j: int| 0 <= j < w.crowd.len() && j != from implies (#[trigger] w.crowd[j]).held()
            != Held::Exclusive by {}
        assert(possible(w, pin, turn));
        let after = world_after(t, w, pin, turn);
        assert(state.held() != Held::Exclusive);
        assert(after.entry == w.entry);
        assert(after.torn == w.torn);
        assert(after.builds == w.builds);
        assert forall|i: int| 0 <= i < after.crowd.len() implies (#[trigger] after.crowd[i]).held()
            != Held::Exclusive by {
            if i != from {
                assert(after.crowd[i] == w.crowd[i]);
            }
        }
        assert forall|i: int| from + 1 <= i < from + count implies #[trigger] after.crowd[i]
            == state by {
            assert(after.crowd[i] == w.crowd[i]);
        }
        assert(schedule.skip(1) =~= sweep(from + 1, (count - 1) as nat, event));
        lemma_sweep(t, after, pin, from + 1, (count - 1) as nat, event, state);
        assert(swept(after.crowd, from + 1, (count - 1) as nat, then) =~= swept(
            w.crowd,
            from,
            count,
            then,
        ));
    }
}

/// What a failed build leaves is never seen. In every schedule of possible
/// turns from a sound world, each look at the entry that is granted meets an
/// entry that is not torn: the process that failed has deleted it before
/// anyone else can take the shared lock.
pub proof fn lemma_torn_entry_is_never_seen(
    t: OverrideView,
    w: World,
    pin: Seq<u8>,
    schedule: Seq<Turn>,
    k: int,
)
    requires
        sound(t, w, pin),
        all_possible(t, w, pin, schedule),
        0 <= k < schedule.len(),
        world_after_all(t, w, pin, schedule.take(k)).crowd[schedule[k].who]
            == State::CheckExisting,
        schedule[k].event matches EventView::Locked { outcome: Ok(_), .. },
    ensures
        !world_after_all(t, w, pin, schedule.take(k)).torn,
{
    let before = schedule.take(k);
    let rest = schedule.skip(k);
    assert(schedule =~= before + rest);
    lemma_schedules_join(t, w, pin, before, rest);
    lemma_schedule_keeps_sound(t, w, pin, before);
    let met = world_after_all(t, w, pin, before);
    assert(rest[0] == schedule[k]);
    assert(possible(met, pin, rest[0]));
    lemma_no_look_at_torn_entry(t, met, pin, schedule[k]);
}

/// A world of `count` processes that all try to upgrade at once, over an
/// entry that nobody has built.
pub open spec fn upgraders(count: nat, entry: EntryView) -> World {
    World {
        crowd: Seq::new(count, |i: int| State::Upgrading),
        entry,
        torn: false,
        builds: 0,
    }
}

/// What the first process goes through once the others have given way: its
/// upgrade is granted, it builds, and it records the pin file if there is one.
pub open spec fn winning(t: OverrideView) -> Seq<Turn> {
    let granted = Turn { who: 0, event: EventView::Upgraded { outcome: Ok(()) } };
    let built = Turn { who: 0, event: EventView::Built { success: true, code: Some(0i32) } };
    let recorded = Turn { who: 0, event: EventView::Recorded };
    if t is File {
        seq![granted, built, recorded]
    } else {
        seq![granted, built]
    }
}

/// The orderly course of `count` upgrades at once: every process but the
/// first is refused as a deadlock, the first is granted its upgrade and
/// rebuilds, the others rest, and then each looks at the cache again.
pub open spec fn orderly(
    t: OverrideView,
    count: nat,
    entry: EntryView,
    pin: Seq<u8>,
) -> Seq<Turn> {
    sweep(1, (count - 1) as nat, EventView::Upgraded { outcome: Err(LockError::Deadlock) })
        + winning(t) + sweep(1, (count - 1) as nat, EventView::Rested) + sweep(
        0,
        count,
        EventView::Locked { outcome: Ok(()), entry: rebuilt(t, entry, pin), pin },
    )
}

/// Upgrades at once can end well for all, after one rebuild and one retry.
///
/// Where all but one of the processes that try to upgrade at once are refused
/// as a deadlock, and rest long enough for that one to get the exclusive lock
/// and to rebuild, everything that then happens is possible, takes no more
/// than three turns for each process and one more, and ends with every
/// process at `Done`: one of them has built, once, and each of the others
/// has tried again once and found the entry usable.
pub proof fn lemma_orderly_contention_converges(
    t: OverrideView,
    count: nat,
    entry: EntryView,
    pin: Seq<u8>,
)
    requires
        rechecks(t),
        count >= 1,
        !usable(t, entry, pin),
    ensures
        ({
            let begin = upgraders(count, entry);
            let schedule = orderly(t, count, entry, pin);
            let end = world_after_all(t, begin, pin, schedule);
            &&& fresh(t, begin, pin)
            &&& all_possible(t, begin, pin, schedule)
            &&& builds_succeed(schedule)
            &&& schedule.len() <= 3 * count + 1
            &&& end.crowd.len() == count
            &&& forall|i: int| 0 <= i < count ==> #[trigger] end.crowd[i] == State::Done
            &&& end.builds == 1
            &&& end.entry == rebuilt(t, entry, pin)
        }),
{
    let losers = (count - 1) as nat;
    let refused = EventView::Upgraded { outcome: Err(LockError::Deadlock) };
    let seen = EventView::Locked { outcome: Ok(()), entry: rebuilt(t, entry, pin), pin };
    let giving_way = sweep(1, losers, refused);
    let resting = sweep(1, losers, EventView::Rested);
    let looking = sweep(0, count, seen);
    let begin = upgraders(count, entry);

    // The others are refused and give their shared locks up.
    lemma_sweep(t, begin, pin, 1, losers, refused, State::Upgrading);
    let w1 = world_after_all(t, begin, pin, giving_way);
    assert(w1.crowd[0] == State::Upgrading);
    assert forall|j: int| 0 <= j < w1.crowd.len() && j != 0 implies (#[trigger] w1.crowd[j]).held()
        == Held::Nothing by {
        assert(w1.crowd[j] == State::BackoffRetry);
    }

    // The first is granted its upgrade, builds and commits.
    let w2 = world_after_all(t, w1, pin, winning(t));
    lemma_winning(t, w1, pin);

    // The others have rested.
    assert forall|i: int| 1 <= i < 1 + losers implies #[trigger] w2.crowd[i]
        == State::BackoffRetry by {
        assert(w1.crowd[i] == State::BackoffRetry);
    }
    assert forall|i: int| 0 <= i < w2.crowd.len() implies (#[trigger] w2.crowd[i]).held()
        != Held::Exclusive by {
        if i != 0 {
            assert(w2.crowd[i] == w1.crowd[i]);
        }
    }
    lemma_sweep(t, w2, pin, 1, losers, EventView::Rested, State::BackoffRetry);
    let w3 = world_after_all(t, w2, pin, resting);

    // Every process looks again and finds the entry usable.
    lemma_rebuilt_entry_is_usable(t, entry, pin);
    assert forall|i: int| 0 <= i < count implies #[trigger] w3.crowd[i]
        == State::CheckExisting by {}
    lemma_sweep(t, w3, pin, 0, count, seen, State::CheckExisting);
    let w4 = world_after_all(t, w3, pin, looking);

    lemma_schedules_join(t, begin, pin, giving_way, winning(t));
    lemma_schedules_join(t, begin, pin, giving_way + winning(t), resting);
    lemma_schedules_join(t, begin, pin, giving_way + winning(t) + resting, looking);
    assert(world_after_all(t, begin, pin, orderly(t, count, entry, pin)) == w4);
    assert forall|i: int| 0 <= i < count implies #[trigger] w4.crowd[i] == State::Done by {}
}

/// The turns of [`winning`], in a world in which the first process holds the
/// shared lock and nobody else holds any, over an entry that is not built
/// yet: they are possible, and they leave the first process at its next look,
/// the entry rebuilt, and one build counted.
proof fn lemma_winning(t: OverrideView, w: World, pin: Seq<u8>)
    requires
        rechecks(t),
        w.crowd.len() >= 1,
        w.crowd[0] == State::Upgrading,
        others_hold_at_most(w.crowd, 0, Held::Nothing),
    ensures
        all_possible(t, w, pin, winning(t)),
        builds_succeed(winning(t)),
        world_after_all(t, w, pin, winning(t)) == (World {
            crowd: w.crowd.update(0, State::CheckExisting),
            entry: rebuilt(t, w.entry, pin),
            torn: w.torn,
            builds: w.builds + 1,
        }),
{
    let schedule = winning(t);
    let w1 = world_after(t, w, pin, schedule[0]);
    assert(possible(w, pin, schedule[0]));
    assert(w1.crowd =~= w.crowd.update(0, State::Rebuild));
    assert(possible(w1, pin, schedule[1]));
    let w2 = world_after(t, w1, pin, schedule[1]);
    assert(schedule.skip(1)[0] == schedule[1]);
    if t is File {
        assert(w2.crowd =~= w.crowd.update(0, State::Commit));
        assert(possible(w2, pin, schedule[2]));
        let w3 = world_after(t, w2, pin, schedule[2]);
        assert(w3.crowd =~= w.crowd.update(0, State::CheckExisting));
        assert(schedule.skip(1).skip(1)[0] == schedule[2]);
        assert(schedule.skip(1).skip(1).skip(1) =~= Seq::<Turn>::empty());
        assert(world_after_all(t, w3, pin, schedule.skip(1).skip(1).skip(1)) == w3);
        assert(all_possible(t, w3, pin, schedule.skip(1).skip(1).skip(1)));
        assert(all_possible(t, w2, pin, schedule.skip(1).skip(1)));
        assert(world_after_all(t, w2, pin, schedule.skip(1).skip(1)) == w3);
    } else {
        assert(w2.crowd =~= w.crowd.update(0, State::CheckExisting));
        assert(schedule.skip(1).skip(1) =~= Seq::<Turn>::empty());
        assert(world_after_all(t, w2, pin, schedule.skip(1).skip(1)) == w2);
        assert(all_possible(t, w2, pin, schedule.skip(1).skip(1)));
    }
    assert(all_possible(t, w1, pin, schedule.skip(1)));
    assert(all_possible(t, w, pin, schedule));
    let end = world_after_all(t, w, pin, schedule);
    assert(end == world_after_all(t, w1, pin, schedule.skip(1)));
    assert(end == world_after_all(t, w2, pin, schedule.skip(1).skip(1)));
    assert(end.crowd =~= w.crowd.update(0, State::CheckExisting));
    assert(end.entry == rebuilt(t, w.entry, pin));
    assert(end.builds == w.builds + 1);
    assert(end.torn == w.torn);
}


} // verus!
