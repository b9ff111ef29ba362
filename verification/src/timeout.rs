//! The guest's timers: when each is due, which are still live, and the next
//! id to hand out.

use core::cmp::Ordering;
use std::collections::BTreeSet;
use vstd::prelude::*;
use vstd::std_specs::cmp::PartialOrdSpecImpl;

verus! {

broadcast use vstd::std_specs::btree::group_btree_axioms;

/// Nanoseconds in one millisecond.
pub const NANOS_PER_MILLI: u64 = 1_000_000;

/// One scheduled timer: the virtual time at which it is due, and its id.
#[derive(Debug, Clone, Copy, PartialEq, Eq, Structural)]
pub struct TimeoutInfo {
    pub time: u64,
    pub id: u32,
}

impl TimeoutInfo {
    /// Whether `self` is due before `other`: at an earlier time, or at the
    /// same time with the smaller id.
    pub open spec fn fires_before(self, other: TimeoutInfo) -> bool {
        self.time < other.time || (self.time == other.time && self.id < other.id)
    }

    /// The order of two timers. It is inverted on purpose: it compares by
    /// descending time, then by descending id, so that the greatest timer is
    /// the one that is due first.
    pub open spec fn order(self, other: TimeoutInfo) -> Ordering {
        if self.fires_before(other) {
            Ordering::Greater
        } else if other.fires_before(self) {
            Ordering::Less
        } else {
            Ordering::Equal
        }
    }

    /// Compares two timers by [`TimeoutInfo::order`].
    pub fn cmp(&self, other: &Self) -> (r: Ordering)
        ensures
            r == self.order(*other),
    {
        if other.time < self.time {
            Ordering::Less
        } else if other.time > self.time {
            Ordering::Greater
        } else if other.id < self.id {
            Ordering::Less
        } else if other.id > self.id {
            Ordering::Greater
        } else {
            Ordering::Equal
        }
    }
}

impl PartialOrdSpecImpl for TimeoutInfo {
    open spec fn obeys_partial_cmp_spec() -> bool {
        true
    }

    open spec fn partial_cmp_spec(&self, other: &TimeoutInfo) -> Option<Ordering> {
        Some(self.order(*other))
    }
}

impl PartialOrd for TimeoutInfo {
    fn partial_cmp(&self, other: &Self) -> (r: Option<Ordering>) {
        Some(self.cmp(other))
    }
}

/// The time at which a timer set `delay_ms` milliseconds after `now` is due.
/// Both steps saturate at the largest time there is.
pub open spec fn fire_time(delay_ms: u64, now: u64) -> u64 {
    let delay = if delay_ms * NANOS_PER_MILLI > u64::MAX {
        u64::MAX
    } else {
        (delay_ms * NANOS_PER_MILLI) as u64
    };
    if delay + now > u64::MAX {
        u64::MAX
    } else {
        (delay + now) as u64
    }
}

/// Where `entry` goes into `times`: in front of the first timer that is due
/// before it, or at the end if there is none.
pub open spec fn insertion_point(times: Seq<TimeoutInfo>, entry: TimeoutInfo) -> nat
    decreases times.len(),
{
    if times.len() == 0 || times[0].fires_before(entry) {
        0
    } else {
        1 + insertion_point(times.drop_first(), entry)
    }
}

/// Whether the timers stand in the order in which they pop: each is due
/// after all that follow it, so the last one is due first.
pub open spec fn pop_sorted(times: Seq<TimeoutInfo>) -> bool {
    forall|i: int, j: int| 0 <= i < j < times.len() ==> times[j].fires_before(times[i])
}

/// What a [`TimeoutState`] holds.
pub struct TimeoutStateView {
    /// The scheduled timers; the last one is the next to pop.
    pub times: Seq<TimeoutInfo>,
    /// The ids that were scheduled and not cleared since.
    pub pending_ids: Set<u32>,
    /// The id that the next timer gets.
    pub next_id: u32,
}

impl TimeoutStateView {
    /// The timers stand in pop order, and no id in use has reached `next_id`.
    pub open spec fn wf(self) -> bool {
        &&& pop_sorted(self.times)
        &&& forall|i: int|
            0 <= i < self.times.len() ==> (#[trigger] self.times[i]).id < self.next_id
        &&& forall|id: u32| self.pending_ids.contains(id) ==> id < self.next_id
    }

    /// Whether another id can be handed out.
    pub open spec fn can_schedule(self) -> bool {
        self.next_id < u32::MAX
    }

    /// The timer that the next call of `schedule` adds.
    pub open spec fn next_entry(self, delay_ms: u64, now: u64) -> TimeoutInfo {
        TimeoutInfo { time: fire_time(delay_ms, now), id: self.next_id }
    }

    /// The state after a timer was scheduled `delay_ms` milliseconds after `now`.
    pub open spec fn schedule(self, delay_ms: u64, now: u64) -> TimeoutStateView {
        let entry = self.next_entry(delay_ms, now);
        TimeoutStateView {
            times: self.times.insert(insertion_point(self.times, entry) as int, entry),
            pending_ids: self.pending_ids.insert(self.next_id),
            next_id: (self.next_id + 1) as u32,
        }
    }

    /// The state after `id` was cleared. The timer itself stays where it is:
    /// whoever pops it finds that its id is no longer pending.
    pub open spec fn cancel(self, id: u32) -> TimeoutStateView {
        TimeoutStateView { pending_ids: self.pending_ids.remove(id), ..self }
    }

    /// Whether `first` pops before `second`: both are scheduled, and `first`
    /// stands nearer to the end.
    pub open spec fn pops_before(self, first: TimeoutInfo, second: TimeoutInfo) -> bool {
        exists|i: int, j: int|
            0 <= j < i < self.times.len() && self.times[i] == first && self.times[j] == second
    }
}

/// The state of the guest's timers.
///
/// `times` is kept in pop order: `times.pop()` yields the timer that is due
/// first. Clearing a timer only takes its id out of `pending_ids`; a popped
/// timer whose id is not pending any more is to be dropped.
#[derive(Clone, Debug)]
pub struct TimeoutState {
    /// Contains the timers, the one that is due first at the end
    pub times: Vec<TimeoutInfo>,
    pub pending_ids: BTreeSet<u32>,
    pub next_id: u32,
}

impl View for TimeoutState {
    type V = TimeoutStateView;

    open spec fn view(&self) -> TimeoutStateView {
        TimeoutStateView {
            times: self.times@,
            pending_ids: self.pending_ids@,
            next_id: self.next_id,
        }
    }
}

impl Default for TimeoutState {
    fn default() -> (state: TimeoutState)
        ensures
            state@.times == Seq::<TimeoutInfo>::empty(),
            state@.pending_ids == Set::<u32>::empty(),
            state@.next_id == 0,
            state@.wf(),
    {
        TimeoutState { times: Vec::new(), pending_ids: BTreeSet::new(), next_id: 0 }
    }
}

/// The insertion point lies within the sequence, nothing in front of it is
/// due before the entry, and what stands at it is.
pub proof fn lemma_insertion_point(times: Seq<TimeoutInfo>, entry: TimeoutInfo)
    ensures
        insertion_point(times, entry) <= times.len(),
        forall|i: int|
            0 <= i < insertion_point(times, entry) ==> !(#[trigger] times[i]).fires_before(entry),
        insertion_point(times, entry) < times.len() ==> times[insertion_point(
            times,
            entry,
        ) as int].fires_before(entry),
    decreases times.len(),
{
    if times.len() == 0 || times[0].fires_before(entry) {
    } else {
        let rest = times.drop_first();
        lemma_insertion_point(rest, entry);
        let p = insertion_point(rest, entry);
        assert forall|i: int| 0 <= i < p as int + 1 implies !(#[trigger] times[i]).fires_before(
            entry,
        ) by {
            if i > 0 {
                assert(times[i] == rest[i - 1]);
            }
        }
        if p < rest.len() {
            assert(times[p as int + 1] == rest[p as int]);
        }
    }
}

impl TimeoutState {
    /// Schedules a timer `delay_ms` milliseconds after `now` and returns its
    /// id, or `None`, with nothing changed, once the ids have run out.
    pub fn schedule(&mut self, delay_ms: u64, now: u64) -> (id: Option<u32>)
        ensures
            old(self)@.can_schedule() ==> id == Some(old(self).next_id) && final(self)@ == old(
                self,
            )@.schedule(delay_ms, now),
            !old(self)@.can_schedule() ==> id is None && *final(self) == *old(self),
            old(self)@.wf() ==> final(self)@.wf(),
    {
        if self.next_id == u32::MAX {
            return None;
        }
        proof {
            if self@.wf() {
                lemma_schedule_keeps_wf(self@, delay_ms, now);
            }
        }
        let delay = match delay_ms.checked_mul(NANOS_PER_MILLI) {
            Some(nanos) => nanos,
            None => u64::MAX,
        };
        let time = delay.saturating_add(now);
        let id = self.next_id;
        let entry = TimeoutInfo { time, id };
        let ghost before = self.times@;
        let mut at: usize = 0;
        assert(before.skip(0) =~= before);
        while at < self.times.len() && !(self.times[at].time < time || (self.times[at].time == time
            && self.times[at].id < id))
            invariant
                self.times@ == before,
                at <= before.len(),
                entry == (TimeoutInfo { time, id }),
                insertion_point(before, entry) == at + insertion_point(
                    before.skip(at as int),
                    entry,
                ),
            decreases before.len() - at,
        {
            proof {
                let rest = before.skip(at as int);
                assert(rest[0] == before[at as int]);
                assert(rest.drop_first() =~= before.skip(at + 1));
            }
            at += 1;
        }
        proof {
            let rest = before.skip(at as int);
            if at < before.len() {
                assert(rest[0] == before[at as int]);
            }
            assert(insertion_point(rest, entry) == 0);
        }
        self.times.insert(at, entry);
        self.pending_ids.insert(id);
        self.next_id = id + 1;
        assert(self@.pending_ids =~= old(self)@.pending_ids.insert(id));
        Some(id)
    }

    /// Clears the timer `id` and says whether it was pending. An id that is
    /// not pending changes nothing.
    pub fn cancel(&mut self, id: u32) -> (was_pending: bool)
        ensures
            was_pending == old(self)@.pending_ids.contains(id),
            final(self)@ == old(self)@.cancel(id),
            old(self)@.wf() ==> final(self)@.wf(),
    {
        let was_pending = self.pending_ids.remove(&id);
        assert(self@.pending_ids =~= old(self)@.pending_ids.remove(id));
        was_pending
    }

    /// Whether the timer `id` was scheduled and not cleared since.
    pub fn is_pending(&self, id: u32) -> (pending: bool)
        ensures
            pending == self@.pending_ids.contains(id),
    {
        self.pending_ids.contains(&id)
    }
}

/// Scheduling keeps a well-formed state well-formed: the new timer goes
/// where the pop order wants it, and its id is the one that no timer and
/// no pending id has.
pub proof fn lemma_schedule_keeps_wf(state: TimeoutStateView, delay_ms: u64, now: u64)
    requires
        state.wf(),
        state.can_schedule(),
    ensures
        state.schedule(delay_ms, now).wf(),
{
    let entry = state.next_entry(delay_ms, now);
    let at = insertion_point(state.times, entry) as int;
    let after = state.schedule(delay_ms, now);
    lemma_insertion_point(state.times, entry);
    assert forall|i: int, j: int|
        0 <= i < j < after.times.len() implies after.times[j].fires_before(after.times[i]) by {
        if j == at {
            assert(after.times[i] == state.times[i]);
        } else if i == at {
            assert(after.times[j] == state.times[j - 1]);
            if j - 1 > at {
                assert(state.times[j - 1].fires_before(state.times[at]));
            }
        } else {
            let from_i = if i < at { i } else { i - 1 };
            let from_j = if j < at { j } else { j - 1 };
            assert(after.times[i] == state.times[from_i]);
            assert(after.times[j] == state.times[from_j]);
        }
    }
    assert forall|i: int| 0 <= i < after.times.len() implies (#[trigger] after.times[i]).id
        < after.next_id by {
        if i < at {
            assert(after.times[i] == state.times[i]);
        } else if i > at {
            assert(after.times[i] == state.times[i - 1]);
        }
    }
}

/// Of two scheduled timers, the one that is due first pops first.
pub proof fn lemma_due_first_pops_first(
    state: TimeoutStateView,
    first: TimeoutInfo,
    second: TimeoutInfo,
)
    requires
        state.wf(),
        state.times.contains(first),
        state.times.contains(second),
        first.fires_before(second),
    ensures
        state.pops_before(first, second),
{
    let i = choose|i: int| 0 <= i < state.times.len() && state.times[i] == first;
    let j = choose|j: int| 0 <= j < state.times.len() && state.times[j] == second;
    if i < j {
        assert(state.times[j].fires_before(state.times[i]));
    }
    assert(0 <= j < i < state.times.len() && state.times[i] == first && state.times[j] == second);
}

/// A timer that was just scheduled is among the timers, and those that
/// were there before still are.
pub proof fn lemma_schedule_adds(state: TimeoutStateView, delay_ms: u64, now: u64)
    ensures
        state.schedule(delay_ms, now).times.contains(state.next_entry(delay_ms, now)),
        forall|entry: TimeoutInfo|
            state.times.contains(entry) ==> #[trigger] state.schedule(
                delay_ms,
                now,
            ).times.contains(entry),
{
    let new = state.next_entry(delay_ms, now);
    let at = insertion_point(state.times, new) as int;
    let after = state.schedule(delay_ms, now).times;
    lemma_insertion_point(state.times, new);
    assert(after[at] == new);
    assert forall|entry: TimeoutInfo| state.times.contains(entry) implies after.contains(
        entry,
    ) by {
        let i = choose|i: int| 0 <= i < state.times.len() && state.times[i] == entry;
        if i < at {
            assert(after[i] == entry);
        } else {
            assert(after[i + 1] == entry);
        }
    }
}

/// Two timers scheduled one after the other pop in the order in which
/// they are due. With the same fire time the one scheduled first, which
/// has the smaller id, pops first.
pub proof fn lemma_schedule_order(
    state: TimeoutStateView,
    delay_1: u64,
    now_1: u64,
    delay_2: u64,
    now_2: u64,
)
    requires
        state.wf(),
        state.next_id + 1 < u32::MAX,
    ensures
        ({
            let once = state.schedule(delay_1, now_1);
            let twice = once.schedule(delay_2, now_2);
            let first = state.next_entry(delay_1, now_1);
            let second = once.next_entry(delay_2, now_2);
            &&& first.id == state.next_id
            &&& second.id == state.next_id + 1
            &&& twice.wf()
            &&& fire_time(delay_1, now_1) <= fire_time(delay_2, now_2) ==> twice.pops_before(
                first,
                second,
            )
            &&& fire_time(delay_2, now_2) < fire_time(delay_1, now_1) ==> twice.pops_before(
                second,
                first,
            )
        }),
{
    let once = state.schedule(delay_1, now_1);
    let twice = once.schedule(delay_2, now_2);
    let first = state.next_entry(delay_1, now_1);
    let second = once.next_entry(delay_2, now_2);
    lemma_schedule_keeps_wf(state, delay_1, now_1);
    lemma_schedule_keeps_wf(once, delay_2, now_2);
    lemma_schedule_adds(state, delay_1, now_1);
    lemma_schedule_adds(once, delay_2, now_2);
    assert(twice.times.contains(first));
    if first.fires_before(second) {
        lemma_due_first_pops_first(twice, first, second);
    } else {
        lemma_due_first_pops_first(twice, second, first);
    }
}

/// Clearing a timer takes its id out of the pending ids and leaves the
/// timers and the other ids alone. Clearing an id that is not pending
/// changes nothing at all.
pub proof fn lemma_cancel(state: TimeoutStateView, id: u32)
    ensures
        !state.cancel(id).pending_ids.contains(id),
        forall|other: u32|
            other != id ==> (state.cancel(id).pending_ids.contains(other)
                <==> state.pending_ids.contains(other)),
        state.cancel(id).times == state.times,
        state.cancel(id).next_id == state.next_id,
        state.wf() ==> state.cancel(id).wf(),
        !state.pending_ids.contains(id) ==> state.cancel(id) == state,
{
    if !state.pending_ids.contains(id) {
        assert(state.pending_ids.remove(id) =~= state.pending_ids);
    }
}

} // verus!
