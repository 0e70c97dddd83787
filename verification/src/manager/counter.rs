//! Counting work toward a target, with guards that settle what they count, and the decisions of
//! a wait on a counter.
//!
//! A counter is shared under a lock: the thread that holds it changes the counter, and wakes the
//! waiters where the operation says so.
use vstd::prelude::*;

verus! {

/// After this long a wait gives up and cancels the job.
pub const WAIT_TIMEOUT_SECONDS: u64 = 600;

/// A wait without progress is reported this often.
pub const WAIT_STATUS_INTERVAL_SECONDS: u64 = 60;

/// Nanoseconds in a second.
pub const NANOS: u64 = 1_000_000_000;

/// How a wait is going: when it began, when it was last reported or moved, and what it last saw.
/// Times are nanoseconds on one clock.
#[derive(Clone, Copy, PartialEq, Eq, Structural, Debug)]
pub struct WaitTimeoutTracker {
    pub start_time: u64,
    pub last_status_print: u64,
    pub last_seen_value: Option<usize>,
}

/// What a check of a wait decided.
#[derive(Clone, Copy, PartialEq, Eq, Structural, Debug)]
pub struct WaitCheck {
    /// Report that the wait goes on.
    pub report: bool,
    /// Give up: cancel the job.
    pub timed_out: bool,
}

/// The time since `t` in whole seconds is at least `secs`.
pub open spec fn passed(now: u64, t: u64, secs: u64) -> bool {
    now - t >= secs * 1_000_000_000
}

/// The tracker after it has seen `current`.
pub open spec fn seen(t: WaitTimeoutTracker, current: usize, now: u64) -> WaitTimeoutTracker {
    if t.last_seen_value == Some(current) {
        t
    } else {
        WaitTimeoutTracker { last_status_print: now, last_seen_value: Some(current), ..t }
    }
}

/// A wait is reported where it has lasted, and not moved or been reported, for the interval.
pub open spec fn reports(t: WaitTimeoutTracker, now: u64) -> bool {
    passed(now, t.start_time, WAIT_STATUS_INTERVAL_SECONDS) && passed(
        now,
        t.last_status_print,
        WAIT_STATUS_INTERVAL_SECONDS,
    )
}

impl WaitTimeoutTracker {
    /// A wait that begins now.
    pub fn new(now: u64) -> (r: Self)
        ensures
            r.start_time == now,
            r.last_status_print == now,
            r.last_seen_value is None,
    {
        WaitTimeoutTracker { start_time: now, last_status_print: now, last_seen_value: None }
    }

    /// Note what the wait sees now; decide whether to report it and whether to give up.
    pub fn check_and_log(&mut self, current: usize, now: u64) -> (r: WaitCheck)
        requires
            old(self).start_time <= now,
            old(self).last_status_print <= now,
        ensures
            r.timed_out == passed(now, old(self).start_time, WAIT_TIMEOUT_SECONDS),
            r.report == reports(seen(*old(self), current, now), now),
            final(self).start_time == old(self).start_time,
            final(self).last_seen_value == Some(current),
            final(self).last_status_print == if r.report || old(self).last_seen_value != Some(
                current,
            ) {
                now
            } else {
                old(self).last_status_print
            },
    {
        let moved: bool = match self.last_seen_value {
            Some(v) => v != current,
            None => true,
        };
        if moved {
            self.last_status_print = now;
            self.last_seen_value = Some(current);
        }
        let elapsed: u64 = now - self.start_time;
        let report: bool = elapsed >= WAIT_STATUS_INTERVAL_SECONDS * NANOS && now
            - self.last_status_print >= WAIT_STATUS_INTERVAL_SECONDS * NANOS;
        if report {
            self.last_status_print = now;
        }
        WaitCheck { report, timed_out: elapsed >= WAIT_TIMEOUT_SECONDS * NANOS }
    }
}

/// What to do next in a wait.
#[derive(Clone, Copy, PartialEq, Eq, Structural, Debug)]
pub enum WaitStep {
    /// Stop waiting: the target is reached, or the job was cancelled.
    Stop,
    /// Stop waiting and cancel the job, after reporting the wait where asked to.
    Cancel { report: bool },
    /// Wait this many microseconds and look again, after pumping the streams where asked to.
    Again { report: bool, pump: bool, micros: u64 },
}

/// A count of work, with a threshold at which waiters are woken.
#[derive(Debug)]
pub struct Counter {
    counter: usize,
    threshold: usize,
}

impl Default for Counter {
    fn default() -> (r: Self)
        ensures
            r.count() == 0,
            r.limit() == 0,
    {
        Counter { counter: 0, threshold: 0 }
    }
}

/// The next step of a wait that ends once `reached`.
pub open spec fn next_wait(
    t: WaitTimeoutTracker,
    reached: bool,
    cancelled: bool,
    current: usize,
    now: u64,
    pump: bool,
    micros: u64,
) -> WaitStep {
    if cancelled || reached {
        WaitStep::Stop
    } else if passed(now, t.start_time, WAIT_TIMEOUT_SECONDS) {
        WaitStep::Cancel { report: reports(seen(t, current, now), now) }
    } else {
        WaitStep::Again { report: reports(seen(t, current, now), now), pump, micros }
    }
}

/// The tracker after that step.
pub open spec fn next_tracker(
    t: WaitTimeoutTracker,
    reached: bool,
    cancelled: bool,
    current: usize,
    now: u64,
) -> WaitTimeoutTracker {
    if cancelled || reached {
        t
    } else {
        let s = seen(t, current, now);
        if reports(s, now) {
            WaitTimeoutTracker { last_status_print: now, ..s }
        } else {
            s
        }
    }
}

fn wait_step(
    tracker: &mut WaitTimeoutTracker,
    reached: bool,
    cancelled: bool,
    current: usize,
    now: u64,
    pump: bool,
    micros: u64,
) -> (r: WaitStep)
    requires
        old(tracker).start_time <= now,
        old(tracker).last_status_print <= now,
    ensures
        r == next_wait(*old(tracker), reached, cancelled, current, now, pump, micros),
        *final(tracker) == next_tracker(*old(tracker), reached, cancelled, current, now),
{
    if cancelled || reached {
        return WaitStep::Stop;
    }
    let c: WaitCheck = tracker.check_and_log(current, now);
    if c.timed_out {
        WaitStep::Cancel { report: c.report }
    } else {
        WaitStep::Again { report: c.report, pump, micros }
    }
}

/// The count after an increment, which is also what the increment returns.
pub open spec fn counted_up(count: nat) -> nat {
    count + 1
}

/// The count after increments that threads make in some order.
pub open spec fn count_after(count: nat, order: Seq<nat>) -> nat
    decreases order.len(),
{
    if order.len() == 0 {
        count
    } else {
        counted_up(count_after(count, order.drop_last()))
    }
}

/// What the increments return, each with the thread that made it.
pub open spec fn returned(count: nat, order: Seq<nat>) -> Seq<(nat, nat)>
    decreases order.len(),
{
    if order.len() == 0 {
        Seq::empty()
    } else {
        let before = order.drop_last();
        returned(count, before).push((order.last(), counted_up(count_after(count, before))))
    }
}

/// Some increment from zero returns `v`.
pub open spec fn is_returned(order: Seq<nat>, v: nat) -> bool {
    exists|k: int| 0 <= k < order.len() && (#[trigger] returned(0, order)[k]).1 == v
}

impl Counter {
    /// The count.
    pub closed spec fn count(&self) -> nat {
        self.counter as nat
    }

    /// The threshold.
    pub closed spec fn limit(&self) -> nat {
        self.threshold as nat
    }

    /// A counter at zero without a threshold.
    pub fn new() -> (r: Self)
        ensures
            r.count() == 0,
            r.limit() == 0,
    {
        Counter { counter: 0, threshold: 0 }
    }

    /// A counter at zero with a threshold.
    pub fn new_with_threshold(threshold: usize) -> (r: Self)
        ensures
            r.count() == 0,
            r.limit() == threshold,
    {
        Counter { counter: 0, threshold }
    }

    /// Count one up; returns the new count.
    pub fn increment(&mut self) -> (r: usize)
        requires
            old(self).count() < usize::MAX,
        ensures
            r == counted_up(old(self).count()),
            final(self).count() == counted_up(old(self).count()),
            final(self).limit() == old(self).limit(),
    {
        self.counter = self.counter + 1;
        self.counter
    }

    /// Whether waiters are to be woken after an increment that returned `new_val`.
    pub fn wakes_after_increment(&self, new_val: usize) -> (r: bool)
        ensures
            r == (new_val >= self.limit()),
    {
        new_val >= self.threshold
    }

    /// Count one down; returns the new count. Waiters are to be woken where it is zero.
    pub fn decrement(&mut self) -> (r: usize)
        requires
            old(self).count() > 0,
        ensures
            r == old(self).count() - 1,
            final(self).count() == old(self).count() - 1,
            final(self).limit() == old(self).limit(),
    {
        self.counter = self.counter - 1;
        self.counter
    }

    /// Back to zero.
    pub fn reset(&mut self)
        ensures
            final(self).count() == 0,
            final(self).limit() == old(self).limit(),
    {
        self.counter = 0;
    }

    /// The count.
    pub fn get_count(&self) -> (r: usize)
        ensures
            r == self.count(),
    {
        self.counter
    }

    /// The next step of a wait for the threshold.
    pub fn wait_until_threshold(
        &self,
        tracker: &mut WaitTimeoutTracker,
        cancelled: bool,
        now: u64,
    ) -> (r: WaitStep)
        requires
            old(tracker).start_time <= now,
            old(tracker).last_status_print <= now,
        ensures
            r == next_wait(
                *old(tracker),
                self.count() >= self.limit(),
                cancelled,
                self.count() as usize,
                now,
                false,
                1000,
            ),
            *final(tracker) == next_tracker(
                *old(tracker),
                self.count() >= self.limit(),
                cancelled,
                self.count() as usize,
                now,
            ),
    {
        wait_step(
            tracker,
            self.counter >= self.threshold,
            cancelled,
            self.counter,
            now,
            false,
            1000,
        )
    }

    /// The next step of a wait for the threshold that pumps the streams.
    pub fn wait_until_threshold_and_check_streams(
        &self,
        tracker: &mut WaitTimeoutTracker,
        cancelled: bool,
        now: u64,
    ) -> (r: WaitStep)
        requires
            old(tracker).start_time <= now,
            old(tracker).last_status_print <= now,
        ensures
            r == next_wait(
                *old(tracker),
                self.count() >= self.limit(),
                cancelled,
                self.count() as usize,
                now,
                true,
                100,
            ),
            *final(tracker) == next_tracker(
                *old(tracker),
                self.count() >= self.limit(),
                cancelled,
                self.count() as usize,
                now,
            ),
    {
        wait_step(
            tracker,
            self.counter >= self.threshold,
            cancelled,
            self.counter,
            now,
            true,
            100,
        )
    }

    /// The next step of a wait for a value that pumps the streams.
    pub fn wait_until_value_and_check_streams(
        &self,
        value: usize,
        tracker: &mut WaitTimeoutTracker,
        cancelled: bool,
        now: u64,
    ) -> (r: WaitStep)
        requires
            old(tracker).start_time <= now,
            old(tracker).last_status_print <= now,
        ensures
            r == next_wait(
                *old(tracker),
                self.count() >= value,
                cancelled,
                self.count() as usize,
                now,
                true,
                100,
            ),
            *final(tracker) == next_tracker(
                *old(tracker),
                self.count() >= value,
                cancelled,
                self.count() as usize,
                now,
            ),
    {
        wait_step(tracker, self.counter >= value, cancelled, self.counter, now, true, 100)
    }

    /// The next step of a wait for zero.
    pub fn wait_until_zero(&self, tracker: &mut WaitTimeoutTracker, cancelled: bool, now: u64) -> (r:
        WaitStep)
        requires
            old(tracker).start_time <= now,
            old(tracker).last_status_print <= now,
        ensures
            r == next_wait(
                *old(tracker),
                self.count() == 0,
                cancelled,
                self.count() as usize,
                now,
                false,
                1000,
            ),
            *final(tracker) == next_tracker(
                *old(tracker),
                self.count() == 0,
                cancelled,
                self.count() as usize,
                now,
            ),
    {
        wait_step(tracker, self.counter == 0, cancelled, self.counter, now, false, 1000)
    }

    /// The next step of a wait for zero that pumps the streams.
    pub fn wait_until_zero_and_check_streams(
        &self,
        tracker: &mut WaitTimeoutTracker,
        cancelled: bool,
        now: u64,
    ) -> (r: WaitStep)
        requires
            old(tracker).start_time <= now,
            old(tracker).last_status_print <= now,
        ensures
            r == next_wait(
                *old(tracker),
                self.count() == 0,
                cancelled,
                self.count() as usize,
                now,
                true,
                100,
            ),
            *final(tracker) == next_tracker(
                *old(tracker),
                self.count() == 0,
                cancelled,
                self.count() as usize,
                now,
            ),
    {
        wait_step(tracker, self.counter == 0, cancelled, self.counter, now, true, 100)
    }

    /// Count one unit up, and return the guard that owes its decrement.
    pub fn pending(&mut self) -> (r: PendingProof)
        requires
            old(self).count() < usize::MAX,
        ensures
            final(self).count() == old(self).count() + 1,
            final(self).limit() == old(self).limit(),
            r.is_armed(),
    {
        let _n: usize = self.increment();
        PendingProof::from_outstanding(self)
    }
}

/// The count once a guard is given up: one less where it owes that.
pub open spec fn released(count: int, armed: bool) -> int {
    if armed {
        count - 1
    } else {
        count
    }
}

/// A guard for one unit of work in flight. Releasing it counts the unit down, unless the work was
/// handed on and its completion owes the decrement instead.
#[derive(Debug)]
#[must_use]
pub struct PendingProof {
    armed: bool,
}

impl PendingProof {
    /// The guard owes a decrement.
    pub closed spec fn is_armed(&self) -> bool {
        self.armed
    }

    /// Take over a unit that is already counted.
    pub fn from_outstanding(counter: &Counter) -> (r: PendingProof)
        ensures
            r.is_armed(),
    {
        PendingProof { armed: true }
    }

    /// The work was handed on: its completion owes the decrement.
    pub fn commit(&mut self)
        ensures
            !final(self).is_armed(),
    {
        self.armed = false;
    }

    /// Give the guard up, counting its unit down where the guard owes that.
    pub fn release(self, counter: &mut Counter)
        requires
            self.is_armed() ==> old(counter).count() > 0,
        ensures
            final(counter).count() == released(old(counter).count() as int, self.is_armed()),
            final(counter).limit() == old(counter).limit(),
    {
        if self.armed {
            let _n: usize = counter.decrement();
        }
    }
}

proof fn lemma_returned(count: nat, order: Seq<nat>)
    ensures
        count_after(count, order) == count + order.len(),
        returned(count, order).len() == order.len(),
        forall|k: int|
            0 <= k < order.len() ==> #[trigger] returned(count, order)[k] == (
                order[k],
                (count + k + 1) as nat,
            ),
    decreases order.len(),
{
    if order.len() > 0 {
        lemma_returned(count, order.drop_last());
    }
}

/// No increment is lost, in whichever order threads make theirs: from zero, `n` increments leave
/// the count at `n`, each thread gets an answer to each of its increments, and the answers are the
/// numbers from 1 to `n`, each of them once.
pub proof fn law_increments_are_not_lost(order: Seq<nat>)
    ensures
        count_after(0, order) == order.len(),
        returned(0, order).len() == order.len(),
        forall|k: int| 0 <= k < order.len() ==> (#[trigger] returned(0, order)[k]).0 == order[k],
        forall|k: int|
            0 <= k < order.len() ==> 1 <= (#[trigger] returned(0, order)[k]).1 <= order.len(),
        forall|v: nat| 1 <= v <= order.len() ==> #[trigger] is_returned(order, v),
        forall|j: int, k: int|
            0 <= j < k < order.len() ==> (#[trigger] returned(0, order)[j]).1 != (
            #[trigger] returned(0, order)[k]).1,
{
    lemma_returned(0, order);
    assert forall|v: nat| 1 <= v <= order.len() implies #[trigger] is_returned(order, v) by {
        assert(returned(0, order)[v - 1].1 == v);
    }
}

/// A unit is counted down exactly once, whether its guard does that or, after it was handed on,
/// its completion: either way the count is as it was before the unit was counted.
pub proof fn law_guards_balance(count: nat, handed_on: bool)
    ensures
        ({
            let left = released((count + 1) as int, !handed_on);
            (if handed_on {
                left - 1
            } else {
                left
            }) == count
        }),
{
}

/// A wait ends: once the timeout has passed it does not go on.
pub proof fn law_waits_end(
    t: WaitTimeoutTracker,
    reached: bool,
    cancelled: bool,
    current: usize,
    now: u64,
    pump: bool,
    micros: u64,
)
    requires
        now >= t.start_time + WAIT_TIMEOUT_SECONDS * 1_000_000_000,
    ensures
        !(next_wait(t, reached, cancelled, current, now, pump, micros) is Again),
{
}

/// A wait is not reported twice within the interval.
pub proof fn law_reports_are_spaced(
    t: WaitTimeoutTracker,
    current: usize,
    now: u64,
    later: u64,
    next: usize,
)
    requires
        reports(seen(t, current, now), now),
        now <= later < now + WAIT_STATUS_INTERVAL_SECONDS * 1_000_000_000,
    ensures
        !reports(seen(next_tracker(t, false, false, current, now), next, later), later),
{
}

} // verus!
