//! The loopback timer: stream entries ask to be woken later, and the
//! dispatch loop learns how long it may sleep.
//!
//! Time is a count of microseconds on a monotonic clock that the caller
//! reads; the loopback never looks at a clock itself.

use vstd::prelude::*;
use crate::seq_util::{lemma_filter_add, lemma_filter_none, lemma_filter_push};

verus! {

/// A point in time, in microseconds on the caller's monotonic clock.
pub type Instant = u64;

/// A span of time in microseconds.
pub type Duration = u64;

/// Names a wake-up. The loopback does not look inside; `owner` is the
/// position in the stream of the entry that asked, so that every other entry
/// can tell that the wake-up is not meant for it.
#[derive(PartialEq, Eq, Structural, Clone, Copy, Debug)]
pub struct Token {
    pub owner: usize,
    pub serial: u64,
}

#[derive(PartialEq, Eq, Structural, Clone, Copy, Debug)]
pub struct Wakeup {
    pub instant: Instant,
    pub token: Token,
}

/// How long the dispatch loop may wait for input.
#[derive(PartialEq, Eq, Structural, Clone, Copy, Debug)]
pub enum Delay {
    /// No wake-up is scheduled.
    Never,
    /// The next wake-up is due after this long; zero when it is overdue.
    At(Duration),
}

/// The instant at which a wake-up asked for at `now` fires. A wake-up cannot
/// be scheduled when no time is to pass, nor beyond the end of the clock.
pub open spec fn defer_instant(now: Instant, delay: Duration) -> Option<Instant> {
    if delay > 0 && now + delay <= u64::MAX {
        Some((now + delay) as u64)
    } else {
        None
    }
}

/// The serial number that follows `serial`.
pub open spec fn next_serial_spec(serial: u64) -> u64 {
    if serial == u64::MAX {
        0
    } else {
        (serial + 1) as u64
    }
}

#[verifier::when_used_as_spec(next_serial_spec)]
pub fn next_serial(serial: u64) -> (r: u64)
    ensures
        r == next_serial_spec(serial),
{
    if serial == u64::MAX {
        0
    } else {
        serial + 1
    }
}

/// `i` is the wake-up that fires first: none is earlier, and of those at the
/// same instant it was scheduled first.
pub open spec fn is_earliest(schedule: Seq<Wakeup>, i: int) -> bool {
    &&& 0 <= i < schedule.len()
    &&& forall|j: int|
        0 <= j < schedule.len() ==> schedule[i].instant <= (#[trigger] schedule[j]).instant && (j < i
            ==> schedule[i].instant < schedule[j].instant)
}

pub open spec fn earliest(schedule: Seq<Wakeup>) -> int {
    choose|i: int| is_earliest(schedule, i)
}

/// The wake-up that is to fire now, if one is due.
pub open spec fn next_due(schedule: Seq<Wakeup>, clock: Instant) -> Option<int> {
    if schedule.len() > 0 && schedule[earliest(schedule)].instant <= clock {
        Some(earliest(schedule))
    } else {
        None
    }
}

pub open spec fn time_until(schedule: Seq<Wakeup>, clock: Instant) -> Delay {
    if schedule.len() == 0 {
        Delay::Never
    } else if schedule[earliest(schedule)].instant <= clock {
        Delay::At(0)
    } else {
        Delay::At((schedule[earliest(schedule)].instant - clock) as u64)
    }
}

/// At most one wake-up is the earliest.
pub proof fn lemma_earliest_unique(schedule: Seq<Wakeup>, i: int, k: int)
    requires
        is_earliest(schedule, i),
        is_earliest(schedule, k),
    ensures
        i == k,
{
    assert(schedule[i].instant <= schedule[k].instant);
    assert(schedule[k].instant <= schedule[i].instant);
}

/// A schedule that holds something has an earliest wake-up.
pub proof fn lemma_earliest_exists(schedule: Seq<Wakeup>)
    requires
        schedule.len() > 0,
    ensures
        is_earliest(schedule, earliest(schedule)),
    decreases schedule.len(),
{
    if schedule.len() == 1 {
        assert(is_earliest(schedule, 0));
    } else {
        let front = schedule.drop_last();
        lemma_earliest_exists(front);
        let f = earliest(front);
        let last = schedule.len() - 1;
        if schedule[last].instant < front[f].instant {
            assert forall|j: int| 0 <= j < schedule.len() implies schedule[last].instant <= (
            #[trigger] schedule[j]).instant && (j < last ==> schedule[last].instant
                < schedule[j].instant) by {
                if j < last {
                    assert(front[j] == schedule[j]);
                }
            }
            assert(is_earliest(schedule, last));
        } else {
            assert forall|j: int| 0 <= j < schedule.len() implies schedule[f].instant <= (
            #[trigger] schedule[j]).instant && (j < f ==> schedule[f].instant < schedule[j].instant) by {
                if j < last {
                    assert(front[j] == schedule[j]);
                }
            }
            assert(is_earliest(schedule, f));
        }
    }
}

/// How far the clock is past the earliest wake-up, plus one; zero when
/// nothing is due.
pub open spec fn due_span(schedule: Seq<Wakeup>, clock: Instant) -> nat {
    if schedule.len() == 0 || schedule[earliest(schedule)].instant > clock {
        0
    } else {
        (clock - schedule[earliest(schedule)].instant + 1) as nat
    }
}

/// How many wake-ups are scheduled for `instant`.
pub open spec fn count_at(schedule: Seq<Wakeup>, instant: Instant) -> nat {
    schedule.filter(|w: Wakeup| w.instant == instant).len()
}

/// How many wake-ups share the earliest instant.
pub open spec fn count_at_earliest(schedule: Seq<Wakeup>) -> nat {
    if schedule.len() == 0 {
        0
    } else {
        count_at(schedule, schedule[earliest(schedule)].instant)
    }
}

/// Wake-ups fire in order: once the earliest has been taken out, nothing
/// that is left or that is scheduled for later comes before it.
pub proof fn lemma_wakeups_in_order(schedule: Seq<Wakeup>, added: Seq<Wakeup>)
    requires
        schedule.len() > 0,
        forall|k: int| 0 <= k < added.len() ==> (#[trigger] added[k]).instant >= schedule[earliest(
            schedule,
        )].instant,
    ensures
        ({
            let first = earliest(schedule);
            let rest = schedule.remove(first) + added;
            rest.len() > 0 ==> schedule[first].instant <= rest[earliest(rest)].instant
        }),
{
    let first = earliest(schedule);
    let rest = schedule.remove(first) + added;
    lemma_earliest_exists(schedule);
    if rest.len() > 0 {
        lemma_earliest_exists(rest);
        let e = earliest(rest);
        if e < schedule.len() - 1 {
            if e < first {
                assert(rest[e] == schedule[e]);
            } else {
                assert(rest[e] == schedule[e + 1]);
            }
        } else {
            assert(rest[e] == added[e - (schedule.len() - 1)]);
        }
    }
}

/// Taking out the earliest wake-up, and scheduling others for strictly
/// later, brings the schedule closer to having nothing due.
pub proof fn lemma_poll_progress(schedule: Seq<Wakeup>, clock: Instant, added: Seq<Wakeup>)
    requires
        next_due(schedule, clock) is Some,
        forall|k: int| 0 <= k < added.len() ==> (#[trigger] added[k]).instant > schedule[earliest(
            schedule,
        )].instant,
    ensures
        ({
            let rest = schedule.remove(earliest(schedule)) + added;
            due_span(rest, clock) < due_span(schedule, clock) || (due_span(rest, clock) == due_span(
                schedule,
                clock,
            ) && count_at_earliest(rest) < count_at_earliest(schedule))
        }),
{
    let first = earliest(schedule);
    let t = schedule[first].instant;
    let kept = schedule.remove(first);
    let rest = kept + added;
    let at_t = |w: Wakeup| w.instant == t;
    lemma_earliest_exists(schedule);
    assert forall|j: int| 0 <= j < kept.len() implies (#[trigger] kept[j]).instant >= t by {
        if j < first {
            assert(kept[j] == schedule[j]);
        } else {
            assert(kept[j] == schedule[j + 1]);
        }
    }
    assert forall|j: int| 0 <= j < rest.len() implies (#[trigger] rest[j]).instant >= t by {
        if j < kept.len() {
            assert(rest[j] == kept[j]);
        } else {
            assert(rest[j] == added[j - kept.len()]);
        }
    }
    if rest.len() > 0 {
        lemma_earliest_exists(rest);
        let e = earliest(rest);
        if rest[e].instant == t {
            // The span stays; one wake-up fewer is scheduled for `t`.
            let head = schedule.take(first);
            let tail = schedule.skip(first + 1);
            assert(schedule =~= head.push(schedule[first]) + tail);
            assert(kept =~= head + tail);
            lemma_filter_add(head.push(schedule[first]), tail, at_t);
            lemma_filter_push(head, at_t, schedule[first]);
            lemma_filter_add(head, tail, at_t);
            lemma_filter_add(kept, added, at_t);
            lemma_filter_none(added, at_t);
            assert(count_at(rest, t) == count_at(kept, t));
            assert(count_at(schedule, t) == count_at(kept, t) + 1);
        }
    }
}

/// The pending wake-ups and the time as the caller last reported it.
pub struct Loopback {
    schedule: Vec<Wakeup>,
    clock: Instant,
}

pub struct LoopbackView {
    pub schedule: Seq<Wakeup>,
    pub clock: Instant,
}

impl View for Loopback {
    type V = LoopbackView;

    closed spec fn view(&self) -> LoopbackView {
        LoopbackView { schedule: self.schedule@, clock: self.clock }
    }
}

/// Collects the wake-ups that stream entries ask for during one pass, on a
/// clock that stands still for that pass.
pub struct LoopbackHandle {
    now: Instant,
    scheduled: Vec<Wakeup>,
}

pub struct HandleView {
    pub now: Instant,
    pub scheduled: Seq<Wakeup>,
}

impl View for LoopbackHandle {
    type V = HandleView;

    closed spec fn view(&self) -> HandleView {
        HandleView { now: self.now, scheduled: self.scheduled@ }
    }
}

impl LoopbackHandle {
    /// The time of this pass.
    pub fn now(&self) -> (r: Instant)
        ensures
            r == self@.now,
    {
        self.now
    }

    /// Whether a wake-up after `delay` can be scheduled.
    pub fn can_defer(&self, delay: Duration) -> (r: bool)
        ensures
            r == defer_instant(self@.now, delay) is Some,
    {
        delay != 0 && delay <= u64::MAX - self.now
    }

    /// The wake-ups asked for so far.
    pub fn scheduled(&self) -> (r: &Vec<Wakeup>)
        ensures
            r@ == self@.scheduled,
    {
        &self.scheduled
    }

    /// Asks for a wake-up with `token` once `delay` has passed. Says whether
    /// the wake-up was scheduled; when it was not, the caller must act now.
    pub fn schedule(&mut self, delay: Duration, token: Token) -> (scheduled: bool)
        ensures
            final(self)@.now == old(self)@.now,
            match defer_instant(old(self)@.now, delay) {
                Some(instant) => scheduled && final(self)@.scheduled == old(self)@.scheduled.push(
                    Wakeup { instant, token },
                ),
                None => !scheduled && final(self)@.scheduled == old(self)@.scheduled,
            },
    {
        if delay == 0 || delay > u64::MAX - self.now {
            return false;
        }
        let instant: Instant = self.now + delay;
        self.scheduled.push(Wakeup { instant, token });
        true
    }
}

impl Loopback {
    pub fn new() -> (r: Loopback)
        ensures
            r@.schedule == Seq::<Wakeup>::empty(),
            r@.clock == 0,
    {
        Loopback { schedule: Vec::new(), clock: 0 }
    }

    pub fn clock(&self) -> (r: Instant)
        ensures
            r == self@.clock,
    {
        self.clock
    }

    /// Reports the time. The clock never runs backwards: an earlier time
    /// than the last one is ignored.
    pub fn advance_clock(&mut self, now: Instant)
        ensures
            final(self)@.schedule == old(self)@.schedule,
            final(self)@.clock == if now > old(self)@.clock { now } else { old(self)@.clock },
    {
        if now > self.clock {
            self.clock = now;
        }
    }

    /// A handle for a pass that begins at the time last reported.
    pub fn get_handle_lazy(&self) -> (handle: LoopbackHandle)
        ensures
            handle@ == (HandleView { now: self@.clock, scheduled: Seq::empty() }),
    {
        LoopbackHandle { now: self.clock, scheduled: Vec::new() }
    }

    /// A handle whose clock stands at `instant`, for the pass that a wake-up
    /// at that instant sets off.
    pub fn get_handle(&self, instant: Instant) -> (handle: LoopbackHandle)
        ensures
            handle@ == (HandleView { now: instant, scheduled: Seq::empty() }),
    {
        LoopbackHandle { now: instant, scheduled: Vec::new() }
    }

    /// Takes over the wake-ups that were asked for through `handle`.
    pub fn commit(&mut self, handle: LoopbackHandle)
        ensures
            final(self)@.clock == old(self)@.clock,
            final(self)@.schedule == old(self)@.schedule + handle@.scheduled,
    {
        let mut handle = handle;
        self.schedule.append(&mut handle.scheduled);
    }

    fn earliest_index(&self) -> (best: usize)
        requires
            self@.schedule.len() > 0,
        ensures
            is_earliest(self@.schedule, best as int),
            best as int == earliest(self@.schedule),
    {
        let mut best: usize = 0;
        let mut i: usize = 1;
        while i < self.schedule.len()
            invariant
                0 <= best < i <= self.schedule.len(),
                forall|j: int|
                    0 <= j < i ==> self.schedule@[best as int].instant <= (
                    #[trigger] self.schedule@[j]).instant && (j < best
                        ==> self.schedule@[best as int].instant < self.schedule@[j].instant),
            decreases self.schedule.len() - i,
        {
            if self.schedule[i].instant < self.schedule[best].instant {
                best = i;
            }
            i += 1;
        }
        proof {
            lemma_earliest_exists(self.schedule@);
            lemma_earliest_unique(self.schedule@, best as int, earliest(self.schedule@));
        }
        best
    }

    /// Takes out the wake-up that is to fire next, if its instant has come.
    pub fn poll_once(&mut self) -> (fired: Option<(Instant, Token)>)
        ensures
            final(self)@.clock == old(self)@.clock,
            match next_due(old(self)@.schedule, old(self)@.clock) {
                Some(i) => fired == Some((old(self)@.schedule[i].instant, old(self)@.schedule[i].token))
                    && final(self)@.schedule == old(self)@.schedule.remove(i) && old(
                    self,
                )@.schedule[i].instant <= old(self)@.clock && is_earliest(old(self)@.schedule, i),
                None => fired is None && final(self)@.schedule == old(self)@.schedule,
            },
    {
        if self.schedule.len() == 0 {
            return None;
        }
        let best = self.earliest_index();
        if self.schedule[best].instant > self.clock {
            return None;
        }
        let wakeup = self.schedule.remove(best);
        Some((wakeup.instant, wakeup.token))
    }

    /// How long the dispatch loop may wait before it must call for wake-ups.
    pub fn time_until_next_wakeup(&self) -> (delay: Delay)
        ensures
            delay == time_until(self@.schedule, self@.clock),
    {
        if self.schedule.len() == 0 {
            return Delay::Never;
        }
        let best = self.earliest_index();
        if self.schedule[best].instant <= self.clock {
            Delay::At(0)
        } else {
            Delay::At(self.schedule[best].instant - self.clock)
        }
    }
}

} // verus!
