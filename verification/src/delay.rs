//! Delaying moves events into the future by a fixed span of time.

use vstd::prelude::*;
use crate::event::{push_all, Event};
use crate::key::{any_matches, keys_match, Key};
use crate::loopback::{defer_instant, next_serial, Duration, Instant, LoopbackHandle, Token, Wakeup};
use crate::seq_util::{lemma_filter_empty, lemma_filter_take_step};

verus! {

/// An event that waits for the wake-up named by `token`.
#[derive(PartialEq, Eq, Structural, Clone, Copy, Debug)]
pub struct Delayed {
    pub token: Token,
    pub event: Event,
}

/// Events that a key matches are kept for `period` and then sent on; every
/// other event passes at once. Where nothing can be scheduled (the period
/// is zero, or the clock would run out before the events are due) the
/// matching events pass at once too.
pub struct Delay {
    keys: Vec<Key>,
    period: Duration,
    queue: Vec<Delayed>,
    next_serial: u64,
}

pub struct DelayView {
    pub keys: Seq<Key>,
    pub period: Duration,
    /// The waiting events, in the order in which they came.
    pub queue: Seq<Delayed>,
    pub next_serial: u64,
}

impl View for Delay {
    type V = DelayView;

    closed spec fn view(&self) -> DelayView {
        DelayView { keys: self.keys@, period: self.period, queue: self.queue@, next_serial: self.next_serial }
    }
}

pub struct DelayStep {
    pub entry: DelayView,
    pub out: Seq<Event>,
    pub scheduled: Seq<Wakeup>,
}

impl DelayView {
    /// The events of `events` that are to wait.
    pub open spec fn held(self, events: Seq<Event>) -> Seq<Event> {
        events.filter(|e: Event| any_matches(self.keys, e))
    }

    /// The events of `events` that pass at once.
    pub open spec fn passed(self, events: Seq<Event>) -> Seq<Event> {
        events.filter(|e: Event| !any_matches(self.keys, e))
    }

    /// The matching events of one batch wait together for one wake-up,
    /// `period` after `now`.
    pub open spec fn apply_to_all(self, index: usize, events: Seq<Event>, now: Instant, scheduled: Seq<Wakeup>)
        -> DelayStep {
        let token = Token { owner: index, serial: self.next_serial };
        match defer_instant(now, self.period) {
            Some(instant) => if self.held(events).len() > 0 {
                DelayStep {
                    entry: DelayView {
                        queue: self.queue + self.held(events).map_values(
                            |e: Event| Delayed { token, event: e },
                        ),
                        next_serial: next_serial(self.next_serial),
                        ..self
                    },
                    out: self.passed(events),
                    scheduled: scheduled.push(Wakeup { instant, token }),
                }
            } else {
                DelayStep { entry: self, out: self.passed(events), scheduled }
            },
            None => DelayStep { entry: self, out: events, scheduled },
        }
    }

    /// The events that wait for `token`, in the order in which they came.
    pub open spec fn due(self, token: Token) -> Seq<Event> {
        self.queue.filter(|d: Delayed| d.token == token).map_values(|d: Delayed| d.event)
    }

    /// The delay once the events that wait for `token` have left.
    pub open spec fn after_wakeup(self, token: Token) -> DelayView {
        DelayView { queue: self.queue.filter(|d: Delayed| d.token != token), ..self }
    }
}

impl Delay {
    pub fn new(keys: Vec<Key>, period: Duration) -> (delay: Delay)
        ensures
            delay@ == (DelayView { keys: keys@, period, queue: Seq::empty(), next_serial: 0 }),
    {
        Delay { keys, period, queue: Vec::new(), next_serial: 0 }
    }

    /// How many events wait.
    pub fn waiting(&self) -> (n: usize)
        ensures
            n == self@.queue.len(),
    {
        self.queue.len()
    }

    pub fn apply_to_all(
        &mut self,
        events: &Vec<Event>,
        out: &mut Vec<Event>,
        loopback: &mut LoopbackHandle,
        index: usize,
    )
        ensures
            final(self)@ == old(self)@.apply_to_all(
                index,
                events@,
                old(loopback)@.now,
                old(loopback)@.scheduled,
            ).entry,
            final(out)@ == old(out)@ + old(self)@.apply_to_all(
                index,
                events@,
                old(loopback)@.now,
                old(loopback)@.scheduled,
            ).out,
            final(loopback)@.now == old(loopback)@.now,
            final(loopback)@.scheduled == old(self)@.apply_to_all(
                index,
                events@,
                old(loopback)@.now,
                old(loopback)@.scheduled,
            ).scheduled,
    {
        if !loopback.can_defer(self.period) {
            push_all(out, events);
            return ;
        }
        let token = Token { owner: index, serial: self.next_serial };
        let ghost wanted = |e: Event| any_matches(self@.keys, e);
        let ghost unwanted = |e: Event| !any_matches(self@.keys, e);
        let ghost wrap = |e: Event| Delayed { token, event: e };
        let mut any: bool = false;
        let mut i: usize = 0;
        proof {
            lemma_filter_empty(wanted);
            lemma_filter_empty(unwanted);
            assert(events@.take(0) =~= Seq::<Event>::empty());
            assert(old(self)@.queue + Seq::<Event>::empty().map_values(wrap) =~= old(self)@.queue);
            assert(old(out)@ + Seq::<Event>::empty() =~= old(out)@);
        }
        while i < events.len()
            invariant
                i <= events.len(),
                wanted == (|e: Event| any_matches(old(self)@.keys, e)),
                unwanted == (|e: Event| !any_matches(old(self)@.keys, e)),
                wrap == (|e: Event| Delayed { token, event: e }),
                self@.keys == old(self)@.keys,
                self@.period == old(self)@.period,
                self@.next_serial == old(self)@.next_serial,
                self@.queue == old(self)@.queue + events@.take(i as int).filter(wanted).map_values(wrap),
                out@ == old(out)@ + events@.take(i as int).filter(unwanted),
                any == (events@.take(i as int).filter(wanted).len() > 0),
                *loopback == *old(loopback),
            decreases events.len() - i,
        {
            proof {
                lemma_filter_take_step(events@, wanted, i as int);
                lemma_filter_take_step(events@, unwanted, i as int);
            }
            if keys_match(&self.keys, &events[i]) {
                self.queue.push(Delayed { token, event: events[i] });
                any = true;
                assert(self@.queue =~= old(self)@.queue + events@.take(i + 1).filter(wanted).map_values(wrap));
            } else {
                out.push(events[i]);
            }
            i += 1;
        }
        assert(events@.take(events@.len() as int) =~= events@);
        if any {
            loopback.schedule(self.period, token);
            self.next_serial = next_serial(self.next_serial);
        }
    }

    /// Sends on the events that wait for `token`. A token that the delay
    /// did not schedule finds nothing waiting.
    pub fn wakeup(&mut self, token: &Token, out: &mut Vec<Event>)
        ensures
            final(self)@ == old(self)@.after_wakeup(*token),
            final(out)@ == old(out)@ + old(self)@.due(*token),
    {
        let ghost mine = |d: Delayed| d.token == *token;
        let ghost others = |d: Delayed| d.token != *token;
        let ghost event_of = |d: Delayed| d.event;
        let mut rest: Vec<Delayed> = Vec::new();
        let mut i: usize = 0;
        proof {
            lemma_filter_empty(mine);
            lemma_filter_empty(others);
            assert(self@.queue.take(0) =~= Seq::<Delayed>::empty());
            assert(old(out)@ + Seq::<Delayed>::empty().map_values(event_of) =~= old(out)@);
        }
        while i < self.queue.len()
            invariant
                i <= self.queue.len(),
                *self == *old(self),
                mine == (|d: Delayed| d.token == *token),
                others == (|d: Delayed| d.token != *token),
                event_of == (|d: Delayed| d.event),
                rest@ == self@.queue.take(i as int).filter(others),
                out@ == old(out)@ + self@.queue.take(i as int).filter(mine).map_values(event_of),
            decreases self.queue.len() - i,
        {
            proof {
                lemma_filter_take_step(self@.queue, mine, i as int);
                lemma_filter_take_step(self@.queue, others, i as int);
            }
            let delayed = self.queue[i];
            if delayed.token == *token {
                out.push(delayed.event);
                assert(out@ =~= old(out)@ + self@.queue.take(i + 1).filter(mine).map_values(event_of));
            } else {
                rest.push(delayed);
            }
            i += 1;
        }
        assert(self@.queue.take(self@.queue.len() as int) =~= self@.queue);
        self.queue = rest;
    }
}

/// A delay schedules for later only.
pub proof fn lemma_delay_apply_to_all(delay: DelayView, index: usize, events: Seq<Event>, now: Instant, scheduled: Seq<Wakeup>)
    ensures
        ({
            let step = delay.apply_to_all(index, events, now, scheduled);
            &&& step.entry.keys == delay.keys
            &&& step.entry.period == delay.period
            &&& crate::state::later_wakeups(scheduled, step.scheduled, now)
        }),
{
    crate::state::lemma_later_wakeups_refl(scheduled, now);
    match defer_instant(now, delay.period) {
        Some(instant) => {
            crate::state::lemma_later_wakeups_push(
                scheduled,
                Wakeup { instant, token: Token { owner: index, serial: delay.next_serial } },
                now,
            );
        },
        None => {},
    }
}

/// A delay takes no notice of a wake-up for which none of its events
/// waits: it sends nothing on and keeps what it holds.
pub proof fn lemma_foreign_token_is_ignored(delay: DelayView, token: Token)
    requires
        forall|i: int| 0 <= i < delay.queue.len() ==> (#[trigger] delay.queue[i]).token != token,
    ensures
        delay.due(token) == Seq::<Event>::empty(),
        delay.after_wakeup(token) == delay,
{
    crate::seq_util::lemma_filter_none(delay.queue, |d: Delayed| d.token == token);
    crate::seq_util::lemma_filter_all(delay.queue, |d: Delayed| d.token != token);
    assert(Seq::<Delayed>::empty().map_values(|d: Delayed| d.event) =~= Seq::<Event>::empty());
}

/// Events in the output namespace pass a delay at once.
pub proof fn lemma_delay_passes_output(delay: DelayView, index: usize, events: Seq<Event>, now: Instant, scheduled: Seq<Wakeup>)
    requires
        crate::event::all_output(events),
    ensures
        delay.apply_to_all(index, events, now, scheduled) == (DelayStep { entry: delay, out: events, scheduled }),
{
    crate::seq_util::lemma_filter_none(events, |e: Event| any_matches(delay.keys, e));
    crate::seq_util::lemma_filter_all(events, |e: Event| !any_matches(delay.keys, e));
}

} // verus!
