//! Withholding keeps back the events of a chord until it is known whether
//! the chord comes about.

use vstd::prelude::*;
use crate::event::Event;
use crate::hook::{all_held, check_all_held, check_none_held, held_after, none_held, track};
use crate::key::{any_matches_channel, keys_match_channel, Key};
use crate::loopback::{defer_instant, next_serial, Duration, Instant, LoopbackHandle, Token, Wakeup};
use crate::seq_util::lemma_fold_left_take_step;

verus! {

/// Where a withhold stands with its chord.
#[derive(PartialEq, Eq, Structural, Clone, Copy, Debug)]
pub enum Phase {
    /// No key of the chord is held.
    Idle,
    /// Some keys are held and their events are kept back.
    Holding,
    /// The chord came about: its events are dropped until every key is
    /// let go.
    Consumed,
    /// The chord did not come about in time: its events pass until every
    /// key is let go.
    Passing,
}

/// Keeps back the events on the channels of its keys from the moment one of
/// the keys is held. If all keys come to be held, what was kept back is
/// dropped, and so is every further event of the chord. If instead all keys
/// are let go, or `timeout` passes, what was kept back is sent on in the
/// order in which it came.
pub struct Withhold {
    keys: Vec<Key>,
    timeout: Duration,
    held: Vec<bool>,
    phase: Phase,
    buffer: Vec<Event>,
    pending: Option<Token>,
    next_serial: u64,
}

pub struct WithholdView {
    pub keys: Seq<Key>,
    pub timeout: Duration,
    pub held: Seq<bool>,
    pub phase: Phase,
    /// The events kept back, in the order in which they came.
    pub buffer: Seq<Event>,
    /// The wake-up at which the events kept back are sent on.
    pub pending: Option<Token>,
    pub next_serial: u64,
}

impl View for Withhold {
    type V = WithholdView;

    closed spec fn view(&self) -> WithholdView {
        WithholdView {
            keys: self.keys@,
            timeout: self.timeout,
            held: self.held@,
            phase: self.phase,
            buffer: self.buffer@,
            pending: self.pending,
            next_serial: self.next_serial,
        }
    }
}

pub struct WithholdStep {
    pub entry: WithholdView,
    pub out: Seq<Event>,
    pub scheduled: Seq<Wakeup>,
}

impl WithholdView {
    pub open spec fn wf(self) -> bool {
        self.held.len() == self.keys.len()
    }

    /// The phase that follows `phase` once every key has been let go.
    pub open spec fn settled(phase: Phase, held: Seq<bool>) -> Phase {
        if none_held(held) {
            Phase::Idle
        } else {
            phase
        }
    }

    pub open spec fn apply(self, index: usize, event: Event, now: Instant, scheduled: Seq<Wakeup>)
        -> WithholdStep {
        let held = held_after(self.keys, self.held, event);
        let token = Token { owner: index, serial: self.next_serial };
        if !any_matches_channel(self.keys, event) {
            WithholdStep { entry: self, out: seq![event], scheduled }
        } else {
            match self.phase {
                Phase::Idle => if none_held(held) {
                    WithholdStep { entry: WithholdView { held, ..self }, out: seq![event], scheduled }
                } else if all_held(held) {
                    WithholdStep {
                        entry: WithholdView { held, phase: Phase::Consumed, ..self },
                        out: Seq::empty(),
                        scheduled,
                    }
                } else {
                    match defer_instant(now, self.timeout) {
                        Some(instant) => WithholdStep {
                            entry: WithholdView {
                                held,
                                phase: Phase::Holding,
                                buffer: self.buffer.push(event),
                                pending: Some(token),
                                next_serial: next_serial(self.next_serial),
                                ..self
                            },
                            out: Seq::empty(),
                            scheduled: scheduled.push(Wakeup { instant, token }),
                        },
                        None => WithholdStep {
                            entry: WithholdView { held, phase: Phase::Passing, ..self },
                            out: seq![event],
                            scheduled,
                        },
                    }
                },
                Phase::Holding => if all_held(held) {
                    WithholdStep {
                        entry: WithholdView {
                            held,
                            phase: Phase::Consumed,
                            buffer: Seq::empty(),
                            pending: None,
                            ..self
                        },
                        out: Seq::empty(),
                        scheduled,
                    }
                } else if none_held(held) {
                    WithholdStep {
                        entry: WithholdView {
                            held,
                            phase: Phase::Idle,
                            buffer: Seq::empty(),
                            pending: None,
                            ..self
                        },
                        out: self.buffer.push(event),
                        scheduled,
                    }
                } else {
                    WithholdStep {
                        entry: WithholdView { held, buffer: self.buffer.push(event), ..self },
                        out: Seq::empty(),
                        scheduled,
                    }
                },
                Phase::Consumed => WithholdStep {
                    entry: WithholdView { held, phase: WithholdView::settled(Phase::Consumed, held), ..self },
                    out: Seq::empty(),
                    scheduled,
                },
                Phase::Passing => WithholdStep {
                    entry: WithholdView { held, phase: WithholdView::settled(Phase::Passing, held), ..self },
                    out: seq![event],
                    scheduled,
                },
            }
        }
    }

    pub open spec fn apply_to_all(self, index: usize, events: Seq<Event>, now: Instant, scheduled: Seq<Wakeup>)
        -> WithholdStep {
        events.fold_left(
            WithholdStep { entry: self, out: Seq::empty(), scheduled },
            |acc: WithholdStep, e: Event|
                WithholdStep {
                    entry: acc.entry.apply(index, e, now, acc.scheduled).entry,
                    out: acc.out + acc.entry.apply(index, e, now, acc.scheduled).out,
                    scheduled: acc.entry.apply(index, e, now, acc.scheduled).scheduled,
                },
        )
    }

    /// Whether `token` is the wake-up at which the events kept back go on.
    pub open spec fn awaits(self, token: Token) -> bool {
        self.phase == Phase::Holding && self.pending == Some(token)
    }

    pub open spec fn released(self, token: Token) -> Seq<Event> {
        if self.awaits(token) {
            self.buffer
        } else {
            Seq::empty()
        }
    }

    pub open spec fn after_wakeup(self, token: Token) -> WithholdView {
        if self.awaits(token) {
            WithholdView { phase: Phase::Passing, buffer: Seq::empty(), pending: None, ..self }
        } else {
            self
        }
    }
}

impl Withhold {
    pub fn new(keys: Vec<Key>, timeout: Duration) -> (withhold: Withhold)
        ensures
            withhold@.wf(),
            withhold@ == (WithholdView {
                keys: keys@,
                timeout,
                held: Seq::new(keys@.len(), |i: int| false),
                phase: Phase::Idle,
                buffer: Seq::empty(),
                pending: None,
                next_serial: 0,
            }),
    {
        let mut held: Vec<bool> = Vec::new();
        let mut i: usize = 0;
        while i < keys.len()
            invariant
                i <= keys.len(),
                held@.len() == i,
                forall|k: int| 0 <= k < i ==> !#[trigger] held@[k],
            decreases keys.len() - i,
        {
            held.push(false);
            i += 1;
        }
        assert(held@ =~= Seq::new(keys@.len(), |i: int| false));
        Withhold { keys, timeout, held, phase: Phase::Idle, buffer: Vec::new(), pending: None, next_serial: 0 }
    }

    pub fn phase(&self) -> (phase: Phase)
        ensures
            phase == self@.phase,
    {
        self.phase
    }

    pub fn apply(&mut self, event: &Event, out: &mut Vec<Event>, loopback: &mut LoopbackHandle, index: usize)
        requires
            old(self)@.wf(),
        ensures
            final(self)@.wf(),
            final(self)@ == old(self)@.apply(
                index,
                *event,
                old(loopback)@.now,
                old(loopback)@.scheduled,
            ).entry,
            final(out)@ == old(out)@ + old(self)@.apply(
                index,
                *event,
                old(loopback)@.now,
                old(loopback)@.scheduled,
            ).out,
            final(loopback)@.now == old(loopback)@.now,
            final(loopback)@.scheduled == old(self)@.apply(
                index,
                *event,
                old(loopback)@.now,
                old(loopback)@.scheduled,
            ).scheduled,
    {
        if !keys_match_channel(&self.keys, event) {
            out.push(*event);
            assert(out@ =~= old(out)@ + seq![*event]);
            return ;
        }
        track(&self.keys, &mut self.held, event);
        let all = check_all_held(&self.held);
        let none = check_none_held(&self.held);
        match self.phase {
            Phase::Idle => {
                if none {
                    out.push(*event);
                    assert(out@ =~= old(out)@ + seq![*event]);
                } else if all {
                    self.phase = Phase::Consumed;
                    assert(out@ =~= old(out)@ + Seq::<Event>::empty());
                } else {
                    let token = Token { owner: index, serial: self.next_serial };
                    if loopback.schedule(self.timeout, token) {
                        self.phase = Phase::Holding;
                        self.buffer.push(*event);
                        self.pending = Some(token);
                        self.next_serial = next_serial(self.next_serial);
                        assert(out@ =~= old(out)@ + Seq::<Event>::empty());
                    } else {
                        self.phase = Phase::Passing;
                        out.push(*event);
                        assert(out@ =~= old(out)@ + seq![*event]);
                    }
                }
            },
            Phase::Holding => {
                if all {
                    self.phase = Phase::Consumed;
                    self.buffer.clear();
                    self.pending = None;
                    assert(out@ =~= old(out)@ + Seq::<Event>::empty());
                } else if none {
                    self.phase = Phase::Idle;
                    self.buffer.push(*event);
                    out.append(&mut self.buffer);
                    self.pending = None;
                } else {
                    self.buffer.push(*event);
                    assert(out@ =~= old(out)@ + Seq::<Event>::empty());
                }
            },
            Phase::Consumed => {
                if none {
                    self.phase = Phase::Idle;
                }
                assert(out@ =~= old(out)@ + Seq::<Event>::empty());
            },
            Phase::Passing => {
                if none {
                    self.phase = Phase::Idle;
                }
                out.push(*event);
                assert(out@ =~= old(out)@ + seq![*event]);
            },
        }
    }

    pub fn apply_to_all(
        &mut self,
        events: &Vec<Event>,
        out: &mut Vec<Event>,
        loopback: &mut LoopbackHandle,
        index: usize,
    )
        requires
            old(self)@.wf(),
        ensures
            final(self)@.wf(),
            final(self)@ == old(self)@.apply_to_all(
                index,
                events@,
                old(loopback)@.now,
                old(loopback)@.scheduled,
            ).entry,
            final(out)@ == old(out)@ + old(self)@.apply_to_all(
                index,
                events@,
                old(loopback)@.now,
                old(loopback)@.scheduled,
            ).out,
            final(loopback)@.now == old(loopback)@.now,
            final(loopback)@.scheduled == old(self)@.apply_to_all(
                index,
                events@,
                old(loopback)@.now,
                old(loopback)@.scheduled,
            ).scheduled,
    {
        let ghost now = old(loopback)@.now;
        let ghost f = |acc: WithholdStep, e: Event|
            WithholdStep {
                entry: acc.entry.apply(index, e, now, acc.scheduled).entry,
                out: acc.out + acc.entry.apply(index, e, now, acc.scheduled).out,
                scheduled: acc.entry.apply(index, e, now, acc.scheduled).scheduled,
            };
        let ghost init = WithholdStep {
            entry: old(self)@,
            out: Seq::empty(),
            scheduled: old(loopback)@.scheduled,
        };
        let mut i: usize = 0;
        assert(events@.take(0) =~= Seq::<Event>::empty());
        assert(old(out)@ + Seq::<Event>::empty() =~= old(out)@);
        while i < events.len()
            invariant
                i <= events.len(),
                self@.wf(),
                now == old(loopback)@.now,
                f == (|acc: WithholdStep, e: Event|
                    WithholdStep {
                        entry: acc.entry.apply(index, e, now, acc.scheduled).entry,
                        out: acc.out + acc.entry.apply(index, e, now, acc.scheduled).out,
                        scheduled: acc.entry.apply(index, e, now, acc.scheduled).scheduled,
                    }),
                init == (WithholdStep {
                    entry: old(self)@,
                    out: Seq::empty(),
                    scheduled: old(loopback)@.scheduled,
                }),
                self@ == events@.take(i as int).fold_left(init, f).entry,
                out@ == old(out)@ + events@.take(i as int).fold_left(init, f).out,
                loopback@.now == now,
                loopback@.scheduled == events@.take(i as int).fold_left(init, f).scheduled,
            decreases events.len() - i,
        {
            proof {
                lemma_fold_left_take_step(events@, init, f, i as int);
            }
            let ghost acc = events@.take(i as int).fold_left(init, f);
            self.apply(&events[i], out, loopback, index);
            assert(out@ =~= old(out)@ + (acc.out + acc.entry.apply(
                index,
                events@[i as int],
                now,
                acc.scheduled,
            ).out));
            i += 1;
        }
        assert(events@.take(events@.len() as int) =~= events@);
    }

    /// Sends on what was kept back if `token` is the wake-up that the
    /// withhold waits for, and does nothing for any other token.
    pub fn wakeup(&mut self, token: &Token, out: &mut Vec<Event>)
        requires
            old(self)@.wf(),
        ensures
            final(self)@.wf(),
            final(self)@ == old(self)@.after_wakeup(*token),
            final(out)@ == old(out)@ + old(self)@.released(*token),
    {
        let waits = match self.pending {
            Some(pending) => pending == *token,
            None => false,
        };
        if self.phase == Phase::Holding && waits {
            out.append(&mut self.buffer);
            self.phase = Phase::Passing;
            self.pending = None;
        } else {
            assert(out@ =~= old(out)@ + Seq::<Event>::empty());
        }
    }
}

/// An event changes what a withhold keeps, never what it was made to do;
/// and a withhold schedules for later only.
pub proof fn lemma_withhold_apply(withhold: WithholdView, index: usize, event: Event, now: Instant, scheduled: Seq<Wakeup>)
    ensures
        ({
            let step = withhold.apply(index, event, now, scheduled);
            &&& step.entry.keys == withhold.keys
            &&& step.entry.timeout == withhold.timeout
            &&& step.entry.held.len() == withhold.held.len()
            &&& crate::state::later_wakeups(scheduled, step.scheduled, now)
        }),
{
    crate::state::lemma_later_wakeups_refl(scheduled, now);
    match defer_instant(now, withhold.timeout) {
        Some(instant) => {
            crate::state::lemma_later_wakeups_push(
                scheduled,
                Wakeup { instant, token: Token { owner: index, serial: withhold.next_serial } },
                now,
            );
        },
        None => {},
    }
}

pub proof fn lemma_withhold_apply_to_all(
    withhold: WithholdView,
    index: usize,
    events: Seq<Event>,
    now: Instant,
    scheduled: Seq<Wakeup>,
)
    ensures
        ({
            let step = withhold.apply_to_all(index, events, now, scheduled);
            &&& step.entry.keys == withhold.keys
            &&& step.entry.timeout == withhold.timeout
            &&& step.entry.held.len() == withhold.held.len()
            &&& crate::state::later_wakeups(scheduled, step.scheduled, now)
        }),
    decreases events.len(),
{
    if events.len() == 0 {
        crate::state::lemma_later_wakeups_refl(scheduled, now);
    } else {
        let acc = withhold.apply_to_all(index, events.drop_last(), now, scheduled);
        lemma_withhold_apply_to_all(withhold, index, events.drop_last(), now, scheduled);
        lemma_withhold_apply(acc.entry, index, events.last(), now, acc.scheduled);
        crate::state::lemma_later_wakeups_trans(
            scheduled,
            acc.scheduled,
            withhold.apply_to_all(index, events, now, scheduled).scheduled,
            now,
        );
    }
}

/// Events in the output namespace pass a withhold as they are and leave
/// no trace in it.
pub proof fn lemma_withhold_passes_output(
    withhold: WithholdView,
    index: usize,
    events: Seq<Event>,
    now: Instant,
    scheduled: Seq<Wakeup>,
)
    requires
        crate::event::all_output(events),
    ensures
        withhold.apply_to_all(index, events, now, scheduled) == (WithholdStep {
            entry: withhold,
            out: events,
            scheduled,
        }),
    decreases events.len(),
{
    if events.len() > 0 {
        lemma_withhold_passes_output(withhold, index, events.drop_last(), now, scheduled);
        assert(!any_matches_channel(withhold.keys, events.last()));
        assert(events.drop_last() + seq![events.last()] =~= events);
    } else {
        assert(events =~= Seq::<Event>::empty());
    }
}

/// Which keys are held once each of `events` has been seen.
pub open spec fn held_through(keys: Seq<Key>, held: Seq<bool>, events: Seq<Event>) -> Seq<bool>
    decreases events.len(),
{
    if events.len() == 0 {
        held
    } else {
        held_after(keys, held_through(keys, held, events.drop_last()), events.last())
    }
}

/// At some moment while `events` were seen, all keys were held.
pub open spec fn chord_seen(keys: Seq<Key>, held: Seq<bool>, events: Seq<Event>) -> bool
    decreases events.len(),
{
    events.len() > 0 && (chord_seen(keys, held, events.drop_last()) || all_held(
        held_through(keys, held, events),
    ))
}

/// The events are all on the channels of the keys, and before the last of
/// them the keys are never all let go.
pub open spec fn chord_in_progress(keys: Seq<Key>, held: Seq<bool>, events: Seq<Event>) -> bool {
    &&& forall|i: int| 0 <= i < events.len() ==> any_matches_channel(keys, #[trigger] events[i])
    &&& forall|k: int| 1 <= k < events.len() ==> !none_held(#[trigger] held_through(keys, held, events.take(k)))
}

/// What a withhold that was idle has come to after the events of a chord
/// in progress. As long as the chord has not come about, every event is
/// kept back in the order in which it came, and one wake-up is asked for.
/// Once the chord has come about, nothing is kept and nothing was sent on.
pub proof fn lemma_withhold_during_chord(
    withhold: WithholdView,
    index: usize,
    events: Seq<Event>,
    now: Instant,
    scheduled: Seq<Wakeup>,
)
    requires
        withhold.wf(),
        withhold.phase == Phase::Idle,
        defer_instant(now, withhold.timeout) is Some,
        chord_in_progress(withhold.keys, withhold.held, events),
        events.len() > 0,
        chord_seen(withhold.keys, withhold.held, events) || !none_held(
            held_through(withhold.keys, withhold.held, events),
        ),
    ensures
        ({
            let step = withhold.apply_to_all(index, events, now, scheduled);
            let held = held_through(withhold.keys, withhold.held, events);
            let token = Token { owner: index, serial: withhold.next_serial };
            &&& step.out == Seq::<Event>::empty()
            &&& step.entry.keys == withhold.keys
            &&& step.entry.timeout == withhold.timeout
            &&& step.entry.held == held
            &&& chord_seen(withhold.keys, withhold.held, events) ==> step.entry.phase == (if none_held(held) {
                Phase::Idle
            } else {
                Phase::Consumed
            })
            &&& !chord_seen(withhold.keys, withhold.held, events) ==> {
                &&& step.entry.phase == Phase::Holding
                &&& step.entry.buffer == withhold.buffer + events
                &&& step.entry.pending == Some(token)
                &&& step.scheduled == scheduled.push(
                    Wakeup { instant: defer_instant(now, withhold.timeout)->0, token },
                )
            }
        }),
    decreases events.len(),
{
    let keys = withhold.keys;
    let front = events.drop_last();
    let last = events.last();
    let step = withhold.apply_to_all(index, events, now, scheduled);
    let acc = withhold.apply_to_all(index, front, now, scheduled);
    let before = held_through(keys, withhold.held, front);
    let held = held_after(keys, before, last);
    lemma_held_through_len(keys, withhold.held, front);
    assert(held == held_through(keys, withhold.held, events));
    assert(held.len() == keys.len());
    assert(any_matches_channel(keys, events[events.len() - 1]));
    assert(keys.len() > 0);
    if all_held(held) {
        assert(held[0]);
        assert(!none_held(held));
    }
    assert(step == (WithholdStep {
        entry: acc.entry.apply(index, last, now, acc.scheduled).entry,
        out: acc.out + acc.entry.apply(index, last, now, acc.scheduled).out,
        scheduled: acc.entry.apply(index, last, now, acc.scheduled).scheduled,
    }));
    if front.len() == 0 {
        assert(acc == (WithholdStep { entry: withhold, out: Seq::empty(), scheduled }));
        assert(!chord_seen(keys, withhold.held, front));
        assert(step.out =~= Seq::<Event>::empty());
        assert(withhold.buffer.push(last) =~= withhold.buffer + events);
    } else {
        assert forall|i: int| 0 <= i < front.len() implies any_matches_channel(keys, #[trigger] front[i]) by {
            assert(front[i] == events[i]);
        }
        assert forall|k: int| 1 <= k < front.len() implies !none_held(
            #[trigger] held_through(keys, withhold.held, front.take(k)),
        ) by {
            assert(front.take(k) =~= events.take(k));
        }
        assert(events.take(front.len() as int) =~= front);
        assert(!none_held(held_through(keys, withhold.held, events.take(front.len() as int))));
        assert(!none_held(before));
        lemma_withhold_during_chord(withhold, index, front, now, scheduled);
        assert(acc.entry.held == before);
        assert(step.out =~= Seq::<Event>::empty());
        assert((withhold.buffer + front).push(last) =~= withhold.buffer + events);
    }
}

proof fn lemma_held_through_len(keys: Seq<Key>, held: Seq<bool>, events: Seq<Event>)
    ensures
        held_through(keys, held, events).len() == held.len(),
    decreases events.len(),
{
    if events.len() > 0 {
        lemma_held_through_len(keys, held, events.drop_last());
    }
}

/// A chord that comes about is swallowed: where a withhold was idle, the
/// keys were never all let go before the last event, and at some moment
/// all were held, no event of the chord has left the withhold.
pub proof fn lemma_chord_is_swallowed(
    withhold: WithholdView,
    index: usize,
    events: Seq<Event>,
    now: Instant,
    scheduled: Seq<Wakeup>,
)
    requires
        withhold.wf(),
        withhold.phase == Phase::Idle,
        defer_instant(now, withhold.timeout) is Some,
        chord_in_progress(withhold.keys, withhold.held, events),
        chord_seen(withhold.keys, withhold.held, events),
    ensures
        withhold.apply_to_all(index, events, now, scheduled).out == Seq::<Event>::empty(),
        withhold.apply_to_all(index, events, now, scheduled).entry.buffer == Seq::<Event>::empty()
            || withhold.apply_to_all(index, events, now, scheduled).entry.phase != Phase::Holding,
{
    lemma_withhold_during_chord(withhold, index, events, now, scheduled);
}

/// A chord that does not come about in time is sent on: where a withhold
/// was idle and kept nothing, and since then some but never all keys were
/// held, the wake-up that it asked for releases the events in the order in
/// which they came, each once; until then none has left it.
pub proof fn lemma_timeout_releases_in_order(
    withhold: WithholdView,
    index: usize,
    events: Seq<Event>,
    now: Instant,
    scheduled: Seq<Wakeup>,
)
    requires
        withhold.wf(),
        withhold.phase == Phase::Idle,
        withhold.buffer == Seq::<Event>::empty(),
        defer_instant(now, withhold.timeout) is Some,
        chord_in_progress(withhold.keys, withhold.held, events),
        events.len() > 0,
        !chord_seen(withhold.keys, withhold.held, events),
        !none_held(held_through(withhold.keys, withhold.held, events)),
    ensures
        ({
            let step = withhold.apply_to_all(index, events, now, scheduled);
            let token = Token { owner: index, serial: withhold.next_serial };
            &&& step.out == Seq::<Event>::empty()
            &&& step.scheduled == scheduled.push(
                Wakeup { instant: defer_instant(now, withhold.timeout)->0, token },
            )
            &&& step.entry.released(token) == events
            &&& step.entry.after_wakeup(token).phase == Phase::Passing
            &&& step.entry.after_wakeup(token).buffer == Seq::<Event>::empty()
        }),
{
    lemma_withhold_during_chord(withhold, index, events, now, scheduled);
    assert(withhold.buffer + events =~= events);
}

} // verus!
