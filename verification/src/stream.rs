//! The processing stream: an ordered list of entries through which events
//! flow front to back, and capabilities likewise.

use vstd::prelude::*;
use crate::capability::{
    aggregate,
    aggregate_capabilities,
    all_input_caps,
    codes_compatible,
    device_index,
    distinct_bases,
    distinct_device_domains,
    filed,
    has_device_domain,
    input_caps_to_vec,
    Capability,
    DeviceCapabilitiesView,
    InputCapabilities,
};
use crate::delay::{Delay, DelayView};
use crate::error::{ErrorKind, RuntimeError};
use crate::event::{all_output, output_events, Event, Namespace};
use crate::hook::{Hook, HookView};
use crate::input::InputDevice;
use crate::loopback::{
    count_at_earliest,
    due_span,
    lemma_poll_progress,
    next_due,
    time_until,
    Instant,
    Loopback,
    LoopbackHandle,
    LoopbackView,
    Token,
};
use crate::mapping::{EventMap, EventMapView, Toggle, ToggleView};
use crate::merge::{Merge, MergeView};
use crate::output::{create_all, created, distinct_domains, OutputCommand, OutputSystem, OutputView};
use crate::predevice::PreOutputDevice;
use crate::print::{EventPrinter, EventPrinterView};
use crate::seq_util::{lemma_filter_empty, lemma_filter_take_step, lemma_fold_left_take_step};
use crate::state::{ctx_of, Ctx, Effect, State, ToggleState};
use crate::withhold::{Withhold, WithholdView};

verus! {

/// Everything that can be part of the processing stream.
///
/// An entry takes a batch of events and writes what leaves it; an event
/// that it does not write is dropped. It does the same for capabilities:
/// given all that may enter, it writes all that may leave, whatever its
/// state at the moment. An entry may ask the loopback for a wake-up and is
/// then woken with the token it gave; it is woken with the tokens of other
/// entries too and must take no notice of them.
pub enum StreamEntry {
    EventMap(EventMap),
    Hook(Hook),
    Toggle(Toggle),
    Print(EventPrinter),
    Merge(Merge),
    Withhold(Withhold),
    Delay(Delay),
}

pub enum EntryView {
    EventMap(EventMapView),
    Hook(HookView),
    Toggle(ToggleView),
    Print(EventPrinterView),
    Merge(MergeView),
    Withhold(WithholdView),
    Delay(DelayView),
}

impl View for StreamEntry {
    type V = EntryView;

    open spec fn view(&self) -> EntryView {
        match self {
            StreamEntry::EventMap(e) => EntryView::EventMap(e@),
            StreamEntry::Hook(e) => EntryView::Hook(e@),
            StreamEntry::Toggle(e) => EntryView::Toggle(e@),
            StreamEntry::Print(e) => EntryView::Print(e@),
            StreamEntry::Merge(e) => EntryView::Merge(e@),
            StreamEntry::Withhold(e) => EntryView::Withhold(e@),
            StreamEntry::Delay(e) => EntryView::Delay(e@),
        }
    }
}

pub open spec fn stream_view(stream: Seq<StreamEntry>) -> Seq<EntryView> {
    stream.map_values(|e: StreamEntry| e@)
}

impl EntryView {
    pub open spec fn wf(self) -> bool {
        match self {
            EntryView::Hook(h) => h.wf(),
            EntryView::Withhold(w) => w.wf(),
            _ => true,
        }
    }

    /// The entry as it was made, before any event reached it.
    pub open spec fn config(self) -> EntryView {
        match self {
            EntryView::EventMap(m) => self,
            EntryView::Toggle(t) => self,
            EntryView::Print(p) => self,
            EntryView::Hook(h) => EntryView::Hook(
                HookView {
                    held: Seq::new(h.keys.len(), |i: int| false),
                    pending: None,
                    next_serial: 0,
                    ..h
                },
            ),
            EntryView::Merge(m) => EntryView::Merge(MergeView { records: Seq::empty(), ..m }),
            EntryView::Withhold(w) => EntryView::Withhold(
                WithholdView {
                    held: Seq::new(w.keys.len(), |i: int| false),
                    phase: crate::withhold::Phase::Idle,
                    buffer: Seq::empty(),
                    pending: None,
                    next_serial: 0,
                    ..w
                },
            ),
            EntryView::Delay(d) => EntryView::Delay(DelayView { queue: Seq::empty(), next_serial: 0, ..d }),
        }
    }
}

/// Every entry of the stream is in a state that it can reach.
pub open spec fn stream_wf(entries: Seq<EntryView>) -> bool {
    forall|i: int| 0 <= i < entries.len() ==> (#[trigger] entries[i]).wf()
}

/// The entries as they were made.
pub open spec fn stream_config(entries: Seq<EntryView>) -> Seq<EntryView> {
    entries.map_values(|e: EntryView| e.config())
}

/// What one entry makes of a batch of events.
pub struct PassStep {
    pub entry: EntryView,
    pub out: Seq<Event>,
    pub ctx: Ctx,
}

/// The entry at place `index` takes the batch `events`.
pub open spec fn entry_apply(entry: EntryView, index: usize, events: Seq<Event>, ctx: Ctx) -> PassStep {
    match entry {
        EntryView::EventMap(m) => PassStep { entry, out: m.apply_to_all(events), ctx },
        EntryView::Toggle(t) => PassStep {
            entry,
            out: t.apply_to_all(events, ctx.toggles).out,
            ctx: Ctx { toggles: t.apply_to_all(events, ctx.toggles).toggles, ..ctx },
        },
        EntryView::Merge(m) => PassStep {
            entry: EntryView::Merge(m.apply_to_all(events).entry),
            out: m.apply_to_all(events).out,
            ctx,
        },
        EntryView::Hook(h) => PassStep {
            entry: EntryView::Hook(h.apply_to_all(index, events, ctx).entry),
            out: h.apply_to_all(index, events, ctx).out,
            ctx: h.apply_to_all(index, events, ctx).ctx,
        },
        EntryView::Delay(d) => PassStep {
            entry: EntryView::Delay(d.apply_to_all(index, events, ctx.now, ctx.scheduled).entry),
            out: d.apply_to_all(index, events, ctx.now, ctx.scheduled).out,
            ctx: Ctx { scheduled: d.apply_to_all(index, events, ctx.now, ctx.scheduled).scheduled, ..ctx },
        },
        EntryView::Withhold(w) => PassStep {
            entry: EntryView::Withhold(w.apply_to_all(index, events, ctx.now, ctx.scheduled).entry),
            out: w.apply_to_all(index, events, ctx.now, ctx.scheduled).out,
            ctx: Ctx { scheduled: w.apply_to_all(index, events, ctx.now, ctx.scheduled).scheduled, ..ctx },
        },
        EntryView::Print(p) => PassStep {
            entry,
            out: events,
            ctx: Ctx { effects: ctx.effects + p.printed(events), ..ctx },
        },
    }
}

/// The entry is woken with `token`; `out` is what it sends on.
pub open spec fn entry_wakeup(entry: EntryView, token: Token, ctx: Ctx) -> PassStep {
    match entry {
        EntryView::Hook(h) => PassStep {
            entry: EntryView::Hook(h.wakeup(token, ctx).entry),
            out: Seq::empty(),
            ctx: h.wakeup(token, ctx).ctx,
        },
        EntryView::Delay(d) => PassStep {
            entry: EntryView::Delay(d.after_wakeup(token)),
            out: d.due(token),
            ctx,
        },
        EntryView::Withhold(w) => PassStep {
            entry: EntryView::Withhold(w.after_wakeup(token)),
            out: w.released(token),
            ctx,
        },
        _ => PassStep { entry, out: Seq::empty(), ctx },
    }
}

/// The capabilities that leave the entry when `caps` enter it.
pub open spec fn entry_caps(entry: EntryView, caps: Seq<Capability>) -> Seq<Capability> {
    match entry {
        EntryView::EventMap(m) => m.apply_to_all_caps(caps),
        EntryView::Toggle(t) => t.apply_to_all_caps(caps),
        _ => caps,
    }
}

/// The stream and what flows through it at some place.
pub struct Pass {
    pub entries: Seq<EntryView>,
    pub events: Seq<Event>,
    pub ctx: Ctx,
}

/// The batch `events` flows through the entries from place `start` to the
/// end: each entry takes what the one before it has sent on.
pub open spec fn run_from(entries: Seq<EntryView>, start: int, events: Seq<Event>, ctx: Ctx) -> Pass
    decreases entries.len() - start,
{
    if start < 0 || start >= entries.len() {
        Pass { entries, events, ctx }
    } else {
        let step = entry_apply(entries[start], start as usize, events, ctx);
        run_from(entries.update(start, step.entry), start + 1, step.out, step.ctx)
    }
}

/// Sends one event through the stream from place `start` on and appends to
/// `events_out` what arrives at the end in the output namespace.
pub fn run_event(
    event_in: Event,
    events_out: &mut Vec<Event>,
    stream: &mut Vec<StreamEntry>,
    start: usize,
    state: &mut State,
    loopback: &mut LoopbackHandle,
    effects: &mut Vec<Effect>,
)
    requires
        stream_wf(stream_view(old(stream)@)),
    ensures
        stream_wf(stream_view(final(stream)@)),
        ({
            let pass = run_from(
                stream_view(old(stream)@),
                start as int,
                seq![event_in],
                ctx_of(old(state)@, old(loopback)@, old(effects)@),
            );
            &&& stream_view(final(stream)@) == pass.entries
            &&& final(events_out)@ == old(events_out)@ + output_events(pass.events)
            &&& ctx_of(final(state)@, final(loopback)@, final(effects)@) == pass.ctx
        }),
{
    let mut events: Vec<Event> = Vec::new();
    events.push(event_in);
    let mut buffer: Vec<Event> = Vec::new();
    let mut index: usize = start;
    let ghost goal = run_from(
        stream_view(old(stream)@),
        start as int,
        seq![event_in],
        ctx_of(old(state)@, old(loopback)@, old(effects)@),
    );
    assert(events@ =~= seq![event_in]);
    while index < stream.len()
        invariant
            stream_wf(stream_view(stream@)),
            buffer@.len() == 0,
            run_from(stream_view(stream@), index as int, events@, ctx_of(state@, loopback@, effects@)) == goal,
        decreases stream.len() - index,
    {
        let ghost before = stream_view(stream@);
        let ghost ctx = ctx_of(state@, loopback@, effects@);
        let ghost step = entry_apply(before[index as int], index, events@, ctx);
        match &mut stream[index] {
            StreamEntry::EventMap(map) => {
                map.apply_to_all(&events, &mut buffer);
                events.clear();
                std::mem::swap(&mut events, &mut buffer);
            },
            StreamEntry::Toggle(toggle) => {
                toggle.apply_to_all(&events, &mut buffer, state);
                events.clear();
                std::mem::swap(&mut events, &mut buffer);
            },
            StreamEntry::Merge(merge) => {
                merge.apply_to_all(&events, &mut buffer);
                events.clear();
                std::mem::swap(&mut events, &mut buffer);
            },
            StreamEntry::Hook(hook) => {
                hook.apply_to_all(&events, &mut buffer, state, loopback, effects, index);
                events.clear();
                std::mem::swap(&mut events, &mut buffer);
            },
            StreamEntry::Delay(delay) => {
                delay.apply_to_all(&events, &mut buffer, loopback, index);
                events.clear();
                std::mem::swap(&mut events, &mut buffer);
            },
            StreamEntry::Withhold(withhold) => {
                withhold.apply_to_all(&events, &mut buffer, loopback, index);
                events.clear();
                std::mem::swap(&mut events, &mut buffer);
            },
            StreamEntry::Print(printer) => {
                printer.apply_to_all(&events, effects);
            },
        }
        proof {
            assert(events@ =~= step.out);
            assert(stream_view(stream@) =~= before.update(index as int, step.entry));
            assert(ctx_of(state@, loopback@, effects@) == step.ctx);
        }
        index += 1;
    }
    let ghost wanted = |e: Event| e.namespace == Namespace::Output;
    let mut i: usize = 0;
    proof {
        lemma_filter_empty(wanted);
        assert(events@.take(0) =~= Seq::<Event>::empty());
        assert(old(events_out)@ + Seq::<Event>::empty() =~= old(events_out)@);
    }
    while i < events.len()
        invariant
            i <= events.len(),
            wanted == (|e: Event| e.namespace == Namespace::Output),
            events_out@ == old(events_out)@ + events@.take(i as int).filter(wanted),
        decreases events.len() - i,
    {
        proof {
            lemma_filter_take_step(events@, wanted, i as int);
        }
        if events[i].namespace == Namespace::Output {
            events_out.push(events[i]);
        }
        i += 1;
    }
    assert(events@.take(events@.len() as int) =~= events@);
}

/// The capabilities at some place in the stream, and how many there were
/// when capabilities were last merged.
pub struct CapsPass {
    pub caps: Seq<Capability>,
    pub last: nat,
}

/// The capabilities pass one entry. When they have doubled since the last
/// time, those that differ in their value range alone are merged, so that
/// they cannot multiply without bound.
pub open spec fn caps_step(acc: CapsPass, entry: EntryView) -> CapsPass {
    let caps = entry_caps(entry, acc.caps);
    if caps.len() >= 2 * acc.last {
        CapsPass { caps: aggregate(caps), last: aggregate(caps).len() }
    } else {
        CapsPass { caps, last: acc.last }
    }
}

pub open spec fn caps_through(entries: Seq<EntryView>, caps: Seq<Capability>) -> CapsPass {
    entries.fold_left(CapsPass { caps, last: caps.len() }, |acc: CapsPass, e: EntryView| caps_step(acc, e))
}

/// What the stream may emit to output devices when its inputs may emit
/// `caps`.
pub open spec fn run_caps_spec(entries: Seq<EntryView>, caps: Seq<Capability>) -> Seq<Capability> {
    caps_through(entries, caps).caps.filter(|c: Capability| c.namespace == Namespace::Output)
}

/// The analogue of `run_event` for capabilities.
pub fn run_caps(stream: &Vec<StreamEntry>, capabilities: Vec<Capability>) -> (result: Vec<Capability>)
    ensures
        result@ == run_caps_spec(stream_view(stream@), capabilities@),
        forall|i: int| 0 <= i < result@.len() ==> (#[trigger] result@[i]).namespace == Namespace::Output,
{
    let mut caps: Vec<Capability> = capabilities;
    let mut buffer: Vec<Capability> = Vec::new();
    let mut last_num_caps: usize = caps.len();
    let ghost f = |acc: CapsPass, e: EntryView| caps_step(acc, e);
    let ghost init = CapsPass { caps: capabilities@, last: capabilities@.len() };
    let ghost entries = stream_view(stream@);
    let mut index: usize = 0;
    assert(entries.take(0) =~= Seq::<EntryView>::empty());
    while index < stream.len()
        invariant
            index <= stream.len(),
            entries == stream_view(stream@),
            f == (|acc: CapsPass, e: EntryView| caps_step(acc, e)),
            init == (CapsPass { caps: capabilities@, last: capabilities@.len() }),
            buffer@.len() == 0,
            (CapsPass { caps: caps@, last: last_num_caps as nat }) == entries.take(index as int).fold_left(
                init,
                f,
            ),
        decreases stream.len() - index,
    {
        proof {
            lemma_fold_left_take_step(entries, init, f, index as int);
        }
        match &stream[index] {
            StreamEntry::EventMap(map) => {
                map.apply_to_all_caps(&caps, &mut buffer);
                caps.clear();
                std::mem::swap(&mut caps, &mut buffer);
            },
            StreamEntry::Toggle(toggle) => {
                toggle.apply_to_all_caps(&caps, &mut buffer);
                caps.clear();
                std::mem::swap(&mut caps, &mut buffer);
            },
            StreamEntry::Merge(_) => (),
            StreamEntry::Hook(hook) => {
                hook.apply_to_all_caps(&caps, &mut buffer);
                caps.clear();
                std::mem::swap(&mut caps, &mut buffer);
            },
            StreamEntry::Print(_) => (),
            StreamEntry::Delay(_) => (),
            StreamEntry::Withhold(_) => (),
        }
        assert(caps@ =~= entry_caps(entries[index as int], entries.take(index as int).fold_left(init, f).caps));
        if last_num_caps <= caps.len() / 2 {
            caps = aggregate_capabilities(caps);
            last_num_caps = caps.len();
        }
        index += 1;
    }
    assert(entries.take(entries.len() as int) =~= entries);
    let ghost wanted = |c: Capability| c.namespace == Namespace::Output;
    let mut result: Vec<Capability> = Vec::new();
    let mut i: usize = 0;
    proof {
        lemma_filter_empty(wanted);
        assert(caps@.take(0) =~= Seq::<Capability>::empty());
    }
    while i < caps.len()
        invariant
            i <= caps.len(),
            wanted == (|c: Capability| c.namespace == Namespace::Output),
            result@ == caps@.take(i as int).filter(wanted),
            forall|k: int| 0 <= k < result@.len() ==> (#[trigger] result@[k]).namespace == Namespace::Output,
        decreases caps.len() - i,
    {
        proof {
            lemma_filter_take_step(caps@, wanted, i as int);
        }
        if caps[i].namespace == Namespace::Output {
            result.push(caps[i]);
        }
        i += 1;
    }
    assert(caps@.take(caps@.len() as int) =~= caps@);
    result
}

/// What a pass keeps of the stream: how long it is, how its entries were
/// made, and that they are well formed; and that wake-ups are only added,
/// for later than the clock of the pass.
pub open spec fn pass_keeps(entries: Seq<EntryView>, ctx: Ctx, after: Seq<EntryView>, ctx_after: Ctx) -> bool {
    &&& after.len() == entries.len()
    &&& stream_config(after) == stream_config(entries)
    &&& (stream_wf(entries) ==> stream_wf(after))
    &&& ctx.extended_by(ctx_after)
}

pub proof fn lemma_pass_keeps_refl(entries: Seq<EntryView>, ctx: Ctx)
    ensures
        pass_keeps(entries, ctx, entries, ctx),
{
    crate::state::lemma_later_wakeups_refl(ctx.scheduled, ctx.now);
}

pub proof fn lemma_pass_keeps_trans(
    a: Seq<EntryView>,
    ctx_a: Ctx,
    b: Seq<EntryView>,
    ctx_b: Ctx,
    c: Seq<EntryView>,
    ctx_c: Ctx,
)
    requires
        pass_keeps(a, ctx_a, b, ctx_b),
        pass_keeps(b, ctx_b, c, ctx_c),
    ensures
        pass_keeps(a, ctx_a, c, ctx_c),
{
    crate::state::lemma_later_wakeups_trans(ctx_a.scheduled, ctx_b.scheduled, ctx_c.scheduled, ctx_a.now);
}

/// An entry that takes a batch stays the entry it was made as, stays well
/// formed, and schedules for later only.
pub proof fn lemma_entry_apply(entry: EntryView, index: usize, events: Seq<Event>, ctx: Ctx)
    ensures
        entry_apply(entry, index, events, ctx).entry.config() == entry.config(),
        entry.wf() ==> entry_apply(entry, index, events, ctx).entry.wf(),
        ctx.extended_by(entry_apply(entry, index, events, ctx).ctx),
{
    crate::state::lemma_later_wakeups_refl(ctx.scheduled, ctx.now);
    match entry {
        EntryView::Hook(h) => {
            crate::hook::lemma_hook_apply_to_all(h, index, events, ctx);
        },
        EntryView::Merge(m) => {
            crate::merge::lemma_merge_apply_to_all(m, events);
        },
        EntryView::Delay(d) => {
            crate::delay::lemma_delay_apply_to_all(d, index, events, ctx.now, ctx.scheduled);
        },
        EntryView::Withhold(w) => {
            crate::withhold::lemma_withhold_apply_to_all(w, index, events, ctx.now, ctx.scheduled);
        },
        _ => {},
    }
}

/// The same of an entry that is woken.
pub proof fn lemma_entry_wakeup(entry: EntryView, token: Token, ctx: Ctx)
    ensures
        entry_wakeup(entry, token, ctx).entry.config() == entry.config(),
        entry.wf() ==> entry_wakeup(entry, token, ctx).entry.wf(),
        ctx.extended_by(entry_wakeup(entry, token, ctx).ctx),
{
    crate::state::lemma_later_wakeups_refl(ctx.scheduled, ctx.now);
    match entry {
        EntryView::Hook(h) => {
            crate::hook::lemma_fire_keeps_schedule(h, ctx);
        },
        _ => {},
    }
}

proof fn lemma_update_keeps(entries: Seq<EntryView>, at: int, entry: EntryView)
    requires
        0 <= at < entries.len(),
        entry.config() == entries[at].config(),
        entries[at].wf() ==> entry.wf(),
    ensures
        stream_config(entries.update(at, entry)) == stream_config(entries),
        stream_wf(entries) ==> stream_wf(entries.update(at, entry)),
{
    assert(stream_config(entries.update(at, entry)) =~= stream_config(entries));
}

/// A pass through the stream keeps it as said above.
pub proof fn lemma_run_from(entries: Seq<EntryView>, start: int, events: Seq<Event>, ctx: Ctx)
    ensures
        pass_keeps(
            entries,
            ctx,
            run_from(entries, start, events, ctx).entries,
            run_from(entries, start, events, ctx).ctx,
        ),
    decreases entries.len() - start,
{
    if start < 0 || start >= entries.len() {
        lemma_pass_keeps_refl(entries, ctx);
    } else {
        let step = entry_apply(entries[start], start as usize, events, ctx);
        let next = entries.update(start, step.entry);
        lemma_entry_apply(entries[start], start as usize, events, ctx);
        lemma_update_keeps(entries, start, step.entry);
        lemma_run_from(next, start + 1, step.out, step.ctx);
        let pass = run_from(next, start + 1, step.out, step.ctx);
        lemma_pass_keeps_trans(entries, ctx, next, step.ctx, pass.entries, pass.ctx);
    }
}

/// The stream while a wake-up makes its way through it, with what has
/// arrived for the outputs.
pub struct WakeState {
    pub entries: Seq<EntryView>,
    pub ctx: Ctx,
    pub staged: Seq<Event>,
}

/// One event that a woken entry sent on flows through the entries from
/// place `start`.
pub open spec fn feed_one(acc: WakeState, start: int, event: Event) -> WakeState {
    let pass = run_from(acc.entries, start, seq![event], acc.ctx);
    WakeState { entries: pass.entries, ctx: pass.ctx, staged: acc.staged + output_events(pass.events) }
}

/// The events that a woken entry sent on flow through the entries from
/// place `start`, one after the other.
pub open spec fn feed(ws: WakeState, start: int, events: Seq<Event>) -> WakeState {
    events.fold_left(ws, |acc: WakeState, e: Event| feed_one(acc, start, e))
}

/// The entry at place `index` is woken, and what it sends on flows through
/// the entries behind it. It never reaches the entry itself or one before.
pub open spec fn wakeup_step(ws: WakeState, index: int, token: Token) -> WakeState {
    if 0 <= index < ws.entries.len() {
        let woken = entry_wakeup(ws.entries[index], token, ws.ctx);
        feed(
            WakeState { entries: ws.entries.update(index, woken.entry), ctx: woken.ctx, staged: ws.staged },
            index + 1,
            woken.out,
        )
    } else {
        ws
    }
}

/// The first `upto` entries are woken, front to back.
pub open spec fn wakeup_pass(ws: WakeState, token: Token, upto: nat) -> WakeState
    decreases upto,
{
    if upto == 0 {
        ws
    } else {
        wakeup_step(wakeup_pass(ws, token, (upto - 1) as nat), upto - 1, token)
    }
}

/// Every entry is woken with `token`, front to back.
pub open spec fn run_wakeup_spec(ws: WakeState, token: Token) -> WakeState {
    wakeup_pass(ws, token, ws.entries.len())
}

pub proof fn lemma_feed(ws: WakeState, start: int, events: Seq<Event>)
    ensures
        pass_keeps(ws.entries, ws.ctx, feed(ws, start, events).entries, feed(ws, start, events).ctx),
    decreases events.len(),
{
    if events.len() == 0 {
        lemma_pass_keeps_refl(ws.entries, ws.ctx);
    } else {
        let acc = feed(ws, start, events.drop_last());
        lemma_feed(ws, start, events.drop_last());
        lemma_run_from(acc.entries, start, seq![events.last()], acc.ctx);
        let next = feed_one(acc, start, events.last());
        lemma_pass_keeps_trans(ws.entries, ws.ctx, acc.entries, acc.ctx, next.entries, next.ctx);
    }
}

pub proof fn lemma_wakeup_step(ws: WakeState, index: int, token: Token)
    ensures
        pass_keeps(
            ws.entries,
            ws.ctx,
            wakeup_step(ws, index, token).entries,
            wakeup_step(ws, index, token).ctx,
        ),
{
    if 0 <= index < ws.entries.len() {
        let woken = entry_wakeup(ws.entries[index], token, ws.ctx);
        let ws1 = WakeState { entries: ws.entries.update(index, woken.entry), ctx: woken.ctx, staged: ws.staged };
        lemma_entry_wakeup(ws.entries[index], token, ws.ctx);
        lemma_update_keeps(ws.entries, index, woken.entry);
        lemma_feed(ws1, index + 1, woken.out);
        let after = feed(ws1, index + 1, woken.out);
        lemma_pass_keeps_trans(ws.entries, ws.ctx, ws1.entries, ws1.ctx, after.entries, after.ctx);
    } else {
        lemma_pass_keeps_refl(ws.entries, ws.ctx);
    }
}

/// A wake-up keeps the stream as a pass does.
pub proof fn lemma_wakeup_pass(ws: WakeState, token: Token, upto: nat)
    ensures
        pass_keeps(
            ws.entries,
            ws.ctx,
            wakeup_pass(ws, token, upto).entries,
            wakeup_pass(ws, token, upto).ctx,
        ),
    decreases upto,
{
    if upto == 0 {
        lemma_pass_keeps_refl(ws.entries, ws.ctx);
    } else {
        let acc = wakeup_pass(ws, token, (upto - 1) as nat);
        lemma_wakeup_pass(ws, token, (upto - 1) as nat);
        lemma_wakeup_step(acc, upto - 1, token);
        let next = wakeup_step(acc, upto - 1, token);
        lemma_pass_keeps_trans(ws.entries, ws.ctx, acc.entries, acc.ctx, next.entries, next.ctx);
    }
}

/// Wakes every entry with `token`, front to back. What an entry sends on
/// enters the stream behind that entry; what arrives at the end in the
/// output namespace is appended to `events_out`.
pub fn run_wakeup(
    token: Token,
    events_out: &mut Vec<Event>,
    stream: &mut Vec<StreamEntry>,
    state: &mut State,
    loopback: &mut LoopbackHandle,
    effects: &mut Vec<Effect>,
)
    requires
        stream_wf(stream_view(old(stream)@)),
    ensures
        stream_wf(stream_view(final(stream)@)),
        (WakeState {
            entries: stream_view(final(stream)@),
            ctx: ctx_of(final(state)@, final(loopback)@, final(effects)@),
            staged: final(events_out)@,
        }) == run_wakeup_spec(
            WakeState {
                entries: stream_view(old(stream)@),
                ctx: ctx_of(old(state)@, old(loopback)@, old(effects)@),
                staged: old(events_out)@,
            },
            token,
        ),
{
    let ghost ws0 = WakeState {
        entries: stream_view(old(stream)@),
        ctx: ctx_of(old(state)@, old(loopback)@, old(effects)@),
        staged: old(events_out)@,
    };
    let n = stream.len();
    let mut events: Vec<Event> = Vec::new();
    let mut index: usize = 0;
    while index < n
        invariant
            index <= n,
            n == stream.len(),
            n == ws0.entries.len(),
            events@.len() == 0,
            stream_wf(stream_view(stream@)),
            (WakeState {
                entries: stream_view(stream@),
                ctx: ctx_of(state@, loopback@, effects@),
                staged: events_out@,
            }) == wakeup_pass(ws0, token, index as nat),
        decreases n - index,
    {
        let ghost ws = WakeState {
            entries: stream_view(stream@),
            ctx: ctx_of(state@, loopback@, effects@),
            staged: events_out@,
        };
        let ghost woken = entry_wakeup(ws.entries[index as int], token, ws.ctx);
        match &mut stream[index] {
            StreamEntry::EventMap(_map) => {},
            StreamEntry::Toggle(_toggle) => {},
            StreamEntry::Merge(_merge) => {},
            StreamEntry::Hook(hook) => {
                hook.wakeup(&token, state, effects, &*loopback);
            },
            StreamEntry::Delay(delay) => {
                delay.wakeup(&token, &mut events);
            },
            StreamEntry::Withhold(withhold) => {
                withhold.wakeup(&token, &mut events);
            },
            StreamEntry::Print(_printer) => {},
        }
        let ghost ws1 = WakeState {
            entries: ws.entries.update(index as int, woken.entry),
            ctx: woken.ctx,
            staged: ws.staged,
        };
        proof {
            assert(events@ =~= woken.out);
            assert(stream_view(stream@) =~= ws1.entries);
            assert(ctx_of(state@, loopback@, effects@) == ws1.ctx);
            lemma_entry_wakeup(ws.entries[index as int], token, ws.ctx);
            lemma_update_keeps(ws.entries, index as int, woken.entry);
        }
        let ghost f = |acc: WakeState, e: Event| feed_one(acc, index + 1, e);
        let mut k: usize = 0;
        assert(events@.take(0) =~= Seq::<Event>::empty());
        while k < events.len()
            invariant
                k <= events.len(),
                index < n,
                n == stream.len(),
                stream_wf(stream_view(stream@)),
                f == (|acc: WakeState, e: Event| feed_one(acc, index + 1, e)),
                (WakeState {
                    entries: stream_view(stream@),
                    ctx: ctx_of(state@, loopback@, effects@),
                    staged: events_out@,
                }) == events@.take(k as int).fold_left(ws1, f),
            decreases events.len() - k,
        {
            proof {
                lemma_fold_left_take_step(events@, ws1, f, k as int);
                lemma_run_from(
                    stream_view(stream@),
                    index + 1,
                    seq![events@[k as int]],
                    ctx_of(state@, loopback@, effects@),
                );
            }
            run_event(events[k], events_out, stream, index + 1, state, loopback, effects);
            assert(stream_view(stream@).len() == stream@.len());
            k += 1;
        }
        assert(events@.take(events@.len() as int) =~= events@);
        events.clear();
        index += 1;
    }
}

/// The stream with all that belongs to it: the outputs, the shared state,
/// the loopback, and the events that wait for the end of their report.
pub struct Setup {
    stream: Vec<StreamEntry>,
    output: OutputSystem,
    state: State,
    loopback: Loopback,
    /// What every input device can emit, and what devices that may be
    /// opened again could emit when last seen.
    input_caps: InputCapabilities,
    /// The events that have reached an output device but are not handed to
    /// it before their report ends.
    staged_events: Vec<Event>,
    /// What the stream has asked its caller to do.
    effects: Vec<Effect>,
}

pub struct SetupView {
    pub entries: Seq<EntryView>,
    pub output: OutputView,
    pub toggles: Seq<ToggleState>,
    pub loopback: LoopbackView,
    pub input_caps: Seq<DeviceCapabilitiesView>,
    pub staged: Seq<Event>,
    pub effects: Seq<Effect>,
}

impl View for Setup {
    type V = SetupView;

    closed spec fn view(&self) -> SetupView {
        SetupView {
            entries: stream_view(self.stream@),
            output: self.output@,
            toggles: self.state@,
            loopback: self.loopback@,
            input_caps: self.input_caps@,
            staged: self.staged_events@,
            effects: self.effects@,
        }
    }
}

impl SetupView {
    pub open spec fn wf(self) -> bool {
        &&& stream_wf(self.entries)
        &&& all_output(self.staged)
        &&& distinct_device_domains(self.input_caps)
    }

    /// What the stream may emit to output devices.
    pub open spec fn output_caps(self) -> Seq<Capability> {
        run_caps_spec(self.entries, all_input_caps(self.input_caps))
    }

    /// An input device has been opened, perhaps not for the first time:
    /// its capabilities are filed under its domain. The outputs are told
    /// what the stream may emit now, unless the device is known and can
    /// emit nothing that it could not emit before.
    pub open spec fn update_caps(self, device: DeviceCapabilitiesView) -> SetupView {
        let input_caps = filed(self.input_caps, device);
        if has_device_domain(self.input_caps, device.domain) && codes_compatible(
            device.codes,
            self.input_caps[device_index(self.input_caps, device.domain)].codes,
        ) {
            SetupView { input_caps, ..self }
        } else {
            SetupView {
                input_caps,
                output: self.output.update_caps(run_caps_spec(self.entries, all_input_caps(input_caps))),
                ..self
            }
        }
    }

    /// The report ends: the staged events go to their devices, and every
    /// device ends its report.
    pub open spec fn syn(self) -> SetupView {
        SetupView { output: self.output.route_events(self.staged).synchronize(), staged: Seq::empty(), ..self }
    }

    /// What a pass reads and changes when its clock stands at `now`.
    pub open spec fn ctx_at(self, now: Instant) -> Ctx {
        Ctx { toggles: self.toggles, now, scheduled: Seq::empty(), effects: self.effects }
    }

    /// The setup once a pass has come back with `entries`, `ctx` and
    /// `staged`.
    pub open spec fn after_pass(self, entries: Seq<EntryView>, ctx: Ctx, staged: Seq<Event>) -> SetupView {
        SetupView {
            entries,
            toggles: ctx.toggles,
            effects: ctx.effects,
            loopback: LoopbackView { schedule: self.loopback.schedule + ctx.scheduled, ..self.loopback },
            staged,
            ..self
        }
    }

    /// One event flows through the whole stream at the time that the
    /// clock shows; what arrives for the outputs is staged.
    pub open spec fn run_event(self, event: Event) -> SetupView {
        let pass = run_from(self.entries, 0, seq![event], self.ctx_at(self.loopback.clock));
        self.after_pass(pass.entries, pass.ctx, self.staged + output_events(pass.events))
    }

    /// The event that ends a report, `SYN_REPORT`, ends the report and
    /// reaches no entry of the stream. Every other event, the kernel's
    /// other synchronisation events among them, flows through the stream
    /// and reaches no output device.
    pub open spec fn run(self, event: Event) -> SetupView {
        if event.is_syn_spec() {
            self.syn()
        } else {
            self.run_event(event)
        }
    }

    /// The wake-up that is due first fires: it makes its way through the
    /// stream on a clock that stands at its instant, and what it brings
    /// about forms a report of its own. Nothing happens when none is due.
    pub open spec fn wakeup_once(self) -> SetupView {
        match next_due(self.loopback.schedule, self.loopback.clock) {
            Some(i) => {
                let fired = self.loopback.schedule[i];
                let polled = SetupView {
                    loopback: LoopbackView { schedule: self.loopback.schedule.remove(i), ..self.loopback },
                    ..self
                };
                let ws = run_wakeup_spec(
                    WakeState { entries: self.entries, ctx: self.ctx_at(fired.instant), staged: self.staged },
                    fired.token,
                );
                polled.after_pass(ws.entries, ws.ctx, ws.staged).syn()
            },
            None => self,
        }
    }

    /// `n` times the wake-up that is due first fires.
    pub open spec fn wakeup_n(self, n: nat) -> SetupView
        decreases n,
    {
        if n == 0 {
            self
        } else {
            self.wakeup_n((n - 1) as nat).wakeup_once()
        }
    }

    /// No wake-up is due.
    pub open spec fn at_rest(self) -> bool {
        next_due(self.loopback.schedule, self.loopback.clock) is None
    }
}

/// What has been staged is in the output namespace, whatever event comes.
pub proof fn lemma_staged_is_output(setup: SetupView, event: Event)
    requires
        setup.wf(),
    ensures
        setup.run(event).wf(),
        all_output(setup.run(event).staged),
{
    if !event.is_syn_spec() {
        let pass = run_from(setup.entries, 0, seq![event], setup.ctx_at(setup.loopback.clock));
        lemma_run_from(setup.entries, 0, seq![event], setup.ctx_at(setup.loopback.clock));
        crate::seq_util::lemma_filter_members(pass.events, |e: Event| e.namespace == Namespace::Output);
    }
}

/// A wake-up that fires leaves the setup well formed, with nothing
/// staged, and with a schedule that is nearer to its rest.
pub proof fn lemma_wakeup_once(setup: SetupView)
    requires
        setup.wf(),
        !setup.at_rest(),
    ensures
        setup.wakeup_once().wf(),
        setup.wakeup_once().staged == Seq::<Event>::empty(),
        setup.wakeup_once().loopback.clock == setup.loopback.clock,
        stream_config(setup.wakeup_once().entries) == stream_config(setup.entries),
        due_span(setup.wakeup_once().loopback.schedule, setup.loopback.clock) < due_span(
            setup.loopback.schedule,
            setup.loopback.clock,
        ) || (due_span(setup.wakeup_once().loopback.schedule, setup.loopback.clock) == due_span(
            setup.loopback.schedule,
            setup.loopback.clock,
        ) && count_at_earliest(setup.wakeup_once().loopback.schedule) < count_at_earliest(
            setup.loopback.schedule,
        )),
{
    let i = next_due(setup.loopback.schedule, setup.loopback.clock)->0;
    let fired = setup.loopback.schedule[i];
    let ws0 = WakeState { entries: setup.entries, ctx: setup.ctx_at(fired.instant), staged: setup.staged };
    let ws = run_wakeup_spec(ws0, fired.token);
    lemma_wakeup_pass(ws0, fired.token, ws0.entries.len());
    assert forall|k: int| 0 <= k < ws.ctx.scheduled.len() implies (#[trigger] ws.ctx.scheduled[k]).instant
        > fired.instant by {}
    lemma_poll_progress(setup.loopback.schedule, setup.loopback.clock, ws.ctx.scheduled);
}

/// The setup stays well formed, and its entries stay as they were made,
/// however many wake-ups fire.
pub proof fn lemma_wakeup_n(setup: SetupView, n: nat)
    requires
        setup.wf(),
    ensures
        setup.wakeup_n(n).wf(),
        setup.wakeup_n(n).loopback.clock == setup.loopback.clock,
        stream_config(setup.wakeup_n(n).entries) == stream_config(setup.entries),
    decreases n,
{
    if n > 0 {
        lemma_wakeup_n(setup, (n - 1) as nat);
        let before = setup.wakeup_n((n - 1) as nat);
        if !before.at_rest() {
            lemma_wakeup_once(before);
        }
    }
}

impl Setup {
    /// Builds the setup. The output devices are made able to emit what
    /// the stream may emit when the inputs can emit `input_caps`.
    ///
    /// Refuses two output devices on one domain: each event goes to the
    /// one device of its domain, so the second device would never be
    /// written to.
    pub fn create(
        stream: Vec<StreamEntry>,
        pre_output: Vec<PreOutputDevice>,
        state: State,
        input_caps: InputCapabilities,
    ) -> (result: Result<Setup, RuntimeError>)
        requires
            stream_wf(stream_view(stream@)),
            input_caps.wf(),
        ensures
            result is Ok == distinct_domains(pre_output@),
            result matches Ok(setup) ==> setup@.wf() && setup@ == (SetupView {
                entries: stream_view(stream@),
                output: OutputView {
                    devices: created(
                        pre_output@,
                        run_caps_spec(stream_view(stream@), all_input_caps(input_caps@)),
                    ),
                    commands: create_all(pre_output@.len()),
                },
                toggles: state@,
                loopback: LoopbackView { schedule: Seq::empty(), clock: 0 },
                input_caps: input_caps@,
                staged: Seq::empty(),
                effects: Seq::empty(),
            }),
            result matches Err(error) ==> error.context_spec().len() == 0 && exists|i: int, j: int|
                0 <= i < j < pre_output@.len() && (#[trigger] pre_output@[i]).domain == (
                #[trigger] pre_output@[j]).domain && error.kind_spec() == (ErrorKind::DuplicateOutputDomain {
                    domain: pre_output@[i].domain,
                }),
    {
        let caps_vec: Vec<Capability> = input_caps_to_vec(&input_caps);
        let caps_out = run_caps(&stream, caps_vec);
        match OutputSystem::create(pre_output, caps_out) {
            Ok(output) => Ok(
                Setup {
                    stream,
                    output,
                    state,
                    input_caps,
                    loopback: Loopback::new(),
                    staged_events: Vec::new(),
                    effects: Vec::new(),
                },
            ),
            Err(error) => Err(error),
        }
    }

    /// Call this when an input device has been opened after the setup was
    /// made, for it may be able to emit what it could not emit before. If
    /// so, some output devices may be created anew.
    pub fn update_caps(&mut self, new_device: &InputDevice)
        requires
            old(self)@.wf(),
        ensures
            final(self)@.wf(),
            final(self)@ == old(self)@.update_caps(
                DeviceCapabilitiesView {
                    domain: new_device@.domain,
                    codes: new_device@.codes,
                    rep_info: new_device@.rep_info,
                },
            ),
    {
        proof {
            crate::capability::lemma_filed_distinct(
                self@.input_caps,
                DeviceCapabilitiesView {
                    domain: new_device@.domain,
                    codes: new_device@.codes,
                    rep_info: new_device@.rep_info,
                },
            );
        }
        let old_caps_opt = self.input_caps.insert(new_device.domain(), new_device.capabilities().clone());
        match old_caps_opt {
            Some(old_caps) => {
                if new_device.capabilities().is_compatible_with(&old_caps) {
                    return ;
                }
            },
            None => {},
        }
        let caps_vec: Vec<Capability> = input_caps_to_vec(&self.input_caps);
        let caps_out = run_caps(&self.stream, caps_vec);
        self.output.update_caps(caps_out);
    }

    /// Tells the setup the time. The clock does not run backwards.
    pub fn advance_clock(&mut self, now: Instant)
        ensures
            final(self)@ == (SetupView {
                loopback: LoopbackView {
                    clock: if now > old(self)@.loopback.clock { now } else { old(self)@.loopback.clock },
                    ..old(self)@.loopback
                },
                ..old(self)@
            }),
    {
        self.loopback.advance_clock(now);
    }

    /// How long the caller may wait for input before it must call
    /// `wakeup`.
    pub fn time_until_next_wakeup(&self) -> (delay: crate::loopback::Delay)
        ensures
            delay == time_until(self@.loopback.schedule, self@.loopback.clock),
    {
        self.loopback.time_until_next_wakeup()
    }

    /// The commands that wait for the output devices.
    pub fn output(&self) -> (output: &OutputSystem)
        ensures
            output@ == self@.output,
    {
        &self.output
    }

    /// Hands over the commands for the output devices; none wait
    /// afterwards.
    pub fn take_output_commands(&mut self) -> (commands: Vec<OutputCommand>)
        ensures
            commands@ == old(self)@.output.commands,
            final(self)@ == (SetupView {
                output: OutputView { commands: Seq::empty(), ..old(self)@.output },
                ..old(self)@
            }),
    {
        self.output.take_commands()
    }

    /// Hands over what the stream has asked to be done; nothing is asked
    /// afterwards.
    pub fn take_effects(&mut self) -> (effects: Vec<Effect>)
        ensures
            effects@ == old(self)@.effects,
            final(self)@ == (SetupView { effects: Seq::empty(), ..old(self)@ }),
    {
        let mut effects: Vec<Effect> = Vec::new();
        std::mem::swap(&mut effects, &mut self.effects);
        effects
    }

    /// The events that wait for the end of their report.
    pub fn staged_events(&self) -> (staged: &Vec<Event>)
        ensures
            staged@ == self@.staged,
    {
        &self.staged_events
    }

    /// The position of the shared toggle kept under `index`.
    pub fn toggle(&self, index: usize) -> (toggle: Option<ToggleState>)
        ensures
            toggle == if index < self@.toggles.len() { Some(self@.toggles[index as int]) } else { None },
    {
        self.state.get(index)
    }
}

/// Hands one event of an input device to the setup: the end of a report
/// sends what was staged to the output devices, and any other event flows
/// through the stream.
pub fn run(setup: &mut Setup, event: Event)
    requires
        old(setup)@.wf(),
    ensures
        final(setup)@ == old(setup)@.run(event),
        final(setup)@.wf(),
{
    proof {
        lemma_staged_is_output(setup@, event);
    }
    if event.is_syn() {
        syn(setup);
    } else {
        let mut loopback_handle = setup.loopback.get_handle_lazy();
        run_event(
            event,
            &mut setup.staged_events,
            &mut setup.stream,
            0,
            &mut setup.state,
            &mut loopback_handle,
            &mut setup.effects,
        );
        setup.loopback.commit(loopback_handle);
    }
}

/// Fires the wake-ups that are due, the earliest first, until none is due.
pub fn wakeup(setup: &mut Setup)
    requires
        old(setup)@.wf(),
    ensures
        final(setup)@.wf(),
        final(setup)@.at_rest(),
        exists|n: nat| final(setup)@ == old(setup)@.wakeup_n(n),
{
    let ghost mut n: nat = 0;
    let ghost mut pre: SetupView = setup@;
    let mut fired = setup.loopback.poll_once();
    while fired.is_some()
        invariant
            pre.wf(),
            pre == old(setup)@.wakeup_n(n),
            match next_due(pre.loopback.schedule, pre.loopback.clock) {
                Some(i) => fired == Some((pre.loopback.schedule[i].instant, pre.loopback.schedule[i].token))
                    && setup@ == (SetupView {
                    loopback: LoopbackView { schedule: pre.loopback.schedule.remove(i), ..pre.loopback },
                    ..pre
                }),
                None => fired is None && setup@ == pre,
            },
        decreases
                due_span(pre.loopback.schedule, pre.loopback.clock),
                count_at_earliest(pre.loopback.schedule),
    {
        let (instant, token) = fired.unwrap();
        proof {
            lemma_wakeup_once(pre);
        }
        let mut loopback_handle = setup.loopback.get_handle(instant);
        run_wakeup(
            token,
            &mut setup.staged_events,
            &mut setup.stream,
            &mut setup.state,
            &mut loopback_handle,
            &mut setup.effects,
        );
        setup.loopback.commit(loopback_handle);
        syn(setup);
        proof {
            assert(setup@ == pre.wakeup_once());
            pre = setup@;
            n = n + 1;
        }
        fired = setup.loopback.poll_once();
    }
}

/// Ends the report: hands the staged events to their output devices and
/// has every device end its report.
pub fn syn(setup: &mut Setup)
    ensures
        final(setup)@ == old(setup)@.syn(),
        final(setup)@.staged == Seq::<Event>::empty(),
{
    setup.output.route_events(&setup.staged_events);
    setup.staged_events.clear();
    setup.output.synchronize();
}

/// A device that is opened again with the capabilities it had leaves the
/// output devices as they are.
pub proof fn lemma_reopened_device_keeps_outputs(setup: SetupView, device: DeviceCapabilitiesView)
    requires
        has_device_domain(setup.input_caps, device.domain),
        setup.input_caps[device_index(setup.input_caps, device.domain)].codes == device.codes,
    ensures
        setup.update_caps(device).output == setup.output,
        setup.update_caps(device).entries == setup.entries,
{
    assert forall|i: int| 0 <= i < device.codes.len() implies crate::capability::code_covered(
        device.codes,
        #[trigger] device.codes[i],
    ) by {
        let want = device.codes[i];
        assert(crate::capability::abs_within(want.abs_info, want.abs_info));
    }
}

/// The runner adds nothing and loses nothing: where every entry from
/// `start` on sends on the batch as it receives it, the batch arrives at
/// the end as it was, each event once.
pub proof fn lemma_runner_hands_on(entries: Seq<EntryView>, start: int, events: Seq<Event>, ctx: Ctx)
    requires
        0 <= start,
        forall|i: int, c: Ctx|
            start <= i < entries.len() ==> (#[trigger] entry_apply(entries[i], i as usize, events, c)).out
                == events,
    ensures
        run_from(entries, start, events, ctx).events == events,
    decreases entries.len() - start,
{
    if start < entries.len() {
        let step = entry_apply(entries[start], start as usize, events, ctx);
        let next = entries.update(start, step.entry);
        assert forall|i: int, c: Ctx| start + 1 <= i < next.len() implies (#[trigger] entry_apply(
            next[i],
            i as usize,
            events,
            c,
        )).out == events by {
            assert(next[i] == entries[i]);
        }
        lemma_runner_hands_on(next, start + 1, events, step.ctx);
    }
}

/// What leaves the stream is what its last entry sends on, and each entry
/// receives what the entry before it sent on.
pub proof fn lemma_runner_composes(entries: Seq<EntryView>, start: int, events: Seq<Event>, ctx: Ctx)
    requires
        0 <= start < entries.len(),
    ensures
        run_from(entries, start, events, ctx) == run_from(
            entries.update(start, entry_apply(entries[start], start as usize, events, ctx).entry),
            start + 1,
            entry_apply(entries[start], start as usize, events, ctx).out,
            entry_apply(entries[start], start as usize, events, ctx).ctx,
        ),
        start + 1 == entries.len() ==> run_from(entries, start, events, ctx).events == entry_apply(
            entries[start],
            start as usize,
            events,
            ctx,
        ).out,
{
    reveal_with_fuel(run_from, 2);
}

/// What the stream may emit depends on how its entries were made and on
/// nothing that has happened to them since.
pub proof fn lemma_run_caps_ignores_state(a: Seq<EntryView>, b: Seq<EntryView>, caps: Seq<Capability>)
    requires
        stream_config(a) == stream_config(b),
    ensures
        run_caps_spec(a, caps) == run_caps_spec(b, caps),
{
    assert(a.len() == stream_config(a).len());
    assert(b.len() == stream_config(b).len());
    lemma_caps_through_ignores_state(a, b, caps, a.len());
    assert(a.take(a.len() as int) =~= a);
    assert(b.take(b.len() as int) =~= b);
}

proof fn lemma_caps_through_ignores_state(a: Seq<EntryView>, b: Seq<EntryView>, caps: Seq<Capability>, n: nat)
    requires
        stream_config(a) == stream_config(b),
        a.len() == b.len(),
        n <= a.len(),
    ensures
        caps_through(a.take(n as int), caps) == caps_through(b.take(n as int), caps),
    decreases n,
{
    if n > 0 {
        lemma_caps_through_ignores_state(a, b, caps, (n - 1) as nat);
        let f = |acc: CapsPass, e: EntryView| caps_step(acc, e);
        let init = CapsPass { caps, last: caps.len() };
        lemma_fold_left_take_step(a, init, f, n - 1);
        lemma_fold_left_take_step(b, init, f, n - 1);
        assert(stream_config(a)[n - 1] == a[n - 1].config());
        assert(stream_config(b)[n - 1] == b[n - 1].config());
    }
}

/// An event that flows through the stream, and a wake-up that fires,
/// leave what the stream may emit as it was.
pub proof fn lemma_output_caps_stay(setup: SetupView, event: Event)
    requires
        setup.wf(),
    ensures
        setup.run(event).output_caps() == setup.output_caps(),
        setup.wakeup_once().output_caps() == setup.output_caps(),
{
    let caps = all_input_caps(setup.input_caps);
    lemma_run_from(setup.entries, 0, seq![event], setup.ctx_at(setup.loopback.clock));
    lemma_run_caps_ignores_state(setup.run(event).entries, setup.entries, caps);
    if !setup.at_rest() {
        lemma_wakeup_once(setup);
    }
    lemma_run_caps_ignores_state(setup.wakeup_once().entries, setup.entries, caps);
}

/// Wake-ups fire in the order of their instants, and none before its
/// instant: the wake-up that fires is due, and the one that fires after
/// it is not due earlier.
pub proof fn lemma_wakeups_fire_in_order(setup: SetupView)
    requires
        setup.wf(),
        !setup.at_rest(),
    ensures
        ({
            let first = setup.loopback.schedule[next_due(setup.loopback.schedule, setup.loopback.clock)->0];
            let after = setup.wakeup_once();
            &&& first.instant <= setup.loopback.clock
            &&& after.at_rest() || first.instant <= after.loopback.schedule[next_due(
                after.loopback.schedule,
                after.loopback.clock,
            )->0].instant
        }),
{
    let i = next_due(setup.loopback.schedule, setup.loopback.clock)->0;
    let fired = setup.loopback.schedule[i];
    let ws0 = WakeState { entries: setup.entries, ctx: setup.ctx_at(fired.instant), staged: setup.staged };
    let ws = run_wakeup_spec(ws0, fired.token);
    lemma_wakeup_pass(ws0, fired.token, ws0.entries.len());
    assert forall|k: int| 0 <= k < ws.ctx.scheduled.len() implies (#[trigger] ws.ctx.scheduled[k]).instant
        >= fired.instant by {}
    crate::loopback::lemma_wakeups_in_order(setup.loopback.schedule, ws.ctx.scheduled);
}

/// Where capabilities are merged behind the last entry, no two of those
/// that the stream may emit differ in their value range alone.
pub proof fn lemma_run_caps_after_aggregation(entries: Seq<EntryView>, caps: Seq<Capability>)
    requires
        entries.len() > 0,
        entry_caps(entries.last(), caps_through(entries.drop_last(), caps).caps).len() >= 2 * caps_through(
            entries.drop_last(),
            caps,
        ).last,
    ensures
        distinct_bases(run_caps_spec(entries, caps)),
{
    let before = caps_through(entries.drop_last(), caps);
    crate::capability::lemma_aggregate(entry_caps(entries.last(), before.caps));
    crate::capability::lemma_filter_keeps_distinct_bases(
        caps_through(entries, caps).caps,
        |c: Capability| c.namespace == Namespace::Output,
    );
}

/// Once no wake-up is due, firing wake-ups changes nothing: the state in
/// which `wakeup` leaves the setup is the one state at rest that firing
/// wake-ups leads to.
pub proof fn lemma_wakeup_settles(setup: SetupView, n: nat, m: nat)
    requires
        setup.wakeup_n(n).at_rest(),
        n <= m,
    ensures
        setup.wakeup_n(m) == setup.wakeup_n(n),
    decreases m - n,
{
    if n < m {
        lemma_wakeup_settles(setup, n, (m - 1) as nat);
    }
}

/// No entry touches what is in the output namespace: such events pass
/// every entry, and so the whole stream, as they are.
pub proof fn lemma_output_events_pass(entries: Seq<EntryView>, start: int, events: Seq<Event>, ctx: Ctx)
    requires
        0 <= start,
        all_output(events),
    ensures
        run_from(entries, start, events, ctx).events == events,
{
    assert forall|i: int, c: Ctx| start <= i < entries.len() implies (#[trigger] entry_apply(
        entries[i],
        i as usize,
        events,
        c,
    )).out == events by {
        match entries[i] {
            EntryView::EventMap(m) => crate::mapping::lemma_map_passes_output(m, events),
            EntryView::Toggle(t) => crate::mapping::lemma_toggle_passes_output(t, events, c.toggles),
            EntryView::Merge(m) => crate::merge::lemma_merge_passes_output(m, events),
            EntryView::Hook(h) => crate::hook::lemma_hook_passes_output(h, i as usize, events, c),
            EntryView::Delay(d) => crate::delay::lemma_delay_passes_output(
                d,
                i as usize,
                events,
                c.now,
                c.scheduled,
            ),
            EntryView::Withhold(w) => crate::withhold::lemma_withhold_passes_output(
                w,
                i as usize,
                events,
                c.now,
                c.scheduled,
            ),
            EntryView::Print(p) => {},
        }
    }
    lemma_runner_hands_on(entries, start, events, ctx);
}

/// An event that is in the output namespace when it is handed to the
/// setup is staged as it is, whatever the stream.
pub proof fn lemma_stamped_event_is_staged(setup: SetupView, event: Event)
    requires
        event.namespace == Namespace::Output,
    ensures
        setup.run_event(event).staged == setup.staged.push(event),
{
    lemma_output_events_pass(setup.entries, 0, seq![event], setup.ctx_at(setup.loopback.clock));
    crate::seq_util::lemma_filter_all(seq![event], |e: Event| e.namespace == Namespace::Output);
    assert(setup.staged + seq![event] =~= setup.staged.push(event));
}

/// The capabilities at any place in the stream are no more than twice
/// what they were when they were last merged.
pub proof fn lemma_caps_stay_near_last(entries: Seq<EntryView>, caps: Seq<Capability>)
    ensures
        caps_through(entries, caps).caps.len() <= 2 * caps_through(entries, caps).last,
    decreases entries.len(),
{
    if entries.len() > 0 {
        lemma_caps_stay_near_last(entries.drop_last(), caps);
    }
}

/// The entry turns no capability into one for another code, domain or
/// namespace: it is a map that splits by value, or an entry that passes
/// capabilities as they are.
pub open spec fn keeps_bases(entry: EntryView) -> bool {
    match entry {
        EntryView::EventMap(m) => m.splits_by_value(),
        EntryView::Toggle(t) => false,
        _ => true,
    }
}

/// However often the entries of a stream split capabilities by value, the
/// capabilities at any place in the stream, and so those that the stream
/// may emit, are no more than twice those that entered it.
pub proof fn lemma_split_capabilities_stay_bounded(entries: Seq<EntryView>, caps: Seq<Capability>)
    requires
        forall|i: int| 0 <= i < entries.len() ==> keeps_bases(#[trigger] entries[i]),
    ensures
        caps_through(entries, caps).last <= caps.len(),
        crate::capability::bases_from(caps_through(entries, caps).caps, caps),
        caps_through(entries, caps).caps.len() <= 2 * caps.len(),
        run_caps_spec(entries, caps).len() <= 2 * caps.len(),
        forall|n: int| 0 <= n <= entries.len() ==> (#[trigger] caps_through(entries.take(n), caps)).caps.len() <= 2
            * caps.len(),
    decreases entries.len(),
{
    lemma_caps_stay_near_last(entries, caps);
    crate::seq_util::lemma_filter_members(
        caps_through(entries, caps).caps,
        |c: Capability| c.namespace == Namespace::Output,
    );
    if entries.len() == 0 {
        crate::capability::lemma_bases_from_refl(caps);
        assert forall|n: int| 0 <= n <= entries.len() implies (#[trigger] caps_through(
            entries.take(n),
            caps,
        )).caps.len() <= 2 * caps.len() by {
            assert(entries.take(n) =~= entries);
        }
    } else {
        let front = entries.drop_last();
        let entry = entries.last();
        assert forall|i: int| 0 <= i < front.len() implies keeps_bases(#[trigger] front[i]) by {
            assert(front[i] == entries[i]);
        }
        lemma_split_capabilities_stay_bounded(front, caps);
        let before = caps_through(front, caps);
        let passed = entry_caps(entry, before.caps);
        assert(keeps_bases(entries[entries.len() - 1]));
        match entry {
            EntryView::EventMap(m) => {
                crate::mapping::lemma_splitting_map_keeps_bases(m, before.caps);
            },
            _ => {
                crate::capability::lemma_bases_from_refl(before.caps);
            },
        }
        crate::capability::lemma_bases_from_trans(passed, before.caps, caps);
        if passed.len() >= 2 * before.last {
            let merged = aggregate(passed);
            crate::capability::lemma_aggregate(passed);
            crate::capability::lemma_bases_from_trans(merged, passed, caps);
            crate::capability::lemma_distinct_bases_are_few(merged, caps);
        }
        assert forall|n: int| 0 <= n <= entries.len() implies (#[trigger] caps_through(
            entries.take(n),
            caps,
        )).caps.len() <= 2 * caps.len() by {
            if n == entries.len() {
                assert(entries.take(n) =~= entries);
            } else {
                assert(entries.take(n) =~= front.take(n));
            }
        }
    }
}

/// Nothing but the end of a report reaches the output devices, and the end
/// of a report reaches nothing else.
pub proof fn lemma_only_the_end_of_a_report_synchronises(setup: SetupView, event: Event)
    ensures
        !event.is_syn_spec() ==> setup.run(event).output == setup.output,
        event.is_syn_spec() ==> {
            &&& setup.run(event) == setup.syn()
            &&& setup.run(event).entries == setup.entries
            &&& setup.run(event).toggles == setup.toggles
            &&& setup.run(event).loopback == setup.loopback
            &&& setup.run(event).effects == setup.effects
        },
{
}

} // verus!
