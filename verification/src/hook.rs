//! Hooks watch for a set of keys being held together and then act: they
//! ask for commands to be started and move toggles.

use vstd::prelude::*;
use crate::event::Event;
use crate::key::Key;
use crate::loopback::{defer_instant, next_serial, Duration, LoopbackHandle, Token, Wakeup};
use crate::seq_util::lemma_fold_left_take_step;
use crate::state::{advance_toggle, ctx_of, set_toggle, Ctx, Effect, State};

verus! {

/// What a hook does when it triggers.
#[derive(PartialEq, Eq, Structural, Clone, Copy, Debug)]
pub enum HookAction {
    /// Ask the caller to start the command kept under this number.
    Spawn { command: u32 },
    /// Move a toggle to a given branch.
    SetToggle { index: usize, value: usize },
    /// Move a toggle to its next branch.
    AdvanceToggle { index: usize },
}

/// Every key is held. A hook without keys holds them all, and so never
/// sees them become held.
pub open spec fn all_held(held: Seq<bool>) -> bool {
    forall|i: int| 0 <= i < held.len() ==> #[trigger] held[i]
}

/// No key is held.
pub open spec fn none_held(held: Seq<bool>) -> bool {
    forall|i: int| 0 <= i < held.len() ==> !#[trigger] held[i]
}

/// Which keys are held once `event` has been seen: an event on the channel
/// of a key holds it if the key accepts the value and lets go of it if not.
pub open spec fn held_after(keys: Seq<Key>, held: Seq<bool>, event: Event) -> Seq<bool> {
    Seq::new(
        held.len(),
        |i: int|
            if i < keys.len() && keys[i].matches_channel_spec(&event) {
                keys[i].value.contains_spec(event.value)
            } else {
                held[i]
            },
    )
}

pub open spec fn perform(ctx: Ctx, action: HookAction) -> Ctx {
    match action {
        HookAction::Spawn { command } => Ctx { effects: ctx.effects.push(Effect::Spawn { command }), ..ctx },
        HookAction::SetToggle { index, value } => Ctx { toggles: set_toggle(ctx.toggles, index, value), ..ctx },
        HookAction::AdvanceToggle { index } => Ctx { toggles: advance_toggle(ctx.toggles, index), ..ctx },
    }
}

pub fn check_all_held(held: &Vec<bool>) -> (r: bool)
    ensures
        r == all_held(held@),
{
    let mut i: usize = 0;
    while i < held.len()
        invariant
            i <= held.len(),
            forall|k: int| 0 <= k < i ==> #[trigger] held@[k],
        decreases held.len() - i,
    {
        if !held[i] {
            return false;
        }
        i += 1;
    }
    true
}

pub fn check_none_held(held: &Vec<bool>) -> (r: bool)
    ensures
        r == none_held(held@),
{
    let mut i: usize = 0;
    while i < held.len()
        invariant
            i <= held.len(),
            forall|k: int| 0 <= k < i ==> !#[trigger] held@[k],
        decreases held.len() - i,
    {
        if held[i] {
            return false;
        }
        i += 1;
    }
    true
}

/// Brings `held` up to date with `event`.
pub fn track(keys: &Vec<Key>, held: &mut Vec<bool>, event: &Event)
    requires
        old(held)@.len() == keys@.len(),
    ensures
        final(held)@ == held_after(keys@, old(held)@, *event),
{
    let mut i: usize = 0;
    while i < keys.len()
        invariant
            i <= keys.len(),
            held@.len() == keys@.len(),
            old(held)@.len() == keys@.len(),
            forall|k: int| 0 <= k < i ==> held@[k] == held_after(keys@, old(held)@, *event)[k],
            forall|k: int| i <= k < held@.len() ==> held@[k] == old(held)@[k],
        decreases keys.len() - i,
    {
        if keys[i].matches_channel(event) {
            held.set(i, keys[i].value.contains(event.value));
        }
        i += 1;
    }
    assert(held@ =~= held_after(keys@, old(held)@, *event));
}

/// Triggers when its keys come to be held all at once: at that moment if
/// `period` is zero, else once they have stayed held for `period`. Events
/// pass a hook unchanged.
pub struct Hook {
    keys: Vec<Key>,
    actions: Vec<HookAction>,
    period: Duration,
    held: Vec<bool>,
    pending: Option<Token>,
    next_serial: u64,
}

pub struct HookView {
    pub keys: Seq<Key>,
    pub actions: Seq<HookAction>,
    pub period: Duration,
    /// For each key, whether it is held.
    pub held: Seq<bool>,
    /// The wake-up that will trigger the hook if the keys stay held.
    pub pending: Option<Token>,
    pub next_serial: u64,
}

impl View for Hook {
    type V = HookView;

    closed spec fn view(&self) -> HookView {
        HookView {
            keys: self.keys@,
            actions: self.actions@,
            period: self.period,
            held: self.held@,
            pending: self.pending,
            next_serial: self.next_serial,
        }
    }
}

pub struct HookStep {
    pub entry: HookView,
    pub out: Seq<Event>,
    pub ctx: Ctx,
}

impl HookView {
    pub open spec fn wf(self) -> bool {
        self.held.len() == self.keys.len()
    }

    /// The hook's actions carried out in order.
    pub open spec fn fire(self, ctx: Ctx) -> Ctx {
        self.actions.fold_left(ctx, |c: Ctx, a: HookAction| perform(c, a))
    }

    pub open spec fn apply(self, index: usize, event: Event, ctx: Ctx) -> HookStep {
        let held = held_after(self.keys, self.held, event);
        let token = Token { owner: index, serial: self.next_serial };
        if all_held(held) && !all_held(self.held) {
            match defer_instant(ctx.now, self.period) {
                Some(instant) => HookStep {
                    entry: HookView {
                        held,
                        pending: Some(token),
                        next_serial: next_serial(self.next_serial),
                        ..self
                    },
                    out: seq![event],
                    ctx: Ctx { scheduled: ctx.scheduled.push(Wakeup { instant, token }), ..ctx },
                },
                None => HookStep {
                    entry: HookView { held, pending: None, ..self },
                    out: seq![event],
                    ctx: self.fire(ctx),
                },
            }
        } else if !all_held(held) {
            HookStep { entry: HookView { held, pending: None, ..self }, out: seq![event], ctx }
        } else {
            HookStep { entry: HookView { held, ..self }, out: seq![event], ctx }
        }
    }

    pub open spec fn apply_to_all(self, index: usize, events: Seq<Event>, ctx: Ctx) -> HookStep {
        events.fold_left(
            HookStep { entry: self, out: Seq::empty(), ctx },
            |acc: HookStep, e: Event|
                HookStep {
                    entry: acc.entry.apply(index, e, acc.ctx).entry,
                    out: acc.out + acc.entry.apply(index, e, acc.ctx).out,
                    ctx: acc.entry.apply(index, e, acc.ctx).ctx,
                },
        )
    }

    /// The hook triggers if `token` is the wake-up it waits for.
    pub open spec fn wakeup(self, token: Token, ctx: Ctx) -> HookStep {
        if self.pending == Some(token) {
            HookStep { entry: HookView { pending: None, ..self }, out: Seq::empty(), ctx: self.fire(ctx) }
        } else {
            HookStep { entry: self, out: Seq::empty(), ctx }
        }
    }
}

impl Hook {
    pub fn new(keys: Vec<Key>, actions: Vec<HookAction>, period: Duration) -> (hook: Hook)
        ensures
            hook@.wf(),
            hook@ == (HookView {
                keys: keys@,
                actions: actions@,
                period,
                held: Seq::new(keys@.len(), |i: int| false),
                pending: None,
                next_serial: 0,
            }),
    {
        let mut held: Vec<bool> = Vec::new();
        let mut i: usize = 0;
        while i < keys.len()
            invariant
                i <= keys.len(),
                held@.len() == i,
                forall|k: int| 0 <= k < i ==> !#[trigger] held@[k],
            decreases keys.len() - i,
        {
            held.push(false);
            i += 1;
        }
        assert(held@ =~= Seq::new(keys@.len(), |i: int| false));
        Hook { keys, actions, period, held, pending: None, next_serial: 0 }
    }

    fn fire(&self, state: &mut State, effects: &mut Vec<Effect>, loopback: &LoopbackHandle)
        ensures
            ctx_of(final(state)@, loopback@, final(effects)@) == self@.fire(
                ctx_of(old(state)@, loopback@, old(effects)@),
            ),
    {
        let ghost f = |c: Ctx, a: HookAction| perform(c, a);
        let ghost init = ctx_of(old(state)@, loopback@, old(effects)@);
        let mut i: usize = 0;
        assert(self@.actions.take(0) =~= Seq::<HookAction>::empty());
        while i < self.actions.len()
            invariant
                i <= self.actions.len(),
                f == (|c: Ctx, a: HookAction| perform(c, a)),
                init == ctx_of(old(state)@, loopback@, old(effects)@),
                ctx_of(state@, loopback@, effects@) == self@.actions.take(i as int).fold_left(init, f),
            decreases self.actions.len() - i,
        {
            proof {
                lemma_fold_left_take_step(self@.actions, init, f, i as int);
            }
            match self.actions[i] {
                HookAction::Spawn { command } => {
                    effects.push(Effect::Spawn { command });
                },
                HookAction::SetToggle { index, value } => {
                    state.set(index, value);
                },
                HookAction::AdvanceToggle { index } => {
                    state.advance(index);
                },
            }
            i += 1;
        }
        assert(self@.actions.take(self@.actions.len() as int) =~= self@.actions);
    }

    pub fn apply(
        &mut self,
        event: &Event,
        out: &mut Vec<Event>,
        state: &mut State,
        loopback: &mut LoopbackHandle,
        effects: &mut Vec<Effect>,
        index: usize,
    )
        requires
            old(self)@.wf(),
        ensures
            final(self)@.wf(),
            final(self)@ == old(self)@.apply(
                index,
                *event,
                ctx_of(old(state)@, old(loopback)@, old(effects)@),
            ).entry,
            final(out)@ == old(out)@.push(*event),
            ctx_of(final(state)@, final(loopback)@, final(effects)@) == old(self)@.apply(
                index,
                *event,
                ctx_of(old(state)@, old(loopback)@, old(effects)@),
            ).ctx,
    {
        out.push(*event);
        let was_held = check_all_held(&self.held);
        track(&self.keys, &mut self.held, event);
        let is_held = check_all_held(&self.held);
        if is_held && !was_held {
            let token = Token { owner: index, serial: self.next_serial };
            if loopback.schedule(self.period, token) {
                self.pending = Some(token);
                self.next_serial = next_serial(self.next_serial);
            } else {
                self.pending = None;
                self.fire(state, effects, loopback);
            }
        } else if !is_held {
            self.pending = None;
        }
    }

    pub fn apply_to_all(
        &mut self,
        events: &Vec<Event>,
        out: &mut Vec<Event>,
        state: &mut State,
        loopback: &mut LoopbackHandle,
        effects: &mut Vec<Effect>,
        index: usize,
    )
        requires
            old(self)@.wf(),
        ensures
            final(self)@.wf(),
            final(self)@ == old(self)@.apply_to_all(
                index,
                events@,
                ctx_of(old(state)@, old(loopback)@, old(effects)@),
            ).entry,
            final(out)@ == old(out)@ + old(self)@.apply_to_all(
                index,
                events@,
                ctx_of(old(state)@, old(loopback)@, old(effects)@),
            ).out,
            ctx_of(final(state)@, final(loopback)@, final(effects)@) == old(self)@.apply_to_all(
                index,
                events@,
                ctx_of(old(state)@, old(loopback)@, old(effects)@),
            ).ctx,
    {
        let ghost f = |acc: HookStep, e: Event|
            HookStep {
                entry: acc.entry.apply(index, e, acc.ctx).entry,
                out: acc.out + acc.entry.apply(index, e, acc.ctx).out,
                ctx: acc.entry.apply(index, e, acc.ctx).ctx,
            };
        let ghost init = HookStep {
            entry: old(self)@,
            out: Seq::empty(),
            ctx: ctx_of(old(state)@, old(loopback)@, old(effects)@),
        };
        let mut i: usize = 0;
        assert(events@.take(0) =~= Seq::<Event>::empty());
        assert(old(out)@ + Seq::<Event>::empty() =~= old(out)@);
        while i < events.len()
            invariant
                i <= events.len(),
                self@.wf(),
                f == (|acc: HookStep, e: Event|
                    HookStep {
                        entry: acc.entry.apply(index, e, acc.ctx).entry,
                        out: acc.out + acc.entry.apply(index, e, acc.ctx).out,
                        ctx: acc.entry.apply(index, e, acc.ctx).ctx,
                    }),
                init == (HookStep {
                    entry: old(self)@,
                    out: Seq::empty(),
                    ctx: ctx_of(old(state)@, old(loopback)@, old(effects)@),
                }),
                self@ == events@.take(i as int).fold_left(init, f).entry,
                out@ == old(out)@ + events@.take(i as int).fold_left(init, f).out,
                ctx_of(state@, loopback@, effects@) == events@.take(i as int).fold_left(init, f).ctx,
            decreases events.len() - i,
        {
            proof {
                lemma_fold_left_take_step(events@, init, f, i as int);
            }
            let ghost acc = events@.take(i as int).fold_left(init, f);
            self.apply(&events[i], out, state, loopback, effects, index);
            assert(out@ =~= old(out)@ + (acc.out + seq![events@[i as int]]));
            i += 1;
        }
        assert(events@.take(events@.len() as int) =~= events@);
    }

    pub fn wakeup(
        &mut self,
        token: &Token,
        state: &mut State,
        effects: &mut Vec<Effect>,
        loopback: &LoopbackHandle,
    )
        requires
            old(self)@.wf(),
        ensures
            final(self)@.wf(),
            final(self)@ == old(self)@.wakeup(*token, ctx_of(old(state)@, loopback@, old(effects)@)).entry,
            ctx_of(final(state)@, loopback@, final(effects)@) == old(self)@.wakeup(
                *token,
                ctx_of(old(state)@, loopback@, old(effects)@),
            ).ctx,
    {
        let waits = match self.pending {
            Some(pending) => pending == *token,
            None => false,
        };
        if waits {
            self.pending = None;
            self.fire(state, effects, loopback);
        }
    }

    /// The capabilities that leave a hook are those that enter it.
    pub fn apply_to_all_caps(&self, caps: &Vec<crate::capability::Capability>, out: &mut Vec<
        crate::capability::Capability,
    >)
        ensures
            final(out)@ == old(out)@ + caps@,
    {
        let mut i: usize = 0;
        assert(old(out)@ + caps@.take(0) =~= old(out)@);
        while i < caps.len()
            invariant
                i <= caps.len(),
                out@ == old(out)@ + caps@.take(i as int),
            decreases caps.len() - i,
        {
            out.push(caps[i]);
            assert(out@ =~= old(out)@ + caps@.take(i + 1));
            i += 1;
        }
        assert(caps@.take(caps@.len() as int) =~= caps@);
    }
}

/// Carrying out actions leaves the clock and the wake-ups alone.
pub proof fn lemma_fire_keeps_schedule(hook: HookView, ctx: Ctx)
    ensures
        hook.fire(ctx).now == ctx.now,
        hook.fire(ctx).scheduled == ctx.scheduled,
    decreases hook.actions.len(),
{
    if hook.actions.len() > 0 {
        lemma_fire_keeps_schedule(HookView { actions: hook.actions.drop_last(), ..hook }, ctx);
    }
}

/// An event changes what a hook has seen, never what it was made to do;
/// and a hook schedules for later only.
pub proof fn lemma_hook_apply(hook: HookView, index: usize, event: Event, ctx: Ctx)
    ensures
        ({
            let step = hook.apply(index, event, ctx);
            &&& step.entry.keys == hook.keys
            &&& step.entry.actions == hook.actions
            &&& step.entry.period == hook.period
            &&& step.entry.held.len() == hook.held.len()
            &&& ctx.extended_by(step.ctx)
        }),
{
    lemma_fire_keeps_schedule(hook, ctx);
    crate::state::lemma_later_wakeups_refl(ctx.scheduled, ctx.now);
    match defer_instant(ctx.now, hook.period) {
        Some(instant) => {
            crate::state::lemma_later_wakeups_push(
                ctx.scheduled,
                Wakeup { instant, token: Token { owner: index, serial: hook.next_serial } },
                ctx.now,
            );
        },
        None => {},
    }
}

pub proof fn lemma_hook_apply_to_all(hook: HookView, index: usize, events: Seq<Event>, ctx: Ctx)
    ensures
        ({
            let step = hook.apply_to_all(index, events, ctx);
            &&& step.entry.keys == hook.keys
            &&& step.entry.actions == hook.actions
            &&& step.entry.period == hook.period
            &&& step.entry.held.len() == hook.held.len()
            &&& ctx.extended_by(step.ctx)
        }),
    decreases events.len(),
{
    if events.len() == 0 {
        crate::state::lemma_later_wakeups_refl(ctx.scheduled, ctx.now);
    } else {
        let acc = hook.apply_to_all(index, events.drop_last(), ctx);
        lemma_hook_apply_to_all(hook, index, events.drop_last(), ctx);
        lemma_hook_apply(acc.entry, index, events.last(), acc.ctx);
        crate::state::lemma_later_wakeups_trans(
            ctx.scheduled,
            acc.ctx.scheduled,
            hook.apply_to_all(index, events, ctx).ctx.scheduled,
            ctx.now,
        );
    }
}

/// Events in the output namespace pass a hook as they are; they neither
/// hold a key nor let go of one.
pub proof fn lemma_hook_passes_output(hook: HookView, index: usize, events: Seq<Event>, ctx: Ctx)
    requires
        crate::event::all_output(events),
    ensures
        hook.apply_to_all(index, events, ctx).out == events,
        hook.apply_to_all(index, events, ctx).ctx == ctx,
        hook.apply_to_all(index, events, ctx).entry.held == hook.held,
    decreases events.len(),
{
    if events.len() > 0 {
        lemma_hook_passes_output(hook, index, events.drop_last(), ctx);
        let acc = hook.apply_to_all(index, events.drop_last(), ctx);
        assert(held_after(acc.entry.keys, acc.entry.held, events.last()) =~= acc.entry.held);
        assert(events.drop_last() + seq![events.last()] =~= events);
    }
}

/// Carrying out actions takes nothing back that the caller was asked to
/// do, and asks for every command that the actions name.
pub proof fn lemma_fire_asks_for_commands(hook: HookView, ctx: Ctx)
    ensures
        ctx.effects.len() <= hook.fire(ctx).effects.len(),
        hook.fire(ctx).effects.take(ctx.effects.len() as int) == ctx.effects,
        forall|k: int|
            0 <= k < hook.actions.len() && (#[trigger] hook.actions[k]) is Spawn ==> hook.fire(
                ctx,
            ).effects.contains(Effect::Spawn { command: hook.actions[k]->command }),
    decreases hook.actions.len(),
{
    if hook.actions.len() == 0 {
        assert(ctx.effects.take(ctx.effects.len() as int) =~= ctx.effects);
    } else {
        let front = HookView { actions: hook.actions.drop_last(), ..hook };
        let before = front.fire(ctx);
        let after = hook.fire(ctx);
        lemma_fire_asks_for_commands(front, ctx);
        assert(after == perform(before, hook.actions.last()));
        assert(after.effects.take(ctx.effects.len() as int) =~= before.effects.take(ctx.effects.len() as int));
        assert forall|k: int| 0 <= k < hook.actions.len() && (#[trigger] hook.actions[k]) is Spawn implies after.effects.contains(
            Effect::Spawn { command: hook.actions[k]->command },
        ) by {
            let wanted = Effect::Spawn { command: hook.actions[k]->command };
            if k < front.actions.len() {
                assert(front.actions[k] == hook.actions[k]);
                assert(before.effects.contains(wanted));
                let j = choose|j: int| 0 <= j < before.effects.len() && before.effects[j] == wanted;
                assert(after.effects[j] == wanted);
            } else {
                assert(after.effects[after.effects.len() - 1] == wanted);
            }
        }
    }
}

/// A hook that acts at once triggers at the event with which its keys come
/// to be held all together: its actions are carried out then, and the
/// event passes.
pub proof fn lemma_hook_triggers_when_chord_completes(hook: HookView, index: usize, event: Event, ctx: Ctx)
    requires
        !all_held(hook.held),
        all_held(held_after(hook.keys, hook.held, event)),
        defer_instant(ctx.now, hook.period) is None,
    ensures
        hook.apply(index, event, ctx).ctx == hook.fire(ctx),
        hook.apply(index, event, ctx).out == seq![event],
        forall|k: int|
            0 <= k < hook.actions.len() && (#[trigger] hook.actions[k]) is Spawn ==> hook.apply(
                index,
                event,
                ctx,
            ).ctx.effects.contains(Effect::Spawn { command: hook.actions[k]->command }),
{
    lemma_fire_asks_for_commands(hook, ctx);
}

} // verus!
