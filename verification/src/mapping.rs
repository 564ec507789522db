//! Maps rewrite the events that a key selects; toggles are maps that give
//! one of several results, by the position of a shared toggle.

use vstd::prelude::*;
use crate::capability::{announced, announces, Capability};
use crate::event::{all_output, Event};
use crate::key::{Key, Target};
use crate::seq_util::{flat_map, lemma_flat_map_take_step, lemma_fold_left_take_step};
use crate::state::{advance_toggle, State, ToggleState};

verus! {

/// What `event` becomes under each of `targets`, in their order.
pub open spec fn merged_events(targets: Seq<Target>, event: Event) -> Seq<Event> {
    targets.map_values(|t: Target| t.merge_spec(&event))
}

/// What `cap` becomes under each of `targets`, in their order.
pub open spec fn merged_caps(targets: Seq<Target>, cap: Capability) -> Seq<Capability> {
    targets.map_values(|t: Target| t.merge_cap_spec(&cap))
}

/// The part of `cap` that `key` selects.
pub open spec fn selected_part(key: Key, cap: Capability) -> Capability {
    cap.with_range_spec(key.value.intersect_spec(&cap.value_range))
}

/// The parts of `cap` that `key` leaves alone: the values under the key's
/// range, then those over it.
pub open spec fn untouched_parts(key: Key, cap: Capability) -> Seq<Capability> {
    (match cap.value_range.below_spec(&key.value) {
        Some(range) => seq![cap.with_range_spec(range)],
        None => Seq::empty(),
    }) + (match cap.value_range.above_spec(&key.value) {
        Some(range) => seq![cap.with_range_spec(range)],
        None => Seq::empty(),
    })
}

fn push_merged(targets: &Vec<Target>, event: &Event, out: &mut Vec<Event>)
    ensures
        final(out)@ == old(out)@ + merged_events(targets@, *event),
{
    let mut i: usize = 0;
    while i < targets.len()
        invariant
            i <= targets.len(),
            out@ == old(out)@ + merged_events(targets@, *event).take(i as int),
        decreases targets.len() - i,
    {
        out.push(targets[i].merge(event));
        assert(out@ =~= old(out)@ + merged_events(targets@, *event).take(i + 1));
        i += 1;
    }
    assert(merged_events(targets@, *event).take(targets@.len() as int) =~= merged_events(targets@, *event));
}

fn push_merged_caps(targets: &Vec<Target>, cap: &Capability, out: &mut Vec<Capability>)
    ensures
        final(out)@ == old(out)@ + merged_caps(targets@, *cap),
{
    let mut i: usize = 0;
    while i < targets.len()
        invariant
            i <= targets.len(),
            out@ == old(out)@ + merged_caps(targets@, *cap).take(i as int),
        decreases targets.len() - i,
    {
        out.push(targets[i].merge_cap(cap));
        assert(out@ =~= old(out)@ + merged_caps(targets@, *cap).take(i + 1));
        i += 1;
    }
    assert(merged_caps(targets@, *cap).take(targets@.len() as int) =~= merged_caps(targets@, *cap));
}

fn push_untouched(key: &Key, cap: &Capability, out: &mut Vec<Capability>)
    ensures
        final(out)@ == old(out)@ + untouched_parts(*key, *cap),
{
    match cap.value_range.below(&key.value) {
        Some(range) => {
            out.push(cap.with_range(range));
        },
        None => {},
    }
    match cap.value_range.above(&key.value) {
        Some(range) => {
            out.push(cap.with_range(range));
        },
        None => {},
    }
    assert(out@ =~= old(out)@ + untouched_parts(*key, *cap));
}

/// A filter with a rewrite: an event that the input key matches is replaced
/// by one event per output key, and every other event passes.
pub struct EventMap {
    input_key: Key,
    output_keys: Vec<Target>,
}

pub struct EventMapView {
    pub input_key: Key,
    pub output_keys: Seq<Target>,
}

impl View for EventMap {
    type V = EventMapView;

    closed spec fn view(&self) -> EventMapView {
        EventMapView { input_key: self.input_key, output_keys: self.output_keys@ }
    }
}

impl EventMapView {
    pub open spec fn apply(self, event: Event) -> Seq<Event> {
        if self.input_key.matches_spec(&event) {
            merged_events(self.output_keys, event)
        } else {
            seq![event]
        }
    }

    pub open spec fn apply_to_all(self, events: Seq<Event>) -> Seq<Event> {
        flat_map(events, |e: Event| self.apply(e))
    }

    /// The part of `cap` that the key selects goes through every output
    /// key; the rest of it passes.
    pub open spec fn apply_cap(self, cap: Capability) -> Seq<Capability> {
        if self.input_key.touches_spec(&cap) {
            merged_caps(self.output_keys, selected_part(self.input_key, cap)) + untouched_parts(
                self.input_key,
                cap,
            )
        } else {
            seq![cap]
        }
    }

    pub open spec fn apply_to_all_caps(self, caps: Seq<Capability>) -> Seq<Capability> {
        flat_map(caps, |c: Capability| self.apply_cap(c))
    }
}

impl EventMap {
    pub fn new(input_key: Key, output_keys: Vec<Target>) -> (map: EventMap)
        ensures
            map@ == (EventMapView { input_key, output_keys: output_keys@ }),
    {
        EventMap { input_key, output_keys }
    }

    /// A map that blocks what the key matches.
    pub fn block(input_key: Key) -> (map: EventMap)
        ensures
            map@ == (EventMapView { input_key, output_keys: Seq::empty() }),
    {
        EventMap { input_key, output_keys: Vec::new() }
    }

    pub fn apply(&self, event: &Event, out: &mut Vec<Event>)
        ensures
            final(out)@ == old(out)@ + self@.apply(*event),
    {
        if self.input_key.matches(event) {
            push_merged(&self.output_keys, event, out);
        } else {
            out.push(*event);
            assert(out@ =~= old(out)@ + seq![*event]);
        }
    }

    pub fn apply_to_all(&self, events: &Vec<Event>, out: &mut Vec<Event>)
        ensures
            final(out)@ == old(out)@ + self@.apply_to_all(events@),
    {
        let ghost f = |e: Event| self@.apply(e);
        let mut i: usize = 0;
        assert(events@.take(0) =~= Seq::<Event>::empty());
        assert(old(out)@ + Seq::<Event>::empty() =~= old(out)@);
        while i < events.len()
            invariant
                i <= events.len(),
                f == (|e: Event| self@.apply(e)),
                out@ == old(out)@ + flat_map(events@.take(i as int), f),
            decreases events.len() - i,
        {
            proof {
                lemma_flat_map_take_step(events@, f, i as int);
            }
            self.apply(&events[i], out);
            assert(out@ =~= old(out)@ + flat_map(events@.take(i + 1), f));
            i += 1;
        }
        assert(events@.take(events@.len() as int) =~= events@);
    }

    pub fn apply_to_all_caps(&self, caps: &Vec<Capability>, out: &mut Vec<Capability>)
        ensures
            final(out)@ == old(out)@ + self@.apply_to_all_caps(caps@),
    {
        let ghost f = |c: Capability| self@.apply_cap(c);
        let mut i: usize = 0;
        assert(caps@.take(0) =~= Seq::<Capability>::empty());
        assert(old(out)@ + Seq::<Capability>::empty() =~= old(out)@);
        while i < caps.len()
            invariant
                i <= caps.len(),
                f == (|c: Capability| self@.apply_cap(c)),
                out@ == old(out)@ + flat_map(caps@.take(i as int), f),
            decreases caps.len() - i,
        {
            proof {
                lemma_flat_map_take_step(caps@, f, i as int);
            }
            let cap = caps[i];
            let ghost before = out@;
            if self.input_key.touches(&cap) {
                let shared = cap.with_range(self.input_key.value.intersect(&cap.value_range));
                push_merged_caps(&self.output_keys, &shared, out);
                push_untouched(&self.input_key, &cap, out);
                assert(out@ =~= before + self@.apply_cap(cap));
            } else {
                out.push(cap);
                assert(out@ =~= before + self@.apply_cap(cap));
            }
            assert(out@ =~= old(out)@ + flat_map(caps@.take(i + 1), f));
            i += 1;
        }
        assert(caps@.take(caps@.len() as int) =~= caps@);
    }
}

/// Whether a toggle moves by itself.
#[derive(PartialEq, Eq, Structural, Clone, Copy, Debug)]
pub enum ToggleMode {
    /// Only hooks move the toggle.
    Passive,
    /// Each matching event with value 1 moves the toggle to its next
    /// branch, after the event itself has been mapped.
    Cycle,
}

/// A map with several lists of output keys, the branches. Which branch an
/// event takes is decided by the shared toggle kept under `state_index`.
pub struct Toggle {
    input_key: Key,
    branches: Vec<Vec<Target>>,
    state_index: usize,
    mode: ToggleMode,
}

pub struct ToggleView {
    pub input_key: Key,
    pub branches: Seq<Seq<Target>>,
    pub state_index: usize,
    pub mode: ToggleMode,
}

impl View for Toggle {
    type V = ToggleView;

    closed spec fn view(&self) -> ToggleView {
        ToggleView {
            input_key: self.input_key,
            branches: self.branches@.map_values(|b: Vec<Target>| b@),
            state_index: self.state_index,
            mode: self.mode,
        }
    }
}

/// The events that have left a toggle, and the shared toggles after them.
pub struct ToggleStep {
    pub out: Seq<Event>,
    pub toggles: Seq<ToggleState>,
}

impl ToggleView {
    /// The branch in use, if the shared toggle names one that exists.
    pub open spec fn active_branch(self, toggles: Seq<ToggleState>) -> Option<int> {
        if self.state_index < toggles.len() && toggles[self.state_index as int].value
            < self.branches.len() {
            Some(toggles[self.state_index as int].value as int)
        } else {
            None
        }
    }

    /// A matching event goes through the branch in use, or passes when the
    /// toggle names no branch; then the toggle moves if it cycles and the
    /// event has value 1. Every other event passes.
    pub open spec fn apply(self, acc: ToggleStep, event: Event) -> ToggleStep {
        if self.input_key.matches_spec(&event) {
            ToggleStep {
                out: acc.out + (match self.active_branch(acc.toggles) {
                    Some(b) => merged_events(self.branches[b], event),
                    None => seq![event],
                }),
                toggles: if self.mode == ToggleMode::Cycle && event.value == 1 {
                    advance_toggle(acc.toggles, self.state_index)
                } else {
                    acc.toggles
                },
            }
        } else {
            ToggleStep { out: acc.out.push(event), toggles: acc.toggles }
        }
    }

    pub open spec fn apply_to_all(self, events: Seq<Event>, toggles: Seq<ToggleState>) -> ToggleStep {
        events.fold_left(
            ToggleStep { out: Seq::empty(), toggles },
            |acc: ToggleStep, e: Event| self.apply(acc, e),
        )
    }

    /// The part of `cap` that the key selects goes through every branch,
    /// whatever the position of the toggle; the rest of it passes.
    pub open spec fn apply_cap(self, cap: Capability) -> Seq<Capability> {
        if self.input_key.touches_spec(&cap) {
            flat_map(
                self.branches,
                |b: Seq<Target>| merged_caps(b, selected_part(self.input_key, cap)),
            ) + untouched_parts(self.input_key, cap)
        } else {
            seq![cap]
        }
    }

    pub open spec fn apply_to_all_caps(self, caps: Seq<Capability>) -> Seq<Capability> {
        flat_map(caps, |c: Capability| self.apply_cap(c))
    }
}

impl Toggle {
    pub fn new(input_key: Key, branches: Vec<Vec<Target>>, state_index: usize, mode: ToggleMode) -> (toggle:
        Toggle)
        ensures
            toggle@.input_key == input_key,
            toggle@.branches == branches@.map_values(|b: Vec<Target>| b@),
            toggle@.state_index == state_index,
            toggle@.mode == mode,
    {
        Toggle { input_key, branches, state_index, mode }
    }

    /// How many branches the toggle has.
    pub fn size(&self) -> (n: usize)
        ensures
            n == self@.branches.len(),
    {
        self.branches.len()
    }

    pub fn state_index(&self) -> (index: usize)
        ensures
            index == self@.state_index,
    {
        self.state_index
    }

    pub fn apply_to_all(&self, events: &Vec<Event>, out: &mut Vec<Event>, state: &mut State)
        ensures
            final(out)@ == old(out)@ + self@.apply_to_all(events@, old(state)@).out,
            final(state)@ == self@.apply_to_all(events@, old(state)@).toggles,
    {
        let ghost f = |acc: ToggleStep, e: Event| self@.apply(acc, e);
        let ghost init = ToggleStep { out: Seq::empty(), toggles: old(state)@ };
        let mut i: usize = 0;
        assert(events@.take(0) =~= Seq::<Event>::empty());
        assert(old(out)@ + Seq::<Event>::empty() =~= old(out)@);
        while i < events.len()
            invariant
                i <= events.len(),
                f == (|acc: ToggleStep, e: Event| self@.apply(acc, e)),
                init == (ToggleStep { out: Seq::empty(), toggles: old(state)@ }),
                out@ == old(out)@ + events@.take(i as int).fold_left(init, f).out,
                state@ == events@.take(i as int).fold_left(init, f).toggles,
            decreases events.len() - i,
        {
            proof {
                lemma_fold_left_take_step(events@, init, f, i as int);
            }
            let event = events[i];
            let ghost acc = events@.take(i as int).fold_left(init, f);
            let ghost before = out@;
            if self.input_key.matches(&event) {
                let active = match state.get(self.state_index) {
                    Some(toggle) => if toggle.value < self.branches.len() {
                        Some(toggle.value)
                    } else {
                        None
                    },
                    None => None,
                };
                match active {
                    Some(b) => {
                        push_merged(&self.branches[b], &event, out);
                    },
                    None => {
                        out.push(event);
                        assert(out@ =~= before + seq![event]);
                    },
                }
                if self.mode == ToggleMode::Cycle && event.value == 1 {
                    state.advance(self.state_index);
                }
            } else {
                out.push(event);
            }
            assert(out@ =~= old(out)@ + self@.apply(acc, event).out);
            i += 1;
        }
        assert(events@.take(events@.len() as int) =~= events@);
    }

    pub fn apply_to_all_caps(&self, caps: &Vec<Capability>, out: &mut Vec<Capability>)
        ensures
            final(out)@ == old(out)@ + self@.apply_to_all_caps(caps@),
    {
        let ghost f = |c: Capability| self@.apply_cap(c);
        let mut i: usize = 0;
        assert(caps@.take(0) =~= Seq::<Capability>::empty());
        assert(old(out)@ + Seq::<Capability>::empty() =~= old(out)@);
        while i < caps.len()
            invariant
                i <= caps.len(),
                f == (|c: Capability| self@.apply_cap(c)),
                out@ == old(out)@ + flat_map(caps@.take(i as int), f),
            decreases caps.len() - i,
        {
            proof {
                lemma_flat_map_take_step(caps@, f, i as int);
            }
            let cap = caps[i];
            let ghost before = out@;
            if self.input_key.touches(&cap) {
                let shared = cap.with_range(self.input_key.value.intersect(&cap.value_range));
                let ghost g = |b: Seq<Target>| merged_caps(b, shared);
                let mut k: usize = 0;
                assert(self@.branches.take(0) =~= Seq::<Seq<Target>>::empty());
                assert(before + Seq::<Capability>::empty() =~= before);
                while k < self.branches.len()
                    invariant
                        k <= self.branches.len(),
                        g == (|b: Seq<Target>| merged_caps(b, shared)),
                        out@ == before + flat_map(self@.branches.take(k as int), g),
                    decreases self.branches.len() - k,
                {
                    proof {
                        lemma_flat_map_take_step(self@.branches, g, k as int);
                    }
                    push_merged_caps(&self.branches[k], &shared, out);
                    assert(out@ =~= before + flat_map(self@.branches.take(k + 1), g));
                    k += 1;
                }
                assert(self@.branches.take(self@.branches.len() as int) =~= self@.branches);
                push_untouched(&self.input_key, &cap, out);
                assert(out@ =~= before + self@.apply_cap(cap));
            } else {
                out.push(cap);
                assert(out@ =~= before + self@.apply_cap(cap));
            }
            assert(out@ =~= old(out)@ + flat_map(caps@.take(i + 1), f));
            i += 1;
        }
        assert(caps@.take(caps@.len() as int) =~= caps@);
    }
}

/// Events in the output namespace pass a map as they are.
pub proof fn lemma_map_passes_output(map: EventMapView, events: Seq<Event>)
    requires
        all_output(events),
    ensures
        map.apply_to_all(events) == events,
{
    crate::seq_util::lemma_flat_map_singletons(events, |e: Event| map.apply(e));
}

/// Events in the output namespace pass a toggle as they are and do not
/// move it.
pub proof fn lemma_toggle_passes_output(toggle: ToggleView, events: Seq<Event>, toggles: Seq<ToggleState>)
    requires
        all_output(events),
    ensures
        toggle.apply_to_all(events, toggles) == (ToggleStep { out: events, toggles }),
    decreases events.len(),
{
    if events.len() > 0 {
        lemma_toggle_passes_output(toggle, events.drop_last(), toggles);
        assert(!toggle.input_key.matches_spec(&events.last()));
        assert(events.drop_last().push(events.last()) =~= events);
    } else {
        assert(events =~= Seq::<Event>::empty());
    }
}

/// A map announces what it emits: where `cap` announces an event, the
/// capabilities that the map makes of `cap` announce every event that it
/// makes of that event.
pub proof fn lemma_map_announces(map: EventMapView, cap: Capability, event: Event)
    requires
        cap.covers(event),
    ensures
        announced(map.apply_cap(cap), map.apply(event)),
{
    let caps = map.apply_cap(cap);
    let events = map.apply(event);
    let key = map.input_key;
    if key.matches_spec(&event) {
        let part = selected_part(key, cap);
        let mapped = merged_caps(map.output_keys, part);
        assert(key.value.intersect_spec(&cap.value_range).contains_spec(event.value));
        assert(key.touches_spec(&cap));
        assert(part.covers(event));
        assert(caps == mapped + untouched_parts(key, cap));
        assert forall|k: int| 0 <= k < events.len() implies announces(caps, #[trigger] events[k]) by {
            crate::key::lemma_merge_cap_covers(map.output_keys[k], part, event);
            assert(caps[k] == mapped[k]);
            assert(caps[k].covers(events[k]));
        }
    } else {
        lemma_untouched_event_is_announced(key, cap, event, merged_caps(map.output_keys, selected_part(key, cap)));
    }
}

/// An event that a key does not match is announced by what the key leaves
/// of the capability that announced it.
proof fn lemma_untouched_event_is_announced(key: Key, cap: Capability, event: Event, mapped: Seq<Capability>)
    requires
        cap.covers(event),
        !key.matches_spec(&event),
    ensures
        announced(
            if key.touches_spec(&cap) {
                mapped + untouched_parts(key, cap)
            } else {
                seq![cap]
            },
            seq![event],
        ),
{
    if key.touches_spec(&cap) {
        let rest = untouched_parts(key, cap);
        let caps = mapped + rest;
        if event.value < key.value.min {
            let range = cap.value_range.below_spec(&key.value)->0;
            assert(rest[0] == cap.with_range_spec(range));
            assert(caps[mapped.len() as int] == rest[0]);
            assert(caps[mapped.len() as int].covers(event));
            assert(announces(caps, seq![event][0]));
        } else {
            let range = cap.value_range.above_spec(&key.value)->0;
            assert(rest[rest.len() - 1] == cap.with_range_spec(range));
            assert(caps[caps.len() - 1] == rest[rest.len() - 1]);
            assert(caps[caps.len() - 1].covers(event));
            assert(announces(caps, seq![event][0]));
        }
    } else {
        assert(seq![cap][0].covers(event));
        assert(announces(seq![cap], seq![event][0]));
    }
}

/// Part of a sequence that is made of the results of `f`: the result for
/// the element at place `i` stands in it from place `flat_offset` on.
pub open spec fn flat_offset<A, B>(s: Seq<A>, f: spec_fn(A) -> Seq<B>, i: int) -> int {
    flat_map(s.take(i), f).len() as int
}

proof fn lemma_flat_map_part<A, B>(s: Seq<A>, f: spec_fn(A) -> Seq<B>, i: int, k: int)
    requires
        0 <= i < s.len(),
        0 <= k < f(s[i]).len(),
    ensures
        flat_offset(s, f, i) + k < flat_map(s, f).len(),
        flat_map(s, f)[flat_offset(s, f, i) + k] == f(s[i])[k],
    decreases s.len(),
{
    let front = s.drop_last();
    if i == s.len() - 1 {
        assert(s.take(i) =~= front);
    } else {
        lemma_flat_map_part(front, f, i, k);
        assert(front.take(i) =~= s.take(i));
    }
}

/// A toggle announces what it emits, whatever its position: where the
/// shared toggle names a branch and `cap` announces an event, the
/// capabilities that the toggle makes of `cap` announce every event that
/// it makes of that event.
pub proof fn lemma_toggle_announces(toggle: ToggleView, toggles: Seq<ToggleState>, cap: Capability, event: Event)
    requires
        cap.covers(event),
        toggle.active_branch(toggles) is Some,
    ensures
        announced(
            toggle.apply_cap(cap),
            toggle.apply(ToggleStep { out: Seq::empty(), toggles }, event).out,
        ),
{
    let caps = toggle.apply_cap(cap);
    let events = toggle.apply(ToggleStep { out: Seq::empty(), toggles }, event).out;
    let key = toggle.input_key;
    let part = selected_part(key, cap);
    let f = |b: Seq<Target>| merged_caps(b, part);
    if key.matches_spec(&event) {
        let b = toggle.active_branch(toggles)->0;
        let mapped = flat_map(toggle.branches, f);
        assert(key.value.intersect_spec(&cap.value_range).contains_spec(event.value));
        assert(key.touches_spec(&cap));
        assert(part.covers(event));
        assert(caps == mapped + untouched_parts(key, cap));
        assert(events =~= merged_events(toggle.branches[b], event));
        assert forall|k: int| 0 <= k < events.len() implies announces(caps, #[trigger] events[k]) by {
            lemma_flat_map_part(toggle.branches, f, b, k);
            let j = flat_offset(toggle.branches, f, b) + k;
            crate::key::lemma_merge_cap_covers(toggle.branches[b][k], part, event);
            assert(mapped[j] == toggle.branches[b][k].merge_cap_spec(&part));
            assert(caps[j] == mapped[j]);
            assert(caps[j].covers(events[k]));
        }
    } else {
        assert(events =~= seq![event]);
        lemma_untouched_event_is_announced(key, cap, event, flat_map(toggle.branches, f));
    }
}

impl EventMapView {
    /// The map changes nothing of an event but its value: it splits the
    /// capabilities it is given by value and turns none into a capability
    /// for another code, domain or namespace.
    pub open spec fn splits_by_value(self) -> bool {
        forall|k: int|
            0 <= k < self.output_keys.len() ==> {
                let target = #[trigger] self.output_keys[k];
                target.ev_type is None && target.code is None && target.domain is None && target.namespace is None
            }
    }
}

/// A map that splits by value gives no capability a base that the
/// capabilities it was given did not have.
pub proof fn lemma_splitting_map_keeps_bases(map: EventMapView, caps: Seq<Capability>)
    requires
        map.splits_by_value(),
    ensures
        crate::capability::bases_from(map.apply_to_all_caps(caps), caps),
{
    let f = |c: Capability| map.apply_cap(c);
    let out = map.apply_to_all_caps(caps);
    assert forall|k: int| 0 <= k < out.len() implies crate::capability::has_base(caps, #[trigger] out[k]) by {
        crate::seq_util::lemma_flat_map_members(caps, f, k);
        let (i, j) = choose|i: int, j: int|
            0 <= i < caps.len() && 0 <= j < f(caps[i]).len() && out[k] == #[trigger] f(#[trigger] caps[i])[j];
        let part = map.apply_cap(caps[i]);
        let mapped = merged_caps(map.output_keys, selected_part(map.input_key, caps[i]));
        if map.input_key.touches_spec(&caps[i]) && j < mapped.len() {
            assert(part[j] == mapped[j]);
            assert(map.output_keys[j].ev_type is None);
        }
        assert(part[j].same_base_spec(&caps[i]));
        assert(caps[i].same_base_spec(&out[k]));
    }
}

} // verus!
