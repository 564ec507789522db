//! What the stream entries share while events flow: the positions of the
//! toggles, and the effects that the caller is to carry out.

use vstd::prelude::*;
use crate::event::Event;
use crate::loopback::{HandleView, Instant, Wakeup};

verus! {

/// The position of one toggle: `value` is the branch in use, of `size`.
#[derive(PartialEq, Eq, Structural, Clone, Copy, Debug)]
pub struct ToggleState {
    pub value: usize,
    pub size: usize,
}

/// How a printed event is to look.
#[derive(PartialEq, Eq, Structural, Clone, Copy, Debug)]
pub enum PrintFormat {
    /// With the names of type and code.
    Default,
    /// With the numbers as the kernel has them.
    Direct,
}

/// Something the stream wants done that only its caller can do.
#[derive(PartialEq, Eq, Structural, Clone, Copy, Debug)]
pub enum Effect {
    /// Show the event to the user.
    Print { event: Event, format: PrintFormat },
    /// Start the command that the caller keeps under this number.
    Spawn { command: u32 },
}

/// The next position of a toggle: one further, and from the last branch
/// back to the first.
pub open spec fn advanced(toggle: ToggleState) -> ToggleState {
    if toggle.size > 0 && toggle.value + 1 < toggle.size {
        ToggleState { value: (toggle.value + 1) as usize, size: toggle.size }
    } else {
        ToggleState { value: 0, size: toggle.size }
    }
}

pub open spec fn advance_toggle(toggles: Seq<ToggleState>, index: usize) -> Seq<ToggleState> {
    if index < toggles.len() {
        toggles.update(index as int, advanced(toggles[index as int]))
    } else {
        toggles
    }
}

pub open spec fn set_toggle(toggles: Seq<ToggleState>, index: usize, value: usize) -> Seq<ToggleState> {
    if index < toggles.len() && value < toggles[index as int].size {
        toggles.update(index as int, ToggleState { value, size: toggles[index as int].size })
    } else {
        toggles
    }
}

/// The state that several stream entries read and change.
pub struct State {
    toggles: Vec<ToggleState>,
}

impl View for State {
    type V = Seq<ToggleState>;

    closed spec fn view(&self) -> Seq<ToggleState> {
        self.toggles@
    }
}

impl State {
    pub fn new() -> (state: State)
        ensures
            state@ == Seq::<ToggleState>::empty(),
    {
        State { toggles: Vec::new() }
    }

    /// Adds a toggle with `size` branches that stands at its first branch,
    /// and hands back the number under which the toggle is kept.
    pub fn add_toggle(&mut self, size: usize) -> (index: usize)
        ensures
            index == old(self)@.len(),
            final(self)@ == old(self)@.push(ToggleState { value: 0, size }),
    {
        let index = self.toggles.len();
        self.toggles.push(ToggleState { value: 0, size });
        index
    }

    pub fn len(&self) -> (n: usize)
        ensures
            n == self@.len(),
    {
        self.toggles.len()
    }

    /// The position of the toggle kept under `index`.
    pub fn get(&self, index: usize) -> (toggle: Option<ToggleState>)
        ensures
            toggle == if index < self@.len() { Some(self@[index as int]) } else { None },
    {
        if index < self.toggles.len() {
            Some(self.toggles[index])
        } else {
            None
        }
    }

    /// Moves the toggle kept under `index` to its next branch.
    pub fn advance(&mut self, index: usize)
        ensures
            final(self)@ == advance_toggle(old(self)@, index),
    {
        if index < self.toggles.len() {
            let toggle = self.toggles[index];
            let next = if toggle.size > 0 && toggle.value < toggle.size - 1 {
                ToggleState { value: toggle.value + 1, size: toggle.size }
            } else {
                ToggleState { value: 0, size: toggle.size }
            };
            self.toggles.set(index, next);
        }
    }

    /// Moves the toggle kept under `index` to the branch `value`, if it has
    /// such a branch.
    pub fn set(&mut self, index: usize, value: usize)
        ensures
            final(self)@ == set_toggle(old(self)@, index, value),
    {
        if index < self.toggles.len() {
            let toggle = self.toggles[index];
            if value < toggle.size {
                self.toggles.set(index, ToggleState { value, size: toggle.size });
            }
        }
    }
}

/// All that a pass through the stream reads and changes besides the entries
/// themselves.
pub struct Ctx {
    pub toggles: Seq<ToggleState>,
    pub now: Instant,
    pub scheduled: Seq<Wakeup>,
    pub effects: Seq<Effect>,
}

pub open spec fn ctx_of(toggles: Seq<ToggleState>, handle: HandleView, effects: Seq<Effect>) -> Ctx {
    Ctx { toggles, now: handle.now, scheduled: handle.scheduled, effects }
}

/// `later` begins with `earlier`, and what follows is due after `now`.
pub open spec fn later_wakeups(earlier: Seq<Wakeup>, later: Seq<Wakeup>, now: Instant) -> bool {
    &&& earlier.len() <= later.len()
    &&& later.take(earlier.len() as int) == earlier
    &&& forall|k: int| earlier.len() <= k < later.len() ==> (#[trigger] later[k]).instant > now
}

impl Ctx {
    /// `later` has the clock of `self` and its wake-ups, and after them only
    /// wake-ups for later than that clock.
    pub open spec fn extended_by(self, later: Ctx) -> bool {
        &&& later.now == self.now
        &&& later_wakeups(self.scheduled, later.scheduled, self.now)
    }
}

/// Scheduling for later twice over is scheduling for later.
pub proof fn lemma_later_wakeups_trans(a: Seq<Wakeup>, b: Seq<Wakeup>, c: Seq<Wakeup>, now: Instant)
    requires
        later_wakeups(a, b, now),
        later_wakeups(b, c, now),
    ensures
        later_wakeups(a, c, now),
{
    assert(c.take(a.len() as int) =~= b.take(a.len() as int)) by {
        assert forall|k: int| 0 <= k < a.len() implies c.take(a.len() as int)[k] == b.take(a.len() as int)[k] by {
            assert(c.take(b.len() as int)[k] == b[k]);
        }
    }
    assert forall|k: int| a.len() <= k < c.len() implies (#[trigger] c[k]).instant > now by {
        if k < b.len() {
            assert(c.take(b.len() as int)[k] == b[k]);
        }
    }
}

pub proof fn lemma_later_wakeups_refl(a: Seq<Wakeup>, now: Instant)
    ensures
        later_wakeups(a, a, now),
{
    assert(a.take(a.len() as int) =~= a);
}

/// One more wake-up, for later than `now`, is scheduling for later.
pub proof fn lemma_later_wakeups_push(a: Seq<Wakeup>, wakeup: Wakeup, now: Instant)
    requires
        wakeup.instant > now,
    ensures
        later_wakeups(a, a.push(wakeup), now),
{
    assert(a.push(wakeup).take(a.len() as int) =~= a);
}

} // verus!
