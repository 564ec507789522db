//! The event model: what a device emitted, tagged with where it belongs.

use vstd::prelude::*;

verus! {

/// Kernel event type, e.g. key, relative axis, absolute axis.
pub type EventType = u16;

/// Kernel event code within a type.
pub type EventCode = u16;

pub type EventValue = i32;

/// Tag that names the logical source an event belongs to.
pub type Domain = u32;

pub const EV_SYN: EventType = 0x00;

pub const EV_KEY: EventType = 0x01;

pub const EV_REL: EventType = 0x02;

pub const EV_ABS: EventType = 0x03;

pub const EV_MSC: EventType = 0x04;

pub const EV_REP: EventType = 0x14;

pub const SYN_REPORT: EventCode = 0;

/// First and last code of the multi-touch block of absolute axes.
pub const ABS_MT_FIRST: EventCode = 0x2f;

pub const ABS_MT_LAST: EventCode = 0x3d;

/// Namespaces gate the phases of the pipeline. They resemble domains, but no
/// filter written by a user can reach across them.
#[derive(PartialEq, Eq, Structural, Clone, Copy, Hash, Debug)]
pub enum Namespace {
    /// Came from an input device and has not entered the processing stream yet.
    Input,
    /// Is in the processing stream.
    User,
    /// Was injected by a map; only entries that deliver to outputs act on it.
    Yielded,
    /// Was captured for an output device; no entry touches it anymore.
    Output,
}

#[derive(PartialEq, Eq, Structural, Clone, Copy, Debug)]
pub struct Event {
    pub ev_type: EventType,
    pub code: EventCode,
    pub value: EventValue,
    /// The value this event had the last time it was emitted by a device.
    pub previous_value: EventValue,
    pub domain: Domain,
    pub namespace: Namespace,
}

pub open spec fn is_abs_mt_spec(ev_type: EventType, code: EventCode) -> bool {
    ev_type == EV_ABS && ABS_MT_FIRST <= code <= ABS_MT_LAST
}

/// Whether `(ev_type, code)` is one of the multi-touch absolute axes.
pub fn is_abs_mt(ev_type: EventType, code: EventCode) -> (r: bool)
    ensures
        r == is_abs_mt_spec(ev_type, code),
{
    ev_type == EV_ABS && ABS_MT_FIRST <= code && code <= ABS_MT_LAST
}

impl Event {
    pub fn new(
        ev_type: EventType,
        code: EventCode,
        value: EventValue,
        previous_value: EventValue,
        domain: Domain,
        namespace: Namespace,
    ) -> (event: Event)
        ensures
            event == (Event { ev_type, code, value, previous_value, domain, namespace }),
    {
        Event { ev_type, code, value, previous_value, domain, namespace }
    }

    /// The same event on another domain.
    pub fn with_domain(self, new_domain: Domain) -> (event: Event)
        ensures
            event == (Event { domain: new_domain, ..self }),
    {
        let mut event = self;
        event.domain = new_domain;
        event
    }

    /// The same event in another namespace.
    pub fn with_namespace(self, namespace: Namespace) -> (event: Event)
        ensures
            event == (Event { namespace, ..self }),
    {
        let mut event = self;
        event.namespace = namespace;
        event
    }

    pub open spec fn is_syn_spec(&self) -> bool {
        self.ev_type == EV_SYN && self.code == SYN_REPORT
    }

    /// Whether this is the event that ends a report. The other
    /// synchronisation events of the kernel end none.
    #[verifier::when_used_as_spec(is_syn_spec)]
    pub fn is_syn(&self) -> (r: bool)
        ensures
            r == self.is_syn_spec(),
    {
        self.ev_type == EV_SYN && self.code == SYN_REPORT
    }

    pub open spec fn is_key_spec(&self) -> bool {
        self.ev_type == EV_KEY
    }

    #[verifier::when_used_as_spec(is_key_spec)]
    pub fn is_key(&self) -> (r: bool)
        ensures
            r == self.is_key_spec(),
    {
        self.ev_type == EV_KEY
    }
}

/// The events of `events` that sit in the output namespace, in order.
pub open spec fn output_events(events: Seq<Event>) -> Seq<Event> {
    events.filter(|e: Event| e.namespace == Namespace::Output)
}

/// Every event is in the output namespace.
pub open spec fn all_output(events: Seq<Event>) -> bool {
    forall|i: int| 0 <= i < events.len() ==> (#[trigger] events[i]).namespace == Namespace::Output
}

/// Appends a copy of `events` to `out`.
pub fn push_all(out: &mut Vec<Event>, events: &Vec<Event>)
    ensures
        final(out)@ == old(out)@ + events@,
{
    let mut i: usize = 0;
    assert(old(out)@ + events@.take(0) =~= old(out)@);
    while i < events.len()
        invariant
            i <= events.len(),
            out@ == old(out)@ + events@.take(i as int),
        decreases events.len() - i,
    {
        out.push(events[i]);
        assert(out@ =~= old(out)@ + events@.take(i + 1));
        i += 1;
    }
    assert(events@.take(events@.len() as int) =~= events@);
}

} // verus!
