//! Keys select events; targets say what a selected event becomes.

use vstd::prelude::*;
use crate::capability::Capability;
use crate::event::{Domain, Event, EventCode, EventType, EventValue, Namespace};
use crate::range::Range;

verus! {

/// A predicate on events. A field that is `None` accepts anything. No key
/// matches an event in the output namespace: what has been captured for an
/// output device is out of reach of every entry of the stream.
#[derive(PartialEq, Eq, Structural, Clone, Copy, Debug)]
pub struct Key {
    pub ev_type: Option<EventType>,
    pub code: Option<EventCode>,
    pub value: Range,
    pub domain: Option<Domain>,
    pub namespace: Namespace,
}

pub open spec fn accepts<T>(wanted: Option<T>, actual: T) -> bool {
    match wanted {
        Some(w) => w == actual,
        None => true,
    }
}

pub open spec fn replaced<T>(wanted: Option<T>, actual: T) -> T {
    match wanted {
        Some(w) => w,
        None => actual,
    }
}

impl Key {
    /// The key matches everything about the event but perhaps its value.
    pub open spec fn matches_channel_spec(&self, event: &Event) -> bool {
        &&& accepts(self.ev_type, event.ev_type)
        &&& accepts(self.code, event.code)
        &&& accepts(self.domain, event.domain)
        &&& self.namespace == event.namespace
        &&& event.namespace != Namespace::Output
    }

    pub open spec fn matches_spec(&self, event: &Event) -> bool {
        self.matches_channel_spec(event) && self.value.contains_spec(event.value)
    }

    /// Some event that `cap` announces may match the key.
    pub open spec fn touches_spec(&self, cap: &Capability) -> bool {
        &&& accepts(self.ev_type, cap.ev_type)
        &&& accepts(self.code, cap.code)
        &&& accepts(self.domain, cap.domain)
        &&& self.namespace == cap.namespace
        &&& cap.namespace != Namespace::Output
        &&& !self.value.intersect_spec(&cap.value_range).is_empty_spec()
    }

    /// A key for `(ev_type, code)` with any value, on any domain.
    pub fn for_code(ev_type: EventType, code: EventCode, namespace: Namespace) -> (key: Key)
        ensures
            key == (Key {
                ev_type: Some(ev_type),
                code: Some(code),
                value: Range::full(),
                domain: None,
                namespace,
            }),
    {
        Key { ev_type: Some(ev_type), code: Some(code), value: Range::everything(), domain: None, namespace }
    }

    /// A key that every event of `namespace` matches, unless that is the
    /// output namespace.
    pub fn any(namespace: Namespace) -> (key: Key)
        ensures
            key == (Key { ev_type: None, code: None, value: Range::full(), domain: None, namespace }),
            namespace != Namespace::Output ==> forall|e: Event| e.namespace == namespace ==> key.matches_spec(&e),
    {
        Key { ev_type: None, code: None, value: Range::everything(), domain: None, namespace }
    }

    #[verifier::when_used_as_spec(matches_channel_spec)]
    pub fn matches_channel(&self, event: &Event) -> (r: bool)
        ensures
            r == self.matches_channel_spec(event),
    {
        (match self.ev_type {
            Some(t) => t == event.ev_type,
            None => true,
        }) && (match self.code {
            Some(c) => c == event.code,
            None => true,
        }) && (match self.domain {
            Some(d) => d == event.domain,
            None => true,
        }) && self.namespace == event.namespace && event.namespace != Namespace::Output
    }

    #[verifier::when_used_as_spec(matches_spec)]
    pub fn matches(&self, event: &Event) -> (r: bool)
        ensures
            r == self.matches_spec(event),
    {
        self.matches_channel(event) && self.value.contains(event.value)
    }

    #[verifier::when_used_as_spec(touches_spec)]
    pub fn touches(&self, cap: &Capability) -> (r: bool)
        ensures
            r == self.touches_spec(cap),
            (exists|e: Event| cap.covers(e) && self.matches_spec(&e)) <==> r,
    {
        let r = (match self.ev_type {
            Some(t) => t == cap.ev_type,
            None => true,
        }) && (match self.code {
            Some(c) => c == cap.code,
            None => true,
        }) && (match self.domain {
            Some(d) => d == cap.domain,
            None => true,
        }) && self.namespace == cap.namespace && cap.namespace != Namespace::Output
            && !self.value.intersect(&cap.value_range).is_empty();
        proof {
            if r {
                let shared = self.value.intersect_spec(&cap.value_range);
                let witness = Event {
                    ev_type: cap.ev_type,
                    code: cap.code,
                    value: shared.min,
                    previous_value: 0,
                    domain: cap.domain,
                    namespace: cap.namespace,
                };
                assert(cap.covers(witness) && self.matches_spec(&witness));
            }
        }
        r
    }
}

/// Whether one of `keys` matches `event`.
pub open spec fn any_matches(keys: Seq<Key>, event: Event) -> bool {
    exists|i: int| 0 <= i < keys.len() && (#[trigger] keys[i]).matches_spec(&event)
}

/// Whether one of `keys` matches `event` in all but perhaps its value.
pub open spec fn any_matches_channel(keys: Seq<Key>, event: Event) -> bool {
    exists|i: int| 0 <= i < keys.len() && (#[trigger] keys[i]).matches_channel_spec(&event)
}

pub fn keys_match(keys: &Vec<Key>, event: &Event) -> (r: bool)
    ensures
        r == any_matches(keys@, *event),
{
    let mut i: usize = 0;
    while i < keys.len()
        invariant
            i <= keys.len(),
            forall|j: int| 0 <= j < i ==> !(#[trigger] keys@[j]).matches_spec(event),
        decreases keys.len() - i,
    {
        if keys[i].matches(event) {
            return true;
        }
        i += 1;
    }
    false
}

pub fn keys_match_channel(keys: &Vec<Key>, event: &Event) -> (r: bool)
    ensures
        r == any_matches_channel(keys@, *event),
{
    let mut i: usize = 0;
    while i < keys.len()
        invariant
            i <= keys.len(),
            forall|j: int| 0 <= j < i ==> !(#[trigger] keys@[j]).matches_channel_spec(event),
        decreases keys.len() - i,
    {
        if keys[i].matches_channel(event) {
            return true;
        }
        i += 1;
    }
    false
}

/// What becomes of the value of a selected event.
#[derive(PartialEq, Eq, Structural, Clone, Copy, Debug)]
pub enum ValueRule {
    /// The value stays.
    Keep,
    /// The value becomes the given one.
    Fixed(EventValue),
    /// The value moves to the nearest one inside the range; an empty range
    /// leaves it alone.
    Clamp(Range),
}

impl ValueRule {
    pub open spec fn apply_spec(&self, value: EventValue) -> EventValue {
        match *self {
            ValueRule::Keep => value,
            ValueRule::Fixed(v) => v,
            ValueRule::Clamp(r) => if r.is_empty_spec() { value } else { r.bound_spec(value) },
        }
    }

    /// The values that come out when any value of `range` may go in.
    pub open spec fn apply_range_spec(&self, range: &Range) -> Range {
        match *self {
            ValueRule::Keep => *range,
            ValueRule::Fixed(v) => Range { min: v, max: v },
            ValueRule::Clamp(r) => if r.is_empty_spec() || range.is_empty_spec() {
                *range
            } else {
                Range { min: r.bound_spec(range.min), max: r.bound_spec(range.max) }
            },
        }
    }

    #[verifier::when_used_as_spec(apply_spec)]
    pub fn apply(&self, value: EventValue) -> (r: EventValue)
        ensures
            r == self.apply_spec(value),
    {
        match *self {
            ValueRule::Keep => value,
            ValueRule::Fixed(v) => v,
            ValueRule::Clamp(r) => if r.is_empty() { value } else { r.bound(value) },
        }
    }

    #[verifier::when_used_as_spec(apply_range_spec)]
    pub fn apply_range(&self, range: &Range) -> (r: Range)
        ensures
            r == self.apply_range_spec(range),
            forall|v: EventValue| range.contains_spec(v) ==> r.contains_spec(self.apply_spec(v)),
    {
        match *self {
            ValueRule::Keep => *range,
            ValueRule::Fixed(v) => Range::single(v),
            ValueRule::Clamp(r) => if r.is_empty() || range.is_empty() {
                *range
            } else {
                Range::new(r.bound(range.min), r.bound(range.max))
            },
        }
    }
}

/// What a selected event is turned into. A field that is `None` leaves that
/// part of the event as it was.
#[derive(PartialEq, Eq, Structural, Clone, Copy, Debug)]
pub struct Target {
    pub ev_type: Option<EventType>,
    pub code: Option<EventCode>,
    pub value: ValueRule,
    pub domain: Option<Domain>,
    pub namespace: Option<Namespace>,
}

impl Target {
    pub open spec fn merge_spec(&self, event: &Event) -> Event {
        Event {
            ev_type: replaced(self.ev_type, event.ev_type),
            code: replaced(self.code, event.code),
            value: self.value.apply_spec(event.value),
            previous_value: event.previous_value,
            domain: replaced(self.domain, event.domain),
            namespace: replaced(self.namespace, event.namespace),
        }
    }

    pub open spec fn merge_cap_spec(&self, cap: &Capability) -> Capability {
        Capability {
            ev_type: replaced(self.ev_type, cap.ev_type),
            code: replaced(self.code, cap.code),
            domain: replaced(self.domain, cap.domain),
            namespace: replaced(self.namespace, cap.namespace),
            value_range: self.value.apply_range_spec(&cap.value_range),
            abs_info: cap.abs_info,
            rep_info: cap.rep_info,
        }
    }

    /// The target that changes nothing.
    pub fn identity() -> (target: Target)
        ensures
            target == (Target { ev_type: None, code: None, value: ValueRule::Keep, domain: None, namespace: None }),
            forall|e: Event| target.merge_spec(&e) == e,
    {
        Target { ev_type: None, code: None, value: ValueRule::Keep, domain: None, namespace: None }
    }

    /// The target that moves an event to `namespace` and changes nothing else.
    pub fn to_namespace(namespace: Namespace) -> (target: Target)
        ensures
            target == (Target {
                ev_type: None,
                code: None,
                value: ValueRule::Keep,
                domain: None,
                namespace: Some(namespace),
            }),
            forall|e: Event| target.merge_spec(&e) == (Event { namespace, ..e }),
    {
        Target { ev_type: None, code: None, value: ValueRule::Keep, domain: None, namespace: Some(namespace) }
    }

    /// The event that `event` becomes.
    #[verifier::when_used_as_spec(merge_spec)]
    pub fn merge(&self, event: &Event) -> (r: Event)
        ensures
            r == self.merge_spec(event),
    {
        Event {
            ev_type: match self.ev_type {
                Some(t) => t,
                None => event.ev_type,
            },
            code: match self.code {
                Some(c) => c,
                None => event.code,
            },
            value: self.value.apply(event.value),
            previous_value: event.previous_value,
            domain: match self.domain {
                Some(d) => d,
                None => event.domain,
            },
            namespace: match self.namespace {
                Some(n) => n,
                None => event.namespace,
            },
        }
    }

    /// The capability that announces what the events of `cap` become.
    #[verifier::when_used_as_spec(merge_cap_spec)]
    pub fn merge_cap(&self, cap: &Capability) -> (r: Capability)
        ensures
            r == self.merge_cap_spec(cap),
            forall|e: Event| cap.covers(e) ==> r.covers(#[trigger] self.merge_spec(&e)),
    {
        Capability {
            ev_type: match self.ev_type {
                Some(t) => t,
                None => cap.ev_type,
            },
            code: match self.code {
                Some(c) => c,
                None => cap.code,
            },
            domain: match self.domain {
                Some(d) => d,
                None => cap.domain,
            },
            namespace: match self.namespace {
                Some(n) => n,
                None => cap.namespace,
            },
            value_range: self.value.apply_range(&cap.value_range),
            abs_info: cap.abs_info,
            rep_info: cap.rep_info,
        }
    }
}

/// The capability that a target makes of `cap` announces the event that it
/// makes of an event that `cap` announces.
pub proof fn lemma_merge_cap_covers(target: Target, cap: Capability, event: Event)
    requires
        cap.covers(event),
    ensures
        target.merge_cap_spec(&cap).covers(target.merge_spec(&event)),
{
}

} // verus!
