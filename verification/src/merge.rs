//! Merging turns the same code on several devices into one logical stream
//! on a domain of its own.

use vstd::prelude::*;
use crate::event::{Domain, Event, EventCode, EventType, EventValue};
use crate::key::{any_matches, keys_match, Key};
use crate::seq_util::lemma_fold_left_take_step;

verus! {

/// For one code: the device that was active last, and the value that the
/// merged stream last carried.
#[derive(PartialEq, Eq, Structural, Clone, Copy, Debug)]
pub struct MergeRecord {
    pub ev_type: EventType,
    pub code: EventCode,
    pub domain: Domain,
    pub value: EventValue,
}

/// Where the first record for `(ev_type, code)` at or after `start` stands;
/// the length of `records` when there is none.
pub open spec fn find_record(records: Seq<MergeRecord>, ev_type: EventType, code: EventCode, start: int) -> int
    decreases records.len() - start,
{
    if start < 0 || start >= records.len() {
        records.len() as int
    } else if records[start].ev_type == ev_type && records[start].code == code {
        start
    } else {
        find_record(records, ev_type, code, start + 1)
    }
}

/// Events that a key matches are moved to `merged_domain`, whatever device
/// they came from. Each carries as its previous value the value that the
/// merged stream had for its code, so that the merged events read as the
/// events of one device.
pub struct Merge {
    keys: Vec<Key>,
    merged_domain: Domain,
    records: Vec<MergeRecord>,
}

pub struct MergeView {
    pub keys: Seq<Key>,
    pub merged_domain: Domain,
    pub records: Seq<MergeRecord>,
}

impl View for Merge {
    type V = MergeView;

    closed spec fn view(&self) -> MergeView {
        MergeView { keys: self.keys@, merged_domain: self.merged_domain, records: self.records@ }
    }
}

pub struct MergeStep {
    pub entry: MergeView,
    pub out: Seq<Event>,
}

impl MergeView {
    /// The record for `(ev_type, code)`, if the code has been seen.
    pub open spec fn record(self, ev_type: EventType, code: EventCode) -> Option<MergeRecord> {
        let at = find_record(self.records, ev_type, code, 0);
        if at < self.records.len() {
            Some(self.records[at])
        } else {
            None
        }
    }

    /// The value that the merged stream last carried for the code; zero
    /// before its first event.
    pub open spec fn last_value(self, ev_type: EventType, code: EventCode) -> EventValue {
        match self.record(ev_type, code) {
            Some(r) => r.value,
            None => 0,
        }
    }

    /// The event as it appears on the merged stream.
    pub open spec fn merged(self, event: Event) -> Event {
        Event {
            domain: self.merged_domain,
            previous_value: self.last_value(event.ev_type, event.code),
            ..event
        }
    }

    /// The records once `event` has been the last word on its code.
    pub open spec fn noted(self, event: Event) -> Seq<MergeRecord> {
        let record = MergeRecord {
            ev_type: event.ev_type,
            code: event.code,
            domain: event.domain,
            value: event.value,
        };
        let at = find_record(self.records, event.ev_type, event.code, 0);
        if at < self.records.len() {
            self.records.update(at, record)
        } else {
            self.records.push(record)
        }
    }

    pub open spec fn apply(self, event: Event) -> MergeStep {
        if any_matches(self.keys, event) {
            MergeStep { entry: MergeView { records: self.noted(event), ..self }, out: seq![self.merged(event)] }
        } else {
            MergeStep { entry: self, out: seq![event] }
        }
    }

    pub open spec fn apply_to_all(self, events: Seq<Event>) -> MergeStep {
        events.fold_left(
            MergeStep { entry: self, out: Seq::empty() },
            |acc: MergeStep, e: Event|
                MergeStep { entry: acc.entry.apply(e).entry, out: acc.out + acc.entry.apply(e).out },
        )
    }
}

/// What the merged stream carries for a code follows from its last event.
pub proof fn lemma_merged_stream_is_coherent(merge: MergeView, first: Event, second: Event)
    requires
        any_matches(merge.keys, first),
        any_matches(merge.keys, second),
        first.ev_type == second.ev_type,
        first.code == second.code,
    ensures
        merge.apply(first).entry.apply(second).out[0].previous_value == first.value,
        merge.apply(first).entry.apply(second).out[0].domain == merge.merged_domain,
        merge.apply(first).entry.record(first.ev_type, first.code) matches Some(r) && r.domain
            == first.domain,
{
    let at = find_record(merge.records, first.ev_type, first.code, 0);
    let noted = merge.noted(first);
    lemma_find_record(merge.records, first.ev_type, first.code, 0);
    assert forall|k: int| 0 <= k < at implies !((#[trigger] noted[k]).ev_type == first.ev_type
        && noted[k].code == first.code) by {
        assert(noted[k] == merge.records[k]);
    }
    lemma_find_record_is(noted, first.ev_type, first.code, at);
}

/// `find_record` finds the first record of the code, if there is one.
pub proof fn lemma_find_record(records: Seq<MergeRecord>, ev_type: EventType, code: EventCode, start: int)
    requires
        0 <= start <= records.len(),
    ensures
        ({
            let at = find_record(records, ev_type, code, start);
            &&& start <= at <= records.len()
            &&& at < records.len() ==> records[at].ev_type == ev_type && records[at].code == code
            &&& forall|k: int|
                start <= k < at ==> !((#[trigger] records[k]).ev_type == ev_type && records[k].code == code)
        }),
    decreases records.len() - start,
{
    if start < records.len() && !(records[start].ev_type == ev_type && records[start].code == code) {
        lemma_find_record(records, ev_type, code, start + 1);
    }
}

/// The first record of a code is where no earlier record is of that code.
pub proof fn lemma_find_record_is(records: Seq<MergeRecord>, ev_type: EventType, code: EventCode, at: int)
    requires
        0 <= at <= records.len(),
        at < records.len() ==> records[at].ev_type == ev_type && records[at].code == code,
        forall|k: int| 0 <= k < at ==> !((#[trigger] records[k]).ev_type == ev_type && records[k].code == code),
    ensures
        find_record(records, ev_type, code, 0) == at,
{
    lemma_find_record(records, ev_type, code, 0);
    let found = find_record(records, ev_type, code, 0);
    if found < at {
        assert(records[found].ev_type == ev_type);
    }
}

impl Merge {
    pub fn new(keys: Vec<Key>, merged_domain: Domain) -> (merge: Merge)
        ensures
            merge@ == (MergeView { keys: keys@, merged_domain, records: Seq::empty() }),
    {
        Merge { keys, merged_domain, records: Vec::new() }
    }

    fn find(&self, ev_type: EventType, code: EventCode) -> (at: usize)
        ensures
            at as int == find_record(self@.records, ev_type, code, 0),
            at <= self@.records.len(),
    {
        let mut at: usize = 0;
        while at < self.records.len() && !(self.records[at].ev_type == ev_type && self.records[at].code
            == code)
            invariant
                at <= self.records.len(),
                forall|k: int|
                    0 <= k < at ==> !((#[trigger] self.records@[k]).ev_type == ev_type
                        && self.records@[k].code == code),
            decreases self.records.len() - at,
        {
            at += 1;
        }
        proof {
            lemma_find_record_is(self.records@, ev_type, code, at as int);
        }
        at
    }

    /// The device that was last active on `(ev_type, code)`.
    pub fn last_active(&self, ev_type: EventType, code: EventCode) -> (domain: Option<Domain>)
        ensures
            domain == match self@.record(ev_type, code) {
                Some(r) => Some(r.domain),
                None => None,
            },
    {
        let at = self.find(ev_type, code);
        if at < self.records.len() {
            Some(self.records[at].domain)
        } else {
            None
        }
    }

    pub fn apply(&mut self, event: &Event, out: &mut Vec<Event>)
        ensures
            final(self)@ == old(self)@.apply(*event).entry,
            final(out)@ == old(out)@ + old(self)@.apply(*event).out,
    {
        if keys_match(&self.keys, event) {
            let at = self.find(event.ev_type, event.code);
            let record = MergeRecord {
                ev_type: event.ev_type,
                code: event.code,
                domain: event.domain,
                value: event.value,
            };
            let previous_value = if at < self.records.len() {
                self.records[at].value
            } else {
                0
            };
            if at < self.records.len() {
                self.records.set(at, record);
            } else {
                self.records.push(record);
            }
            out.push(
                Event {
                    ev_type: event.ev_type,
                    code: event.code,
                    value: event.value,
                    previous_value,
                    domain: self.merged_domain,
                    namespace: event.namespace,
                },
            );
            assert(out@ =~= old(out)@ + old(self)@.apply(*event).out);
        } else {
            out.push(*event);
            assert(out@ =~= old(out)@ + old(self)@.apply(*event).out);
        }
    }

    pub fn apply_to_all(&mut self, events: &Vec<Event>, out: &mut Vec<Event>)
        ensures
            final(self)@ == old(self)@.apply_to_all(events@).entry,
            final(out)@ == old(out)@ + old(self)@.apply_to_all(events@).out,
    {
        let ghost f = |acc: MergeStep, e: Event|
            MergeStep { entry: acc.entry.apply(e).entry, out: acc.out + acc.entry.apply(e).out };
        let ghost init = MergeStep { entry: old(self)@, out: Seq::empty() };
        let mut i: usize = 0;
        assert(events@.take(0) =~= Seq::<Event>::empty());
        assert(old(out)@ + Seq::<Event>::empty() =~= old(out)@);
        while i < events.len()
            invariant
                i <= events.len(),
                f == (|acc: MergeStep, e: Event|
                    MergeStep { entry: acc.entry.apply(e).entry, out: acc.out + acc.entry.apply(e).out }),
                init == (MergeStep { entry: old(self)@, out: Seq::empty() }),
                self@ == events@.take(i as int).fold_left(init, f).entry,
                out@ == old(out)@ + events@.take(i as int).fold_left(init, f).out,
            decreases events.len() - i,
        {
            proof {
                lemma_fold_left_take_step(events@, init, f, i as int);
            }
            let ghost acc = events@.take(i as int).fold_left(init, f);
            self.apply(&events[i], out);
            assert(out@ =~= old(out)@ + (acc.out + acc.entry.apply(events@[i as int]).out));
            i += 1;
        }
        assert(events@.take(events@.len() as int) =~= events@);
    }
}

/// Events change what a merge remembers, never what it was made to do.
pub proof fn lemma_merge_apply_to_all(merge: MergeView, events: Seq<Event>)
    ensures
        merge.apply_to_all(events).entry.keys == merge.keys,
        merge.apply_to_all(events).entry.merged_domain == merge.merged_domain,
    decreases events.len(),
{
    if events.len() > 0 {
        lemma_merge_apply_to_all(merge, events.drop_last());
    }
}

/// Events in the output namespace pass a merge as they are and leave no
/// trace in it.
pub proof fn lemma_merge_passes_output(merge: MergeView, events: Seq<Event>)
    requires
        crate::event::all_output(events),
    ensures
        merge.apply_to_all(events) == (MergeStep { entry: merge, out: events }),
    decreases events.len(),
{
    if events.len() > 0 {
        lemma_merge_passes_output(merge, events.drop_last());
        assert(!any_matches(merge.keys, events.last()));
        assert(events.drop_last() + seq![events.last()] =~= events);
    } else {
        assert(events =~= Seq::<Event>::empty());
    }
}

} // verus!
