//! Printers watch the stream and change nothing in it.

use vstd::prelude::*;
use crate::event::Event;
use crate::key::{any_matches, keys_match, Key};
use crate::seq_util::lemma_filter_take_step;
use crate::state::{Effect, PrintFormat};

verus! {

/// Asks for every event that one of its keys matches to be shown.
pub struct EventPrinter {
    keys: Vec<Key>,
    format: PrintFormat,
}

pub struct EventPrinterView {
    pub keys: Seq<Key>,
    pub format: PrintFormat,
}

impl View for EventPrinter {
    type V = EventPrinterView;

    closed spec fn view(&self) -> EventPrinterView {
        EventPrinterView { keys: self.keys@, format: self.format }
    }
}

impl EventPrinterView {
    /// One print request per matching event, in the order of the events.
    pub open spec fn printed(self, events: Seq<Event>) -> Seq<Effect> {
        events.filter(|e: Event| any_matches(self.keys, e)).map_values(
            |e: Event| Effect::Print { event: e, format: self.format },
        )
    }
}

impl EventPrinter {
    pub fn new(keys: Vec<Key>, format: PrintFormat) -> (printer: EventPrinter)
        ensures
            printer@ == (EventPrinterView { keys: keys@, format }),
    {
        EventPrinter { keys, format }
    }

    pub fn apply_to_all(&self, events: &Vec<Event>, effects: &mut Vec<Effect>)
        ensures
            final(effects)@ == old(effects)@ + self@.printed(events@),
    {
        let ghost wanted = |e: Event| any_matches(self@.keys, e);
        let ghost show = |e: Event| Effect::Print { event: e, format: self@.format };
        let mut i: usize = 0;
        proof {
            crate::seq_util::lemma_filter_empty(wanted);
            assert(events@.take(0) =~= Seq::<Event>::empty());
            assert(old(effects)@ + Seq::<Event>::empty().map_values(show) =~= old(effects)@);
        }
        while i < events.len()
            invariant
                i <= events.len(),
                wanted == (|e: Event| any_matches(self@.keys, e)),
                show == (|e: Event| Effect::Print { event: e, format: self@.format }),
                effects@ == old(effects)@ + events@.take(i as int).filter(wanted).map_values(show),
            decreases events.len() - i,
        {
            proof {
                lemma_filter_take_step(events@, wanted, i as int);
            }
            if keys_match(&self.keys, &events[i]) {
                effects.push(Effect::Print { event: events[i], format: self.format });
                assert(effects@ =~= old(effects)@ + events@.take(i + 1).filter(wanted).map_values(show));
            }
            i += 1;
        }
        assert(events@.take(events@.len() as int) =~= events@);
    }
}

} // verus!
