//! Session events and the log that they are appended to.
use vstd::prelude::*;

use crate::json::{Json, JsonTree};

verus! {

/// One event of a session log.
#[derive(Debug, PartialEq)]
pub struct Event {
    pub kind: String,
    pub seq: u64,
    pub time: i64,
    pub data: Json,
    /// The events that this one was made from.
    pub sources: Option<Vec<u64>>,
}

/// The model of an event.
pub struct EventView {
    pub kind: Seq<char>,
    pub seq: u64,
    pub time: i64,
    pub data: JsonTree,
    pub sources: Option<Seq<u64>>,
}

impl View for Event {
    type V = EventView;

    open spec fn view(&self) -> EventView {
        EventView {
            kind: self.kind@,
            seq: self.seq,
            time: self.time,
            data: self.data@,
            sources: match self.sources {
                Some(v) => Some(v@),
                None => None,
            },
        }
    }
}

/// The models of a run of events.
pub open spec fn event_views(v: Seq<Event>) -> Seq<EventView> {
    v.map_values(|e: Event| e@)
}

/// A log: its events are numbered one after another.
#[derive(Debug, PartialEq)]
pub struct EventLog {
    pub events: Vec<Event>,
}

impl View for EventLog {
    type V = Seq<EventView>;

    open spec fn view(&self) -> Seq<EventView> {
        event_views(self.events@)
    }
}

/// The number of the last event; 0 where there is none.
pub open spec fn last_seq(log: Seq<EventView>) -> u64 {
    if log.len() == 0 {
        0
    } else {
        log.last().seq
    }
}

/// An event as it is made, before a log has numbered it.
pub open spec fn fresh_event(kind: Seq<char>, time: i64, data: JsonTree) -> EventView {
    EventView { kind, seq: 0, time, data, sources: None }
}

/// The event with the number that it has in a log.
pub open spec fn numbered(event: EventView, seq: u64) -> EventView {
    EventView { seq, ..event }
}

/// A log after one more event, which gets the next number.
pub open spec fn appended(log: Seq<EventView>, event: EventView) -> Seq<EventView> {
    log.push(numbered(event, (last_seq(log) + 1) as u64))
}

/// Each event's number is greater than that of the one before it.
pub open spec fn ordered(log: Seq<EventView>) -> bool {
    forall|i: int, j: int| 0 <= i < j < log.len() ==> (#[trigger] log[i]).seq < (#[trigger] log[j]).seq
}

/// A log whose events are numbered from 1 on without a gap.
pub open spec fn gapless(log: Seq<EventView>) -> bool {
    forall|i: int| 0 <= i < log.len() ==> (#[trigger] log[i]).seq == i + 1
}

/// A log without gaps stays without gaps, whatever is appended to it.
pub proof fn law_append_keeps_gapless(log: Seq<EventView>, event: EventView)
    requires
        gapless(log),
        log.len() < u64::MAX,
    ensures
        gapless(appended(log, event)),
        appended(log, event).take(log.len() as int) == log,
{
    if log.len() > 0 {
        assert(log[log.len() - 1].seq == log.len());
    }
    assert(appended(log, event).take(log.len() as int) =~= log);
}

fn copy_numbers(v: &Vec<u64>) -> (r: Vec<u64>)
    ensures
        r@ == v@,
{
    let mut out: Vec<u64> = Vec::new();
    let mut i: usize = 0;
    while i < v.len()
        invariant
            i <= v.len(),
            out@ == v@.take(i as int),
        decreases v.len() - i,
    {
        out.push(v[i]);
        assert(v@.take(i + 1) =~= v@.take(i as int).push(v@[i as int]));
        i = i + 1;
    }
    assert(v@.take(v@.len() as int) =~= v@);
    out
}

impl Event {
    /// An event that no log has numbered yet.
    pub fn new(kind: &str, time: i64, data: Json) -> (r: Event)
        ensures
            r@ == fresh_event(kind@, time, data@),
    {
        Event { kind: kind.to_owned(), seq: 0, time, data, sources: None }
    }

    /// A second one that is the same as this one.
    pub fn copy(&self) -> (r: Event)
        ensures
            r@ == self@,
    {
        let sources: Option<Vec<u64>> = match &self.sources {
            Some(v) => Some(copy_numbers(v)),
            None => None,
        };
        Event {
            kind: self.kind.clone(),
            seq: self.seq,
            time: self.time,
            data: self.data.copy(),
            sources,
        }
    }
}

impl EventLog {
    /// A log without events.
    pub fn new() -> (r: EventLog)
        ensures
            r@ == Seq::<EventView>::empty(),
    {
        let r = EventLog { events: Vec::new() };
        assert(r@ =~= Seq::<EventView>::empty());
        r
    }

    /// The number of the last event; 0 where there is none.
    pub fn last_seq(&self) -> (r: u64)
        ensures
            r == last_seq(self@),
    {
        if self.events.len() == 0 {
            0
        } else {
            self.events[self.events.len() - 1].seq
        }
    }

    /// Appends an event under the next number, and gives that number.
    pub fn append(&mut self, event: Event) -> (seq: u64)
        requires
            last_seq(old(self)@) < u64::MAX,
        ensures
            final(self)@ == appended(old(self)@, event@),
            seq == last_seq(old(self)@) + 1,
            ordered(old(self)@) ==> ordered(final(self)@),
    {
        let seq: u64 = self.last_seq() + 1;
        let ghost before = self.events@;
        let mut event = event;
        event.seq = seq;
        self.events.push(event);
        proof {
            assert(event_views(self.events@) =~= event_views(before).push(event@));
        }
        seq
    }
}

} // verus!
