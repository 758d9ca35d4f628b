//! Forking a session: where its log is cut, and what the copy begins with.
use vstd::prelude::*;
use vstd::string::*;

use crate::events::{event_views, Event, EventLog, EventView, fresh_event, gapless, last_seq, numbered, ordered};
use crate::json::{Json, JsonTree, Num, lemma_with};
use crate::proto::{ErrorView, RpcError, error_view};
use crate::text::{decimal, joined3, same, write_decimal};

verus! {

/// The number of the first event, from an anchor on, that ends a turn.
pub open spec fn first_end_from(log: Seq<EventView>, anchor: u64) -> Option<u64>
    decreases log.len(),
{
    if log.len() == 0 {
        None
    } else if log[0].seq >= anchor && log[0].kind == "turn/end"@ {
        Some(log[0].seq)
    } else {
        first_end_from(log.drop_first(), anchor)
    }
}

/// The number of the last event that ends a turn.
pub open spec fn last_end(log: Seq<EventView>) -> Option<u64>
    decreases log.len(),
{
    if log.len() == 0 {
        None
    } else if log.last().kind == "turn/end"@ {
        Some(log.last().seq)
    } else {
        last_end(log.drop_last())
    }
}

/// Whether a log reaches a number.
pub open spec fn reaches(log: Seq<EventView>, anchor: u64) -> bool {
    exists|i: int| 0 <= i < log.len() && (#[trigger] log[i]).seq >= anchor
}

/// The last number of the last finished turn, or of the log where no turn has
/// finished.
pub open spec fn default_cut(log: Seq<EventView>) -> u64 {
    match last_end(log) {
        Some(seq) => seq,
        None => last_seq(log),
    }
}

/// The last number that a fork takes over: the end of the turn that an anchor
/// lies in. An anchor beyond the log counts as none; an anchor in a turn that
/// has not ended is refused.
pub open spec fn cut_of(log: Seq<EventView>, anchor: Option<u64>) -> Result<u64, ErrorView> {
    match anchor {
        None => Ok(default_cut(log)),
        Some(a) => match first_end_from(log, a) {
            Some(seq) => Ok(seq),
            None => if reaches(log, a) {
                Err(
                    error_view(
                        "fork-unavailable"@,
                        "锚点 seq "@ + decimal(a as nat) + " 所在轮尚未收口"@,
                    ),
                )
            } else {
                Ok(default_cut(log))
            },
        },
    }
}

fn find_end_from(log: &EventLog, anchor: u64) -> (r: Option<u64>)
    ensures
        r == first_end_from(log@, anchor),
{
    let mut i: usize = 0;
    assert(log@.skip(0) =~= log@);
    while i < log.events.len()
        invariant
            i <= log.events.len(),
            first_end_from(log@, anchor) == first_end_from(log@.skip(i as int), anchor),
        decreases log.events.len() - i,
    {
        let ev = &log.events[i];
        assert(log@.skip(i as int)[0] == ev@);
        assert(log@.skip(i as int).drop_first() =~= log@.skip(i + 1));
        if ev.seq >= anchor && same(ev.kind.as_str(), "turn/end") {
            return Some(ev.seq);
        }
        i = i + 1;
    }
    None
}

fn find_last_end(log: &EventLog) -> (r: Option<u64>)
    ensures
        r == last_end(log@),
{
    let mut i: usize = log.events.len();
    assert(log@.take(i as int) =~= log@);
    while i > 0
        invariant
            i <= log.events.len(),
            last_end(log@) == last_end(log@.take(i as int)),
        decreases i,
    {
        let ev = &log.events[i - 1];
        assert(log@.take(i as int).last() == ev@);
        assert(log@.take(i as int).drop_last() =~= log@.take(i - 1));
        if same(ev.kind.as_str(), "turn/end") {
            return Some(ev.seq);
        }
        i = i - 1;
    }
    None
}

fn does_reach(log: &EventLog, anchor: u64) -> (r: bool)
    ensures
        r == reaches(log@, anchor),
{
    let mut i: usize = 0;
    while i < log.events.len()
        invariant
            i <= log.events.len(),
            forall|k: int| 0 <= k < i ==> (#[trigger] log@[k]).seq < anchor,
        decreases log.events.len() - i,
    {
        assert(log@[i as int] == log.events@[i as int]@);
        if log.events[i].seq >= anchor {
            return true;
        }
        i = i + 1;
    }
    false
}

/// The last number that a fork takes over.
pub fn fork_cut(log: &EventLog, at_seq: Option<u64>) -> (r: Result<u64, RpcError>)
    ensures
        match cut_of(log@, at_seq) {
            Ok(seq) => r == Ok::<u64, RpcError>(seq),
            Err(e) => r is Err && r->Err_0@ == e,
        },
{
    if let Some(anchor) = at_seq {
        if let Some(seq) = find_end_from(log, anchor) {
            return Ok(seq);
        }
        if does_reach(log, anchor) {
            let message = joined3(
                "锚点 seq ",
                write_decimal(anchor).as_str(),
                " 所在轮尚未收口",
            );
            return Err(RpcError::plain("fork-unavailable", message.as_str()));
        }
    }
    match find_last_end(log) {
        Some(seq) => Ok(seq),
        None => Ok(log.last_seq()),
    }
}

/// Whether a session can be forked: it must be there and must not be running.
pub open spec fn fork_fault(id: Seq<char>, exists_on_disk: bool, running: bool) -> Option<ErrorView> {
    if !exists_on_disk {
        Some(error_view("session-not-found"@, "session not found: "@ + id))
    } else if running {
        Some(error_view("bad-request"@, "会话运行中,请先停止"@))
    } else {
        None
    }
}

/// Whether a session can be forked: it must be there and must not be running.
pub fn fork_check(id: &str, exists_on_disk: bool, running: bool) -> (r: Result<(), RpcError>)
    ensures
        match fork_fault(id@, exists_on_disk, running) {
            None => r is Ok,
            Some(e) => r is Err && r->Err_0@ == e,
        },
{
    if !exists_on_disk {
        Err(RpcError::session_not_found(id))
    } else if running {
        Err(RpcError::bad_request("会话运行中,请先停止"))
    } else {
        Ok(())
    }
}

/// The event that says where a fork comes from.
pub open spec fn forked_view(parent: Seq<char>, cut: u64, time: i64) -> EventView {
    numbered(
        fresh_event(
            "session/forked"@,
            time,
            JsonTree::object().with("parent"@, JsonTree::Text(parent)).with(
                "atSeq"@,
                JsonTree::Number(Num::Unsigned(cut)),
            ),
        ),
        (cut + 1) as u64,
    )
}

/// The event that says where a fork comes from; it stands behind what the fork
/// takes over.
pub fn forked_event(parent: &str, cut: u64, time: i64) -> (r: Event)
    requires
        cut < u64::MAX,
    ensures
        r@ == forked_view(parent@, cut, time),
{
    let mut ev = Event::new(
        "session/forked",
        time,
        Json::object().with("parent", Json::text(parent)).with("atSeq", Json::number(cut)),
    );
    ev.seq = cut + 1;
    ev
}

/// The lines of a log that a fork takes over: as many as the number that it is
/// cut at.
pub fn forked_lines(lines: &Vec<String>, cut: u64) -> (r: Vec<String>)
    ensures
        r@ == (if cut <= lines@.len() {
            lines@.take(cut as int)
        } else {
            lines@
        }),
{
    let mut out: Vec<String> = Vec::new();
    let mut i: usize = 0;
    while i < lines.len() && (i as u64) < cut
        invariant
            i <= lines.len(),
            i <= cut,
            out@ == lines@.take(i as int),
        decreases lines.len() - i,
    {
        out.push(lines[i].clone());
        assert(lines@.take(i + 1) =~= lines@.take(i as int).push(lines@[i as int]));
        i = i + 1;
    }
    assert(lines@.take(lines@.len() as int) =~= lines@);
    out
}

/// The first events of a log: as many as the number that it is cut at, as far as
/// there are any.
pub open spec fn taken_over(log: Seq<EventView>, cut: u64) -> Seq<EventView> {
    if cut <= log.len() {
        log.take(cut as int)
    } else {
        log
    }
}

/// The log of a fork: what it takes over, and the event that says where it comes
/// from.
pub open spec fn forked_log(log: Seq<EventView>, cut: u64, parent: Seq<char>, time: i64) -> Seq<
    EventView,
> {
    taken_over(log, cut).push(forked_view(parent, cut, time))
}

/// Makes the log of a fork.
pub fn fork_log(log: &EventLog, cut: u64, parent: &str, time: i64) -> (r: EventLog)
    requires
        cut < u64::MAX,
    ensures
        r@ == forked_log(log@, cut, parent@, time),
{
    let mut events: Vec<Event> = Vec::new();
    let mut i: usize = 0;
    assert(event_views(events@) =~= log@.take(0));
    while i < log.events.len() && (i as u64) < cut
        invariant
            i <= log.events.len(),
            i <= cut,
            event_views(events@) == log@.take(i as int),
        decreases log.events.len() - i,
    {
        let e = log.events[i].copy();
        proof {
            assert(log@[i as int] == log.events@[i as int]@);
            assert(event_views(events@.push(e)) =~= event_views(events@).push(e@));
            assert(log@.take(i + 1) =~= log@.take(i as int).push(log@[i as int]));
        }
        events.push(e);
        i = i + 1;
    }
    assert(log@.take(log@.len() as int) =~= log@);
    let last = forked_event(parent, cut, time);
    assert(event_views(events@.push(last)) =~= event_views(events@).push(last@));
    events.push(last);
    EventLog { events }
}

proof fn lemma_first_end(log: Seq<EventView>, anchor: u64)
    ensures
        first_end_from(log, anchor) matches Some(seq) ==> seq >= anchor && exists|i: int|
            0 <= i < log.len() && (#[trigger] log[i]).seq == seq && log[i].kind == "turn/end"@,
    decreases log.len(),
{
    if log.len() > 0 && !(log[0].seq >= anchor && log[0].kind == "turn/end"@) {
        let rest = log.drop_first();
        lemma_first_end(rest, anchor);
        match first_end_from(rest, anchor) {
            Some(seq) => {
                let i = choose|i: int|
                    0 <= i < rest.len() && (#[trigger] rest[i]).seq == seq && rest[i].kind
                        == "turn/end"@;
                assert(log[i + 1] == rest[i]);
            },
            None => {},
        }
    }
}

proof fn lemma_last_end(log: Seq<EventView>)
    ensures
        last_end(log) matches Some(seq) ==> exists|i: int|
            0 <= i < log.len() && (#[trigger] log[i]).seq == seq && log[i].kind == "turn/end"@,
    decreases log.len(),
{
    if log.len() > 0 {
        if log.last().kind == "turn/end"@ {
            assert(log[log.len() - 1].kind == "turn/end"@);
        } else {
            lemma_last_end(log.drop_last());
            match last_end(log.drop_last()) {
                Some(seq) => {
                    let i = choose|i: int|
                        0 <= i < log.drop_last().len() && (#[trigger] log.drop_last()[i]).seq == seq
                            && log.drop_last()[i].kind == "turn/end"@;
                    assert(log[i] == log.drop_last()[i]);
                },
                None => {},
            }
        }
    }
}

/// A fork of a log without gaps is a log without gaps, and what it takes over
/// ends with the end of a turn where any turn has ended.
pub proof fn law_fork_is_gapless(
    log: Seq<EventView>,
    anchor: Option<u64>,
    parent: Seq<char>,
    time: i64,
)
    requires
        gapless(log),
        log.len() < u64::MAX,
        cut_of(log, anchor) is Ok,
    ensures
        cut_of(log, anchor)->Ok_0 <= log.len(),
        gapless(forked_log(log, cut_of(log, anchor)->Ok_0, parent, time)),
        last_end(log) is Some ==> cut_of(log, anchor)->Ok_0 > 0 && log[cut_of(log, anchor)->Ok_0
            - 1].kind == "turn/end"@,
{
    let cut = cut_of(log, anchor)->Ok_0;
    lemma_last_end(log);
    if let Some(a) = anchor {
        lemma_first_end(log, a);
    }
    if log.len() > 0 {
        assert(log[log.len() - 1].seq == log.len());
    }
    let child = forked_log(log, cut, parent, time);
    assert(cut <= log.len());
    assert forall|i: int| 0 <= i < child.len() implies (#[trigger] child[i]).seq == i + 1 by {
        if i < cut {
            assert(child[i] == log[i]);
        }
    }
}

/// Whether a turn ends at a place of a log.
pub open spec fn ends_at(log: Seq<EventView>, i: int) -> bool {
    0 <= i < log.len() && log[i].kind == "turn/end"@
}

proof fn lemma_first_end_is_first(log: Seq<EventView>, anchor: u64) -> (i: int)
    ensures
        match first_end_from(log, anchor) {
            Some(seq) => ends_at(log, i) && log[i].seq == seq && seq >= anchor && forall|k: int|
                0 <= k < i && ends_at(log, k) ==> (#[trigger] log[k]).seq < anchor,
            None => forall|k: int| ends_at(log, k) ==> (#[trigger] log[k]).seq < anchor,
        },
    decreases log.len(),
{
    if log.len() == 0 || (log[0].seq >= anchor && log[0].kind == "turn/end"@) {
        0
    } else {
        let rest = log.drop_first();
        let i = lemma_first_end_is_first(rest, anchor);
        assert forall|k: int| 0 < k < log.len() && ends_at(log, k) && (first_end_from(log, anchor)
            is Some ==> k < i + 1) implies (#[trigger] log[k]).seq < anchor by {
            assert(rest[k - 1] == log[k]);
            assert(ends_at(rest, k - 1));
        }
        assert(first_end_from(log, anchor) is Some ==> rest[i] == log[i + 1]);
        i + 1
    }
}

proof fn lemma_last_end_is_last(log: Seq<EventView>) -> (i: int)
    ensures
        match last_end(log) {
            Some(seq) => ends_at(log, i) && log[i].seq == seq && forall|k: int|
                i < k < log.len() ==> (#[trigger] log[k]).kind != "turn/end"@,
            None => forall|k: int| 0 <= k < log.len() ==> (#[trigger] log[k]).kind != "turn/end"@,
        },
    decreases log.len(),
{
    if log.len() == 0 {
        0
    } else if log.last().kind == "turn/end"@ {
        log.len() - 1
    } else {
        let rest = log.drop_last();
        let i = lemma_last_end_is_last(rest);
        assert forall|k: int| 0 <= k < log.len() && (last_end(log) is Some ==> i
            < k) implies (#[trigger] log[k]).kind != "turn/end"@ by {
            if k < rest.len() {
                assert(rest[k] == log[k]);
            }
        }
        assert(last_end(log) is Some ==> rest[i] == log[i]);
        i
    }
}

/// Where an anchor has the end of a turn at or after it, a fork takes over that turn
/// and no later one: it is cut at the first such end. The end of a turn as anchor cuts
/// there.
pub proof fn law_fork_cuts_at_anchored_turn(log: Seq<EventView>, anchor: u64, end: int)
    requires
        ordered(log),
        ends_at(log, end),
        log[end].seq >= anchor,
    ensures
        cut_of(log, Some(anchor)) matches Ok(cut) && cut >= anchor && cut <= log[end].seq,
        exists|i: int| ends_at(log, i) && (#[trigger] log[i]).seq == cut_of(log, Some(anchor))->Ok_0,
        forall|k: int|
            ends_at(log, k) && (#[trigger] log[k]).seq >= anchor ==> log[k].seq >= cut_of(
                log,
                Some(anchor),
            )->Ok_0,
        anchor == log[end].seq ==> cut_of(log, Some(anchor)) == Ok::<u64, ErrorView>(anchor),
{
    let i = lemma_first_end_is_first(log, anchor);
    assert(log[end].seq >= anchor);
    assert(ends_at(log, i));
    assert forall|k: int| ends_at(log, k) && (#[trigger] log[k]).seq >= anchor implies log[k].seq
        >= log[i].seq by {
        if k < i {
            assert(log[k].seq < anchor);
        }
        assert(k == i || i < k);
    }
}

/// An anchor that has no end of a turn at or after it: in a turn that has not ended it
/// is refused; beyond the log it counts as none. Without an anchor a fork takes over
/// all up to the last end of a turn, or everything where no turn has ended.
pub proof fn law_fork_cuts_elsewhere(log: Seq<EventView>, anchor: Option<u64>)
    requires
        anchor matches Some(a) ==> forall|k: int| ends_at(log, k) ==> (#[trigger] log[k]).seq < a,
    ensures
        anchor is Some && (exists|k: int| 0 <= k < log.len() && (#[trigger] log[k]).seq >= anchor->0)
            ==> (cut_of(log, anchor) matches Err(e) && e.code == "fork-unavailable"@),
        (anchor matches Some(a) ==> forall|k: int| 0 <= k < log.len() ==> (#[trigger] log[k]).seq
            < a) ==> (cut_of(log, anchor) matches Ok(cut) && (forall|i: int|
            ends_at(log, i) && (forall|k: int|
                i < k < log.len() ==> (#[trigger] log[k]).kind != "turn/end"@) ==> cut == (
            #[trigger] log[i]).seq) && ((forall|k: int|
            0 <= k < log.len() ==> (#[trigger] log[k]).kind != "turn/end"@) ==> cut == (if log.len()
            == 0 {
            0
        } else {
            log[log.len() - 1].seq
        }))),
{
    if let Some(a) = anchor {
        let i = lemma_first_end_is_first(log, a);
        if first_end_from(log, a) is Some {
            assert(ends_at(log, i) && log[i].seq >= a);
        }
    }
    let last = lemma_last_end_is_last(log);
    if last_end(log) is Some {
        assert(log[last].kind == "turn/end"@);
        assert forall|i: int|
            ends_at(log, i) && (forall|k: int|
                i < k < log.len() ==> (#[trigger] log[k]).kind != "turn/end"@) implies last_end(
            log,
        ) == Some((#[trigger] log[i]).seq) by {
            assert(i == last || i < last || last < i);
        }
    }
}

/// A fork holds what it takes over as it was, up to and with the event that it is cut
/// at, and behind that only where it comes from.
pub proof fn law_fork_holds_its_part(
    log: Seq<EventView>,
    cut: u64,
    parent: Seq<char>,
    time: i64,
)
    requires
        gapless(log),
        cut <= log.len(),
        cut < u64::MAX,
    ensures
        ({
            let fork = forked_log(log, cut, parent, time);
            &&& forall|e: EventView|
                log.contains(e) && e.seq <= cut ==> #[trigger] fork.contains(e)
            &&& forall|i: int| 0 <= i < cut ==> #[trigger] fork[i] == log[i]
            &&& fork.len() == cut + 1
            &&& fork.last().kind == "session/forked"@
            &&& fork.last().seq == cut + 1
            &&& fork.last().data.at("parent"@) == JsonTree::Text(parent)
            &&& fork.last().data.at("atSeq"@).as_nat() == Some(cut)
        }),
{
    let fork = forked_log(log, cut, parent, time);
    assert forall|e: EventView| log.contains(e) && e.seq <= cut implies #[trigger] fork.contains(
        e,
    ) by {
        let i = choose|i: int| 0 <= i < log.len() && log[i] == e;
        assert(log[i].seq == i + 1);
        assert(fork[i] == e);
    }
    reveal_strlit("parent");
    reveal_strlit("atSeq");
    assert("parent"@.len() == 6 && "atSeq"@.len() == 5);
    let t0 = JsonTree::object();
    let t1 = t0.with("parent"@, JsonTree::Text(parent));
    lemma_with(t0, "parent"@, JsonTree::Text(parent));
    lemma_with(t1, "atSeq"@, JsonTree::Number(Num::Unsigned(cut)));
    let t2 = t1.with("atSeq"@, JsonTree::Number(Num::Unsigned(cut)));
    assert(t2.get("parent"@) == Some(JsonTree::Text(parent)));
    assert(t2.get("atSeq"@) == Some(JsonTree::Number(Num::Unsigned(cut))));
}

/// A session can be forked exactly where it is there and is not running; each of the two
/// has its own error.
pub proof fn law_standing_sessions_are_forked(id: Seq<char>, there: bool, running: bool)
    ensures
        fork_fault(id, there, running) is None <==> there && !running,
        !there ==> fork_fault(id, there, running) is Some && fork_fault(id, there, running)->0.code
            == "session-not-found"@,
        there && running ==> fork_fault(id, there, running) is Some && fork_fault(
            id,
            there,
            running,
        )->0.code == "bad-request"@,
{
}

} // verus!
