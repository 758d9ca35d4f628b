//! Mending a log that a process left behind in the middle of a turn.
use vstd::prelude::*;
use vstd::string::*;

use crate::events::{
    Event, EventLog, EventView, appended, fresh_event, gapless, last_seq, law_append_keeps_gapless, ordered,
};
use crate::json::{Json, JsonTree, Num, items_at, items_of, lemma_with, text_at, text_of, trees};
use crate::text::same;

verus! {

/// A call that the model announced; whether a call in the log has taken it up.
#[derive(Debug, PartialEq)]
pub struct Announced {
    pub used: bool,
    pub id: String,
    pub name: String,
}

/// A call that no result has come for.
#[derive(Debug, PartialEq)]
pub struct OpenCall {
    pub seq: u64,
    pub id: String,
}

/// The model of an announced call.
pub struct AnnouncedView {
    pub used: bool,
    pub id: Seq<char>,
    pub name: Seq<char>,
}

/// The model of an open call.
pub struct OpenView {
    pub seq: u64,
    pub id: Seq<char>,
}

impl View for Announced {
    type V = AnnouncedView;

    open spec fn view(&self) -> AnnouncedView {
        AnnouncedView { used: self.used, id: self.id@, name: self.name@ }
    }
}

impl View for OpenCall {
    type V = OpenView;

    open spec fn view(&self) -> OpenView {
        OpenView { seq: self.seq, id: self.id@ }
    }
}

pub open spec fn announced_views(v: Seq<Announced>) -> Seq<AnnouncedView> {
    v.map_values(|a: Announced| a@)
}

pub open spec fn open_views(v: Seq<OpenCall>) -> Seq<OpenView> {
    v.map_values(|c: OpenCall| c@)
}

/// What is known at a place in a log: whether a turn is open, what the model
/// announced last, and which calls wait for a result.
pub struct Scan {
    pub turn_open: bool,
    pub announced: Seq<AnnouncedView>,
    pub open: Seq<OpenView>,
}

/// The calls that a message of the model announces.
pub open spec fn calls_in(data: JsonTree) -> Seq<AnnouncedView> {
    items_at(data, "tool_calls"@).map_values(
        |c: JsonTree|
            AnnouncedView { used: false, id: text_at(c, "id"@), name: text_at(c, "name"@) },
    )
}

/// The place of the first announced call of a name that no call has taken up;
/// their number where there is none.
pub open spec fn free_place(announced: Seq<AnnouncedView>, name: Seq<char>) -> int
    decreases announced.len(),
{
    if announced.len() == 0 || (!announced[0].used && announced[0].name == name) {
        0
    } else {
        1 + free_place(announced.drop_first(), name)
    }
}

/// The open calls without those under a number.
pub open spec fn without(open: Seq<OpenView>, seq: u64) -> Seq<OpenView>
    decreases open.len(),
{
    if open.len() == 0 {
        Seq::empty()
    } else if open.last().seq == seq {
        without(open.drop_last(), seq)
    } else {
        without(open.drop_last(), seq).push(open.last())
    }
}

/// What is known after one more event.
pub open spec fn scan_step(s: Scan, e: EventView) -> Scan {
    if e.kind == "turn/start"@ {
        Scan { turn_open: true, ..s }
    } else if e.kind == "turn/end"@ || e.kind == "turn/error"@ {
        Scan { turn_open: false, ..s }
    } else if e.kind == "assistant/message"@ {
        Scan { announced: calls_in(e.data), ..s }
    } else if e.kind == "tool/call"@ {
        let k = free_place(s.announced, text_at(e.data, "name"@));
        if k < s.announced.len() {
            Scan {
                announced: s.announced.update(k, AnnouncedView { used: true, ..s.announced[k] }),
                open: s.open.push(OpenView { seq: e.seq, id: s.announced[k].id }),
                ..s
            }
        } else {
            Scan { open: s.open.push(OpenView { seq: e.seq, id: Seq::empty() }), ..s }
        }
    } else if e.kind == "tool/result"@ {
        match e.data.at("call"@).as_nat() {
            Some(seq) => Scan { open: without(s.open, seq), ..s },
            None => s,
        }
    } else {
        s
    }
}

/// What is known at the end of a log.
pub open spec fn scan(log: Seq<EventView>) -> Scan
    decreases log.len(),
{
    if log.len() == 0 {
        Scan { turn_open: false, announced: Seq::empty(), open: Seq::empty() }
    } else {
        scan_step(scan(log.drop_last()), log.last())
    }
}

/// The result that is put in for a call that has none: it failed.
pub open spec fn put_in_result(call: OpenView, placeholder: Seq<char>, time: i64) -> EventView {
    fresh_event(
        "tool/result"@,
        time,
        JsonTree::object().with("call"@, JsonTree::Number(Num::Unsigned(call.seq))).with(
            "id"@,
            JsonTree::Text(call.id),
        ).with("output"@, JsonTree::Text(placeholder)).with("success"@, JsonTree::Bool(false)),
    )
}

/// The end that is put in for a turn that has none: it was cancelled.
pub open spec fn put_in_end(time: i64) -> EventView {
    fresh_event(
        "turn/end"@,
        time,
        JsonTree::object().with("cancelled"@, JsonTree::Text("session-restart"@)),
    )
}

/// The events that a log lacks.
pub open spec fn missing(s: Scan, placeholder: Seq<char>, time: i64) -> Seq<EventView> {
    let results = s.open.map_values(|c: OpenView| put_in_result(c, placeholder, time));
    if s.turn_open {
        results.push(put_in_end(time))
    } else {
        results
    }
}

/// A log after a run of events.
pub open spec fn appended_all(log: Seq<EventView>, more: Seq<EventView>) -> Seq<EventView>
    decreases more.len(),
{
    if more.len() == 0 {
        log
    } else {
        appended(appended_all(log, more.drop_last()), more.last())
    }
}

/// A log with the events that it lacked.
pub open spec fn repaired(log: Seq<EventView>, placeholder: Seq<char>, time: i64) -> Seq<
    EventView,
> {
    appended_all(log, missing(scan(log), placeholder, time))
}

fn calls_of(data: &Json) -> (r: Vec<Announced>)
    ensures
        announced_views(r@) == calls_in(data@),
{
    let none: Vec<Json> = Vec::new();
    let calls = items_of(data, "tool_calls", &none);
    let ghost wanted = calls_in(data@);
    let mut out: Vec<Announced> = Vec::new();
    let mut i: usize = 0;
    assert(announced_views(out@) =~= wanted.take(0));
    while i < calls.len()
        invariant
            i <= calls.len(),
            wanted == calls_in(data@),
            trees(calls@) == items_at(data@, "tool_calls"@),
            announced_views(out@) == wanted.take(i as int),
        decreases calls.len() - i,
    {
        let call = Announced {
            used: false,
            id: text_of(&calls[i], "id"),
            name: text_of(&calls[i], "name"),
        };
        proof {
            assert(trees(calls@)[i as int] == calls@[i as int]@);
            assert(wanted[i as int] == call@);
            assert(announced_views(out@.push(call)) =~= announced_views(out@).push(call@));
            assert(wanted.take(i + 1) =~= wanted.take(i as int).push(call@));
        }
        out.push(call);
        i = i + 1;
    }
    assert(wanted.take(wanted.len() as int) =~= wanted);
    out
}

proof fn lemma_free_place(all: Seq<AnnouncedView>, name: Seq<char>, k: int)
    requires
        0 <= k <= all.len(),
        k < all.len() ==> !all[k].used && all[k].name == name,
        forall|i: int| 0 <= i < k ==> (#[trigger] all[i]).used || all[i].name != name,
    ensures
        free_place(all, name) == k,
    decreases k,
{
    if k > 0 {
        assert(all[0].used || all[0].name != name);
        let rest = all.drop_first();
        assert forall|i: int| 0 <= i < k - 1 implies (#[trigger] rest[i]).used || rest[i].name
            != name by {
            assert(rest[i] == all[i + 1]);
        }
        lemma_free_place(rest, name, k - 1);
    }
}

fn take_up(announced: &mut Vec<Announced>, name: &str) -> (r: String)
    ensures
        ({
            let before = announced_views(old(announced)@);
            let k = free_place(before, name@);
            if k < before.len() {
                &&& announced_views(final(announced)@) == before.update(
                    k,
                    AnnouncedView { used: true, ..before[k] },
                )
                &&& r@ == before[k].id
            } else {
                announced_views(final(announced)@) == before && r@ == Seq::<char>::empty()
            }
        }),
{
    let ghost before = announced_views(announced@);
    let mut i: usize = 0;
    while i < announced.len()
        invariant
            i <= announced.len(),
            before == announced_views(announced@),
            before == announced_views(old(announced)@),
            forall|k: int| 0 <= k < i ==> (#[trigger] before[k]).used || before[k].name != name@,
        decreases announced.len() - i,
    {
        assert(before[i as int] == announced@[i as int]@);
        if !announced[i].used && same(announced[i].name.as_str(), name) {
            proof {
                lemma_free_place(before, name@, i as int);
            }
            let call = announced.remove(i);
            let id = call.id.clone();
            let taken = Announced { used: true, id: call.id, name: call.name };
            announced.insert(i, taken);
            proof {
                assert(announced_views(announced@) =~= before.update(
                    i as int,
                    AnnouncedView { used: true, ..before[i as int] },
                ));
            }
            return id;
        }
        i = i + 1;
    }
    proof {
        lemma_free_place(before, name@, i as int);
    }
    String::new()
}

fn settle_call(open: &mut Vec<OpenCall>, seq: u64)
    ensures
        open_views(final(open)@) == without(open_views(old(open)@), seq),
{
    let ghost before = open_views(open@);
    let n: usize = open.len();
    let mut done: usize = 0;
    let mut i: usize = 0;
    proof {
        assert(before.take(0) =~= Seq::empty());
        assert(without(before.take(0), seq) + before.skip(0) =~= before);
    }
    while done < n
        invariant
            i <= done <= n,
            before.len() == n,
            i == without(before.take(done as int), seq).len(),
            open_views(open@) == without(before.take(done as int), seq) + before.skip(done as int),
        decreases n - done,
    {
        let ghost now = open@;
        let ghost head = without(before.take(done as int), seq);
        proof {
            assert(before.take(done + 1).drop_last() =~= before.take(done as int));
            assert(before.take(done + 1).last() == before[done as int]);
            assert(open_views(now).len() == now.len());
            assert(before.skip(done as int).len() == n - done);
            assert(open_views(now)[i as int] == before[done as int]);
            assert(now[i as int]@ == before[done as int]);
        }
        if open[i].seq == seq {
            let gone = open.remove(i);
            proof {
                assert(open_views(open@) =~= open_views(now).remove(i as int));
                assert((head + before.skip(done as int)).remove(i as int) =~= head + before.skip(
                    done + 1,
                ));
            }
        } else {
            proof {
                assert(head + before.skip(done as int) =~= head.push(before[done as int])
                    + before.skip(done + 1));
            }
            i = i + 1;
        }
        done = done + 1;
    }
    proof {
        assert(before.take(n as int) =~= before);
        assert(without(before, seq) + before.skip(n as int) =~= without(before, seq));
    }
}

proof fn lemma_without_is_shorter(open: Seq<OpenView>, seq: u64)
    ensures
        without(open, seq).len() <= open.len(),
    decreases open.len(),
{
    if open.len() > 0 {
        lemma_without_is_shorter(open.drop_last(), seq);
    }
}

proof fn lemma_open_is_short(log: Seq<EventView>)
    ensures
        scan(log).open.len() <= log.len(),
    decreases log.len(),
{
    if log.len() > 0 {
        lemma_open_is_short(log.drop_last());
        let s = scan(log.drop_last());
        match log.last().data.at("call"@).as_nat() {
            Some(seq) => {
                lemma_without_is_shorter(s.open, seq);
            },
            None => {},
        }
    }
}

/// Reads a log through: whether a turn is open at its end, and which calls wait
/// for a result.
fn scan_log(log: &EventLog) -> (r: (bool, Vec<OpenCall>))
    ensures
        r.0 == scan(log@).turn_open,
        open_views(r.1@) == scan(log@).open,
{
    let mut turn_open = false;
    let mut announced: Vec<Announced> = Vec::new();
    let mut open: Vec<OpenCall> = Vec::new();
    let mut i: usize = 0;
    proof {
        assert(log@.take(0) =~= Seq::empty());
        assert(announced_views(announced@) =~= Seq::empty());
        assert(open_views(open@) =~= Seq::empty());
    }
    while i < log.events.len()
        invariant
            i <= log.events.len(),
            turn_open == scan(log@.take(i as int)).turn_open,
            announced_views(announced@) == scan(log@.take(i as int)).announced,
            open_views(open@) == scan(log@.take(i as int)).open,
        decreases log.events.len() - i,
    {
        let ev = &log.events[i];
        proof {
            assert(log@.take(i + 1).drop_last() =~= log@.take(i as int));
            assert(log@.take(i + 1).last() == ev@);
        }
        let kind = ev.kind.as_str();
        if same(kind, "turn/start") {
            turn_open = true;
        } else if same(kind, "turn/end") || same(kind, "turn/error") {
            turn_open = false;
        } else if same(kind, "assistant/message") {
            announced = calls_of(&ev.data);
        } else if same(kind, "tool/call") {
            let name = text_of(&ev.data, "name");
            let id = take_up(&mut announced, name.as_str());
            let call = OpenCall { seq: ev.seq, id };
            proof {
                assert(open_views(open@.push(call)) =~= open_views(open@).push(call@));
            }
            open.push(call);
        } else if same(kind, "tool/result") {
            if let Some(seq) = ev.data.u64_at("call") {
                settle_call(&mut open, seq);
            }
        }
        i = i + 1;
    }
    assert(log@.take(log@.len() as int) =~= log@);
    (turn_open, open)
}

/// Puts the events into a log that it lacks: a failed result for each call that
/// has none, and an end for a turn that has none.
pub fn repair_dangling_calls(log: &mut EventLog, placeholder: &str, time: i64)
    requires
        last_seq(old(log)@) + old(log)@.len() + 1 <= u64::MAX,
    ensures
        final(log)@ == repaired(old(log)@, placeholder@, time),
        ordered(old(log)@) ==> ordered(final(log)@),
{
    let ghost before = log@;
    let (turn_open, open) = scan_log(log);
    let ghost s = scan(before);
    let ghost results = s.open.map_values(|c: OpenView| put_in_result(c, placeholder@, time));
    let mut i: usize = 0;
    proof {
        lemma_open_is_short(before);
        assert(results.take(0) =~= Seq::empty());
    }
    while i < open.len()
        invariant
            i <= open.len(),
            open_views(open@) == s.open,
            s.open.len() <= before.len(),
            results == s.open.map_values(|c: OpenView| put_in_result(c, placeholder@, time)),
            last_seq(before) + before.len() + 1 <= u64::MAX,
            last_seq(log@) == last_seq(before) + i,
            log@ == appended_all(before, results.take(i as int)),
            ordered(before) ==> ordered(log@),
        decreases open.len() - i,
    {
        let ghost now = log@;
        let data = Json::object().with("call", Json::number(open[i].seq)).with(
            "id",
            Json::text(open[i].id.as_str()),
        ).with("output", Json::text(placeholder)).with("success", Json::Bool(false));
        let event = Event::new("tool/result", time, data);
        proof {
            assert(s.open[i as int] == open@[i as int]@);
            assert(event@ == results[i as int]);
            assert(results.take(i + 1).drop_last() =~= results.take(i as int));
            assert(results.take(i + 1).last() == results[i as int]);
        }
        log.append(event);
        i = i + 1;
    }
    assert(results.take(results.len() as int) =~= results);
    if turn_open {
        let event = Event::new(
            "turn/end",
            time,
            Json::object().with("cancelled", Json::text("session-restart")),
        );
        proof {
            let all = missing(s, placeholder@, time);
            assert(all.drop_last() =~= results);
            assert(all.last() == event@);
        }
        log.append(event);
    }
}

proof fn lemma_without(open: Seq<OpenView>, seq: u64)
    ensures
        forall|i: int|
            0 <= i < without(open, seq).len() ==> (#[trigger] without(open, seq)[i]).seq != seq
                && open.contains(without(open, seq)[i]),
    decreases open.len(),
{
    if open.len() > 0 {
        lemma_without(open.drop_last(), seq);
        let rest = without(open.drop_last(), seq);
        let all = without(open, seq);
        assert forall|i: int| 0 <= i < all.len() implies (#[trigger] all[i]).seq != seq
            && open.contains(all[i]) by {
            if i < rest.len() {
                assert(all[i] == rest[i]);
                let k = choose|k: int| 0 <= k < open.drop_last().len() && open.drop_last()[k] == rest[i];
                assert(open[k] == all[i]);
            } else {
                assert(open[open.len() - 1] == all[i]);
            }
        }
    }
}

/// A result that is put in settles its call and does nothing else.
proof fn lemma_put_in_result(s: Scan, call: OpenView, placeholder: Seq<char>, time: i64, seq: u64)
    ensures
        scan_step(s, crate::events::numbered(put_in_result(call, placeholder, time), seq)) == (
        Scan { open: without(s.open, call.seq), ..s }),
{
    reveal_strlit("turn/start");
    reveal_strlit("turn/end");
    reveal_strlit("turn/error");
    reveal_strlit("assistant/message");
    reveal_strlit("tool/call");
    reveal_strlit("tool/result");
    reveal_strlit("call");
    reveal_strlit("id");
    reveal_strlit("output");
    reveal_strlit("success");
    assert("turn/start"@.len() == 10 && "turn/end"@.len() == 8 && "turn/error"@.len() == 10
        && "assistant/message"@.len() == 17 && "tool/call"@.len() == 9 && "tool/result"@.len()
        == 11);
    assert("call"@.len() == 4 && "id"@.len() == 2 && "output"@.len() == 6 && "success"@.len() == 7);
    let n = JsonTree::Number(Num::Unsigned(call.seq));
    let t0 = JsonTree::object();
    let t1 = t0.with("call"@, n);
    let t2 = t1.with("id"@, JsonTree::Text(call.id));
    let t3 = t2.with("output"@, JsonTree::Text(placeholder));
    lemma_with(t0, "call"@, n);
    lemma_with(t1, "id"@, JsonTree::Text(call.id));
    lemma_with(t2, "output"@, JsonTree::Text(placeholder));
    lemma_with(t3, "success"@, JsonTree::Bool(false));
    assert(put_in_result(call, placeholder, time).data.get("call"@) == Some(n));
}

/// After the first `k` results are in, the calls that still wait are other
/// calls.
proof fn lemma_results_settle(log: Seq<EventView>, placeholder: Seq<char>, time: i64, k: int)
    requires
        0 <= k <= scan(log).open.len(),
    ensures
        ({
            let results = scan(log).open.map_values(
                |c: OpenView| put_in_result(c, placeholder, time),
            );
            let s = scan(appended_all(log, results.take(k)));
            &&& s.turn_open == scan(log).turn_open
            &&& forall|i: int|
                0 <= i < s.open.len() ==> scan(log).open.contains(#[trigger] s.open[i])
            &&& forall|i: int, j: int|
                0 <= i < s.open.len() && 0 <= j < k ==> (#[trigger] s.open[i]).seq != (
                #[trigger] scan(log).open[j]).seq
        }),
    decreases k,
{
    let open = scan(log).open;
    let results = open.map_values(|c: OpenView| put_in_result(c, placeholder, time));
    if k == 0 {
        assert(results.take(0) =~= Seq::empty());
    } else {
        lemma_results_settle(log, placeholder, time, k - 1);
        let before = appended_all(log, results.take(k - 1));
        let s = scan(before);
        assert(results.take(k).drop_last() =~= results.take(k - 1));
        assert(results.take(k).last() == results[k - 1]);
        let after = appended_all(log, results.take(k));
        let seq = (last_seq(before) + 1) as u64;
        assert(after == before.push(crate::events::numbered(results[k - 1], seq)));
        assert(after.drop_last() =~= before);
        lemma_put_in_result(s, open[k - 1], placeholder, time, seq);
        lemma_without(s.open, open[k - 1].seq);
        let now = scan(after).open;
        assert(now == without(s.open, open[k - 1].seq));
        assert forall|i: int| 0 <= i < now.len() implies open.contains(#[trigger] now[i]) by {
            let m = choose|m: int| 0 <= m < s.open.len() && s.open[m] == now[i];
            assert(open.contains(s.open[m]));
        }
        assert forall|i: int, j: int| 0 <= i < now.len() && 0 <= j < k implies (
        #[trigger] now[i]).seq != (#[trigger] open[j]).seq by {
            let m = choose|m: int| 0 <= m < s.open.len() && s.open[m] == now[i];
            assert(s.open[m] == now[i]);
            if j < k - 1 {
                assert(s.open[m].seq != open[j].seq);
            }
        }
    }
}

/// Mending a log leaves what it holds as it is, and leaves no gap.
pub proof fn law_repair_keeps_gapless(log: Seq<EventView>, placeholder: Seq<char>, time: i64)
    requires
        gapless(log),
        log.len() + missing(scan(log), placeholder, time).len() < u64::MAX,
    ensures
        gapless(repaired(log, placeholder, time)),
        repaired(log, placeholder, time).len() >= log.len(),
        repaired(log, placeholder, time).take(log.len() as int) == log,
{
    lemma_appended_all_gapless(log, missing(scan(log), placeholder, time));
}

proof fn lemma_appended_all_gapless(log: Seq<EventView>, more: Seq<EventView>)
    requires
        gapless(log),
        log.len() + more.len() < u64::MAX,
    ensures
        gapless(appended_all(log, more)),
        appended_all(log, more).len() == log.len() + more.len(),
        appended_all(log, more).take(log.len() as int) == log,
    decreases more.len(),
{
    if more.len() > 0 {
        let rest = more.drop_last();
        lemma_appended_all_gapless(log, rest);
        let mid = appended_all(log, rest);
        law_append_keeps_gapless(mid, more.last());
        assert(appended_all(log, more).take(log.len() as int) =~= mid.take(log.len() as int));
    } else {
        assert(log.take(log.len() as int) =~= log);
    }
}

/// Whether a call at a place of a log has no result: none that comes after it names
/// it.
pub open spec fn is_dangling(log: Seq<EventView>, i: int) -> bool {
    log[i].kind == "tool/call"@ && forall|k: int|
        i < k < log.len() && (#[trigger] log[k]).kind == "tool/result"@ ==> log[k].data.at(
            "call"@,
        ).as_nat() != Some(log[i].seq)
}

/// The places of the calls without a result among the first events of a log, in
/// order.
pub open spec fn dangling_among(log: Seq<EventView>, n: int) -> Seq<int>
    decreases n,
{
    if n <= 0 {
        Seq::empty()
    } else if is_dangling(log, n - 1) {
        dangling_among(log, n - 1).push(n - 1)
    } else {
        dangling_among(log, n - 1)
    }
}

/// The places of the calls without a result, in order.
pub open spec fn dangling(log: Seq<EventView>) -> Seq<int> {
    dangling_among(log, log.len() as int)
}

/// Whether a turn has begun and neither ended nor failed since.
pub open spec fn is_turn_left_open(log: Seq<EventView>) -> bool {
    exists|i: int|
        0 <= i < log.len() && (#[trigger] log[i]).kind == "turn/start"@ && forall|k: int|
            i < k < log.len() ==> (#[trigger] log[k]).kind != "turn/end"@ && log[k].kind
                != "turn/error"@
}

/// The numbers of the events at places of a log.
pub open spec fn numbers_at(log: Seq<EventView>, places: Seq<int>) -> Seq<u64> {
    places.map_values(|i: int| log[i].seq)
}

/// Numbers without one of them.
pub open spec fn numbers_without(all: Seq<u64>, seq: u64) -> Seq<u64>
    decreases all.len(),
{
    if all.len() == 0 {
        Seq::empty()
    } else if all.last() == seq {
        numbers_without(all.drop_last(), seq)
    } else {
        numbers_without(all.drop_last(), seq).push(all.last())
    }
}

pub open spec fn open_numbers(open: Seq<OpenView>) -> Seq<u64> {
    open.map_values(|c: OpenView| c.seq)
}

proof fn lemma_numbers_without(open: Seq<OpenView>, seq: u64)
    ensures
        open_numbers(without(open, seq)) == numbers_without(open_numbers(open), seq),
    decreases open.len(),
{
    if open.len() == 0 {
        assert(open_numbers(without(open, seq)) =~= numbers_without(open_numbers(open), seq));
    } else {
        lemma_numbers_without(open.drop_last(), seq);
        assert(open_numbers(open).drop_last() =~= open_numbers(open.drop_last()));
        assert(open_numbers(without(open.drop_last(), seq).push(open.last())) =~= open_numbers(
            without(open.drop_last(), seq),
        ).push(open.last().seq));
    }
}

/// One more event that is no result leaves the calls without a result as they are;
/// a result takes out those that it names.
proof fn lemma_dangling_step(log: Seq<EventView>, e: EventView, n: int)
    requires
        0 <= n <= log.len(),
    ensures
        numbers_at(log.push(e), dangling_among(log.push(e), n)) == if e.kind == "tool/result"@
            && e.data.at("call"@).as_nat() is Some {
            numbers_without(
                numbers_at(log, dangling_among(log, n)),
                e.data.at("call"@).as_nat()->0,
            )
        } else {
            numbers_at(log, dangling_among(log, n))
        },
    decreases n,
{
    let all = log.push(e);
    let settles = e.kind == "tool/result"@ && e.data.at("call"@).as_nat() is Some;
    let seq = e.data.at("call"@).as_nat()->0;
    let was = numbers_at(log, dangling_among(log, n));
    let is = numbers_at(all, dangling_among(all, n));
    if n == 0 {
        assert(was =~= Seq::empty());
        assert(is =~= Seq::empty());
    } else {
        let i = n - 1;
        lemma_dangling_step(log, e, i);
        let old_rest = numbers_at(log, dangling_among(log, i));
        let new_rest = numbers_at(all, dangling_among(all, i));
        assert(all[i] == log[i]);
        assert forall|k: int| i < k < log.len() implies all[k] == #[trigger] log[k] by {}
        assert(all[log.len() as int] == e);
        if is_dangling(log, i) {
            assert(was =~= old_rest.push(log[i].seq));
            if settles && seq == log[i].seq {
                assert(!is_dangling(all, i));
                assert(was.drop_last() =~= old_rest);
            } else {
                assert forall|k: int|
                    i < k < all.len() && (#[trigger] all[k]).kind
                        == "tool/result"@ implies all[k].data.at("call"@).as_nat() != Some(
                    all[i].seq,
                ) by {
                    if k < log.len() {
                        assert(log[k].kind == "tool/result"@);
                    }
                }
                assert(is_dangling(all, i));
                assert(is =~= new_rest.push(log[i].seq));
                assert(was.drop_last() =~= old_rest);
            }
        } else {
            if log[i].kind == "tool/call"@ {
                let k = choose|k: int|
                    i < k < log.len() && (#[trigger] log[k]).kind == "tool/result"@
                        && log[k].data.at("call"@).as_nat() == Some(log[i].seq);
                assert(all[k] == log[k]);
            }
            assert(!is_dangling(all, i));
        }
    }
}

/// What reading a log through finds is what the log says.
proof fn lemma_scan_is_exact(log: Seq<EventView>)
    ensures
        open_numbers(scan(log).open) == numbers_at(log, dangling(log)),
        scan(log).turn_open == is_turn_left_open(log),
    decreases log.len(),
{
    reveal_strlit("turn/start");
    reveal_strlit("turn/end");
    reveal_strlit("turn/error");
    reveal_strlit("assistant/message");
    reveal_strlit("tool/call");
    reveal_strlit("tool/result");
    assert("turn/start"@.len() == 10 && "turn/end"@.len() == 8 && "turn/error"@.len() == 10
        && "assistant/message"@.len() == 17 && "tool/call"@.len() == 9 && "tool/result"@.len()
        == 11);
    assert("turn/start"@[5] == 's' && "turn/error"@[5] == 'e');
    if log.len() == 0 {
        assert(open_numbers(scan(log).open) =~= Seq::empty());
        assert(numbers_at(log, dangling(log)) =~= Seq::empty());
    } else {
        let rest = log.drop_last();
        let e = log.last();
        let n = rest.len() as int;
        lemma_scan_is_exact(rest);
        assert(log =~= rest.push(e));
        lemma_dangling_step(rest, e, n);
        let s = scan(rest);
        assert(is_dangling(log, n) == (e.kind == "tool/call"@));
        if e.kind == "tool/call"@ {
            let k = free_place(s.announced, text_at(e.data, "name"@));
            if k < s.announced.len() {
                assert(open_numbers(scan(log).open) =~= open_numbers(s.open).push(e.seq));
            } else {
                assert(open_numbers(scan(log).open) =~= open_numbers(s.open).push(e.seq));
            }
            assert(numbers_at(log, dangling(log)) =~= numbers_at(log, dangling_among(log, n)).push(
                e.seq,
            ));
        } else if e.kind == "tool/result"@ && e.data.at("call"@).as_nat() is Some {
            lemma_numbers_without(s.open, e.data.at("call"@).as_nat()->0);
        }
        lemma_turn_step(rest, e);
    }
}

proof fn lemma_turn_step(log: Seq<EventView>, e: EventView)
    ensures
        is_turn_left_open(log.push(e)) == if e.kind == "turn/start"@ {
            true
        } else if e.kind == "turn/end"@ || e.kind == "turn/error"@ {
            false
        } else {
            is_turn_left_open(log)
        },
{
    let all = log.push(e);
    let n = log.len() as int;
    assert(all[n] == e);
    if e.kind != "turn/start"@ && e.kind != "turn/end"@ && e.kind != "turn/error"@ {
        if is_turn_left_open(log) {
            let i = choose|i: int|
                0 <= i < log.len() && (#[trigger] log[i]).kind == "turn/start"@ && forall|k: int|
                    i < k < log.len() ==> (#[trigger] log[k]).kind != "turn/end"@ && log[k].kind
                        != "turn/error"@;
            assert(all[i] == log[i]);
            assert forall|k: int| i < k < all.len() implies (#[trigger] all[k]).kind
                != "turn/end"@ && all[k].kind != "turn/error"@ by {
                if k < n {
                    assert(all[k] == log[k]);
                }
            }
        }
        if is_turn_left_open(all) {
            let i = choose|i: int|
                0 <= i < all.len() && (#[trigger] all[i]).kind == "turn/start"@ && forall|k: int|
                    i < k < all.len() ==> (#[trigger] all[k]).kind != "turn/end"@ && all[k].kind
                        != "turn/error"@;
            assert(log[i] == all[i]);
            assert forall|k: int| i < k < log.len() implies (#[trigger] log[k]).kind
                != "turn/end"@ && log[k].kind != "turn/error"@ by {
                assert(all[k] == log[k]);
            }
        }
    }
}

proof fn lemma_appended_all(log: Seq<EventView>, more: Seq<EventView>)
    ensures
        appended_all(log, more).len() == log.len() + more.len(),
        appended_all(log, more).take(log.len() as int) == log,
        forall|i: int|
            0 <= i < more.len() ==> (#[trigger] appended_all(log, more)[log.len() + i]).kind
                == more[i].kind && appended_all(log, more)[log.len() + i].data == more[i].data,
    decreases more.len(),
{
    if more.len() == 0 {
        assert(log.take(log.len() as int) =~= log);
    } else {
        let rest = more.drop_last();
        lemma_appended_all(log, rest);
        let mid = appended_all(log, rest);
        let all = appended_all(log, more);
        assert(all.drop_last() =~= mid);
        assert(all.take(log.len() as int) =~= mid.take(log.len() as int));
        assert forall|i: int| 0 <= i < more.len() implies (#[trigger] all[log.len() + i]).kind
            == more[i].kind && all[log.len() + i].data == more[i].data by {
            if i < rest.len() {
                assert(all[log.len() + i] == mid[log.len() + i]);
            }
        }
    }
}

/// Mending a log puts in what it lacks and nothing else. What it held stays in front;
/// then comes, in the order of the calls, one failed result for each call that no
/// later result names; then one end of the turn, where the last turn that began
/// neither ended nor failed.
pub proof fn law_repair_is_exact(log: Seq<EventView>, placeholder: Seq<char>, time: i64)
    ensures
        ({
            let whole = repaired(log, placeholder, time);
            let calls = dangling(log);
            let n = log.len() as int;
            &&& whole.len() == n + calls.len() + if is_turn_left_open(log) {
                1int
            } else {
                0
            }
            &&& whole.take(n) == log
            &&& forall|j: int|
                0 <= j < calls.len() ==> {
                    let e = #[trigger] whole[n + j];
                    &&& e.kind == "tool/result"@
                    &&& e.data.at("call"@).as_nat() == Some(log[calls[j]].seq)
                    &&& e.data.at("output"@) == JsonTree::Text(placeholder)
                    &&& e.data.at("success"@) == JsonTree::Bool(false)
                }
            &&& is_turn_left_open(log) ==> whole.last().kind == "turn/end"@
        }),
{
    let s = scan(log);
    let whole = repaired(log, placeholder, time);
    let calls = dangling(log);
    let n = log.len() as int;
    let more = missing(s, placeholder, time);
    lemma_scan_is_exact(log);
    lemma_appended_all(log, more);
    assert(open_numbers(s.open).len() == s.open.len());
    assert(numbers_at(log, calls).len() == calls.len());
    assert forall|j: int| 0 <= j < calls.len() implies {
        let e = #[trigger] whole[n + j];
        &&& e.kind == "tool/result"@
        &&& e.data.at("call"@).as_nat() == Some(log[calls[j]].seq)
        &&& e.data.at("output"@) == JsonTree::Text(placeholder)
        &&& e.data.at("success"@) == JsonTree::Bool(false)
    } by {
        let e = whole[n + j];
        assert(open_numbers(s.open)[j] == s.open[j].seq);
        assert(numbers_at(log, calls)[j] == log[calls[j]].seq);
        assert(more[j] == put_in_result(s.open[j], placeholder, time));
        assert(e.data == more[j].data);
        lemma_put_in_data(s.open[j], placeholder, time);
    }
    if is_turn_left_open(log) {
        assert(more[more.len() - 1] == put_in_end(time));
        assert(whole.last() == whole[n + more.len() - 1]);
    }
}

/// The places of the calls without a result are all of them, each once, in order.
pub proof fn law_dangling_is_all(log: Seq<EventView>)
    ensures
        forall|j: int|
            0 <= j < dangling(log).len() ==> 0 <= #[trigger] dangling(log)[j] < log.len()
                && is_dangling(log, dangling(log)[j]),
        forall|i: int|
            0 <= i < log.len() && #[trigger] is_dangling(log, i) ==> dangling(log).contains(i),
        forall|j: int, k: int|
            0 <= j < k < dangling(log).len() ==> #[trigger] dangling(log)[j]
                < #[trigger] dangling(log)[k],
{
    lemma_dangling_among(log, log.len() as int);
}

proof fn lemma_dangling_among(log: Seq<EventView>, n: int)
    requires
        0 <= n <= log.len(),
    ensures
        forall|j: int|
            0 <= j < dangling_among(log, n).len() ==> 0 <= #[trigger] dangling_among(log, n)[j] < n
                && is_dangling(log, dangling_among(log, n)[j]),
        forall|i: int|
            0 <= i < n && #[trigger] is_dangling(log, i) ==> dangling_among(log, n).contains(i),
        forall|j: int, k: int|
            0 <= j < k < dangling_among(log, n).len() ==> #[trigger] dangling_among(log, n)[j]
                < #[trigger] dangling_among(log, n)[k],
    decreases n,
{
    if n > 0 {
        lemma_dangling_among(log, n - 1);
        let rest = dangling_among(log, n - 1);
        let all = dangling_among(log, n);
        assert forall|i: int| 0 <= i < n && #[trigger] is_dangling(log, i) implies all.contains(
            i,
        ) by {
            if i < n - 1 {
                let k = choose|k: int| 0 <= k < rest.len() && rest[k] == i;
                assert(all[k] == i);
            } else {
                assert(all[all.len() - 1] == i);
            }
        }
    }
}

proof fn lemma_put_in_data(call: OpenView, placeholder: Seq<char>, time: i64)
    ensures
        ({
            let data = put_in_result(call, placeholder, time).data;
            &&& data.at("call"@).as_nat() == Some(call.seq)
            &&& data.at("output"@) == JsonTree::Text(placeholder)
            &&& data.at("success"@) == JsonTree::Bool(false)
        }),
{
    reveal_strlit("call");
    reveal_strlit("id");
    reveal_strlit("output");
    reveal_strlit("success");
    assert("call"@.len() == 4 && "id"@.len() == 2 && "output"@.len() == 6 && "success"@.len() == 7);
    let n = JsonTree::Number(Num::Unsigned(call.seq));
    let t0 = JsonTree::object();
    let t1 = t0.with("call"@, n);
    let t2 = t1.with("id"@, JsonTree::Text(call.id));
    let t3 = t2.with("output"@, JsonTree::Text(placeholder));
    let t4 = t3.with("success"@, JsonTree::Bool(false));
    lemma_with(t0, "call"@, n);
    lemma_with(t1, "id"@, JsonTree::Text(call.id));
    lemma_with(t2, "output"@, JsonTree::Text(placeholder));
    lemma_with(t3, "success"@, JsonTree::Bool(false));
    assert(t4.get("call"@) == Some(n));
    assert(t4.get("output"@) == Some(JsonTree::Text(placeholder)));
    assert(t4.get("success"@) == Some(JsonTree::Bool(false)));
}

/// Mending a log is done once: a mended log lacks nothing, has no open turn and
/// no call without a result.
pub proof fn law_repair_is_idempotent(log: Seq<EventView>, placeholder: Seq<char>, time: i64)
    ensures
        !scan(repaired(log, placeholder, time)).turn_open,
        scan(repaired(log, placeholder, time)).open.len() == 0,
        forall|p: Seq<char>, t: i64|
            #[trigger] repaired(repaired(log, placeholder, time), p, t) == repaired(
                log,
                placeholder,
                time,
            ),
{
    let s = scan(log);
    let open = s.open;
    let results = open.map_values(|c: OpenView| put_in_result(c, placeholder, time));
    lemma_results_settle(log, placeholder, time, open.len() as int);
    assert(results.take(results.len() as int) =~= results);
    let mid = appended_all(log, results);
    let m = scan(mid);
    if m.open.len() > 0 {
        assert(open.contains(m.open[0]));
        let j = choose|j: int| 0 <= j < open.len() && open[j] == m.open[0];
        assert(m.open[0].seq != open[j].seq);
    }
    let whole = repaired(log, placeholder, time);
    if s.turn_open {
        let all = missing(s, placeholder, time);
        assert(all.drop_last() =~= results);
        assert(all.last() == put_in_end(time));
        assert(whole.drop_last() =~= mid);
        reveal_strlit("turn/start");
        reveal_strlit("turn/end");
        assert("turn/start"@.len() == 10 && "turn/end"@.len() == 8);
        assert(whole.last().kind == "turn/end"@);
    } else {
        assert(missing(s, placeholder, time) == results);
    }
    assert forall|p: Seq<char>, t: i64| #[trigger] repaired(whole, p, t) == whole by {
        assert(missing(scan(whole), p, t) =~= Seq::empty());
    }
}

/// The calls of a name that a message of the model announces, in order.
pub open spec fn announced_as(items: Seq<JsonTree>, name: Seq<char>) -> Seq<JsonTree> {
    items.filter(|c: JsonTree| text_at(c, "name"@) == name)
}

/// The calls of a name among some events, in order.
pub open spec fn calls_named(events: Seq<EventView>, name: Seq<char>) -> Seq<EventView> {
    events.filter(|e: EventView| e.kind == "tool/call"@ && text_at(e.data, "name"@) == name)
}

/// Whether a place is that of the last message of the model before another place;
/// before the beginning where there is none.
pub open spec fn is_message_before(log: Seq<EventView>, m: int, i: int) -> bool {
    &&& -1 <= m < i <= log.len()
    &&& m >= 0 ==> log[m].kind == "assistant/message"@
    &&& forall|k: int| m < k < i ==> (#[trigger] log[k]).kind != "assistant/message"@
}

/// The id that a call takes up among announced calls.
spec fn taken_id(announced: Seq<AnnouncedView>, name: Seq<char>) -> Seq<char> {
    let k = free_place(announced, name);
    if k < announced.len() {
        announced[k].id
    } else {
        Seq::empty()
    }
}

/// What is put down of a call at a place.
spec fn open_at(log: Seq<EventView>, i: int) -> OpenView {
    OpenView {
        seq: log[i].seq,
        id: taken_id(scan(log.take(i)).announced, text_at(log[i].data, "name"@)),
    }
}

spec fn opens_at(log: Seq<EventView>, places: Seq<int>) -> Seq<OpenView> {
    places.map_values(|i: int| open_at(log, i))
}

proof fn lemma_opens_step(log: Seq<EventView>, e: EventView, n: int)
    requires
        0 <= n <= log.len(),
    ensures
        opens_at(log.push(e), dangling_among(log.push(e), n)) == if e.kind == "tool/result"@
            && e.data.at("call"@).as_nat() is Some {
            without(opens_at(log, dangling_among(log, n)), e.data.at("call"@).as_nat()->0)
        } else {
            opens_at(log, dangling_among(log, n))
        },
    decreases n,
{
    let all = log.push(e);
    let settles = e.kind == "tool/result"@ && e.data.at("call"@).as_nat() is Some;
    let seq = e.data.at("call"@).as_nat()->0;
    let was = opens_at(log, dangling_among(log, n));
    let is = opens_at(all, dangling_among(all, n));
    if n == 0 {
        assert(was =~= Seq::empty());
        assert(is =~= Seq::empty());
    } else {
        let i = n - 1;
        lemma_opens_step(log, e, i);
        let old_rest = opens_at(log, dangling_among(log, i));
        let new_rest = opens_at(all, dangling_among(all, i));
        assert(all[i] == log[i]);
        assert(all.take(i) =~= log.take(i));
        assert(open_at(all, i) == open_at(log, i));
        assert forall|k: int| i < k < log.len() implies all[k] == #[trigger] log[k] by {}
        assert(all[log.len() as int] == e);
        if is_dangling(log, i) {
            assert(was =~= old_rest.push(open_at(log, i)));
            assert(was.drop_last() =~= old_rest);
            if settles && seq == log[i].seq {
                assert(!is_dangling(all, i));
            } else {
                assert forall|k: int|
                    i < k < all.len() && (#[trigger] all[k]).kind
                        == "tool/result"@ implies all[k].data.at("call"@).as_nat() != Some(
                    all[i].seq,
                ) by {
                    if k < log.len() {
                        assert(log[k].kind == "tool/result"@);
                    }
                }
                assert(is_dangling(all, i));
                assert(is =~= new_rest.push(open_at(log, i)));
            }
        } else {
            if log[i].kind == "tool/call"@ {
                let k = choose|k: int|
                    i < k < log.len() && (#[trigger] log[k]).kind == "tool/result"@
                        && log[k].data.at("call"@).as_nat() == Some(log[i].seq);
                assert(all[k] == log[k]);
            }
            assert(!is_dangling(all, i));
        }
    }
}

proof fn lemma_kinds_differ()
    ensures
        "turn/start"@ != "tool/call"@,
        "turn/end"@ != "tool/call"@,
        "turn/error"@ != "tool/call"@,
        "assistant/message"@ != "tool/call"@,
        "tool/result"@ != "tool/call"@,
        "turn/start"@ != "tool/result"@,
        "turn/end"@ != "tool/result"@,
        "turn/error"@ != "tool/result"@,
        "assistant/message"@ != "tool/result"@,
        "turn/start"@ != "assistant/message"@,
        "turn/end"@ != "assistant/message"@,
        "turn/error"@ != "assistant/message"@,
{
    reveal_strlit("turn/start");
    reveal_strlit("turn/end");
    reveal_strlit("turn/error");
    reveal_strlit("assistant/message");
    reveal_strlit("tool/call");
    reveal_strlit("tool/result");
    assert("turn/start"@.len() == 10 && "turn/end"@.len() == 8 && "turn/error"@.len() == 10
        && "assistant/message"@.len() == 17 && "tool/call"@.len() == 9 && "tool/result"@.len()
        == 11);
}

proof fn lemma_opens_are_exact(log: Seq<EventView>)
    ensures
        scan(log).open == opens_at(log, dangling(log)),
    decreases log.len(),
{
    if log.len() == 0 {
        assert(scan(log).open =~= opens_at(log, dangling(log)));
    } else {
        lemma_kinds_differ();
        let rest = log.drop_last();
        let e = log.last();
        let n = rest.len() as int;
        lemma_opens_are_exact(rest);
        assert(log =~= rest.push(e));
        assert(log.take(n) =~= rest);
        lemma_opens_step(rest, e, n);
        assert(is_dangling(log, n) == (e.kind == "tool/call"@));
        if e.kind == "tool/call"@ {
            assert(opens_at(log, dangling(log)) =~= opens_at(log, dangling_among(log, n)).push(
                open_at(log, n),
            ));
            assert(scan(log).open == scan(rest).open.push(open_at(log, n)));
        }
    }
}

proof fn lemma_named_take(items: Seq<JsonTree>, name: Seq<char>, k: int)
    requires
        0 <= k < items.len(),
    ensures
        announced_as(items.take(k + 1), name) == if text_at(items[k], "name"@) == name {
            announced_as(items.take(k), name).push(items[k])
        } else {
            announced_as(items.take(k), name)
        },
{
    reveal(Seq::filter);
    assert(items.take(k + 1).drop_last() =~= items.take(k));
}

/// The announced calls of a name in front of a place are the first of all of them.
proof fn lemma_named_prefix(items: Seq<JsonTree>, name: Seq<char>, k: int, n: int)
    requires
        0 <= k <= n <= items.len(),
    ensures
        announced_as(items.take(k), name).len() <= announced_as(items.take(n), name).len(),
        forall|j: int|
            0 <= j < announced_as(items.take(k), name).len() ==> announced_as(
                items.take(n),
                name,
            )[j] == #[trigger] announced_as(items.take(k), name)[j],
    decreases n - k,
{
    if k < n {
        lemma_named_prefix(items, name, k, n - 1);
        lemma_named_take(items, name, n - 1);
    }
}

/// A call that has as many announced ones of its name before it.
proof fn lemma_named_at(items: Seq<JsonTree>, name: Seq<char>, c: int, n: int) -> (k: int)
    requires
        0 <= n <= items.len(),
        0 <= c < announced_as(items.take(n), name).len(),
    ensures
        0 <= k < n,
        text_at(items[k], "name"@) == name,
        announced_as(items.take(k), name).len() == c,
        announced_as(items.take(n), name)[c] == items[k],
    decreases n,
{
    if n == 0 {
        reveal(Seq::filter);
        0
    } else {
        lemma_named_take(items, name, n - 1);
        if c < announced_as(items.take(n - 1), name).len() {
            let k = lemma_named_at(items, name, c, n - 1);
            k
        } else {
            n - 1
        }
    }
}

/// What is known of announced calls: their names and ids, and that as many of a name
/// are taken up as calls of the name have come.
spec fn is_taken_up(announced: Seq<AnnouncedView>, items: Seq<JsonTree>, events: Seq<EventView>) -> bool {
    &&& announced.len() == items.len()
    &&& forall|k: int|
        0 <= k < items.len() ==> (#[trigger] announced[k]).id == text_at(items[k], "id"@)
            && announced[k].name == text_at(items[k], "name"@)
    &&& forall|k: int|
        0 <= k < items.len() ==> (#[trigger] announced[k]).used == (announced_as(
            items.take(k),
            text_at(items[k], "name"@),
        ).len() < calls_named(events, text_at(items[k], "name"@)).len())
}

proof fn lemma_free_place_holds(all: Seq<AnnouncedView>, name: Seq<char>)
    ensures
        0 <= free_place(all, name) <= all.len(),
        free_place(all, name) < all.len() ==> !all[free_place(all, name)].used
            && all[free_place(all, name)].name == name,
        forall|i: int|
            0 <= i < free_place(all, name) ==> (#[trigger] all[i]).used || all[i].name != name,
    decreases all.len(),
{
    if all.len() > 0 && !(!all[0].used && all[0].name == name) {
        let rest = all.drop_first();
        lemma_free_place_holds(rest, name);
        assert forall|i: int| 0 <= i < free_place(all, name) implies (#[trigger] all[i]).used
            || all[i].name != name by {
            if i > 0 {
                assert(all[i] == rest[i - 1]);
            }
        }
    }
}

/// The announced call that is taken up next is the first of its name of which no call
/// has come.
proof fn lemma_next_taken(
    announced: Seq<AnnouncedView>,
    items: Seq<JsonTree>,
    events: Seq<EventView>,
    name: Seq<char>,
)
    requires
        is_taken_up(announced, items, events),
    ensures
        ({
            let c = calls_named(events, name).len() as int;
            let k = free_place(announced, name);
            &&& 0 <= k <= items.len()
            &&& if c < announced_as(items, name).len() {
                &&& k < items.len()
                &&& text_at(items[k], "name"@) == name
                &&& announced_as(items.take(k), name).len() == c
                &&& items[k] == announced_as(items, name)[c]
            } else {
                k == items.len()
            }
        }),
{
    let c = calls_named(events, name).len() as int;
    let k = free_place(announced, name);
    lemma_free_place_holds(announced, name);
    assert(items.take(items.len() as int) =~= items);
    if c < announced_as(items, name).len() {
        let w = lemma_named_at(items, name, c, items.len() as int);
        assert(!announced[w].used && announced[w].name == name);
        if k > w {
            assert(announced[w].used || announced[w].name != name);
        }
        assert(k <= w);
        assert(!announced[k].used && announced[k].name == name);
        if k < w {
            lemma_named_prefix(items, name, k + 1, w);
            lemma_named_take(items, name, k);
            assert(announced_as(items.take(k), name).len() < c);
        }
    } else if k < items.len() {
        lemma_named_take(items, name, k);
        lemma_named_prefix(items, name, k + 1, items.len() as int);
        assert(!announced[k].used && announced[k].name == name);
    }
}

proof fn lemma_taken_up(log: Seq<EventView>, m: int)
    requires
        is_message_before(log, m, log.len() as int),
    ensures
        is_taken_up(
            scan(log).announced,
            if m < 0 {
                Seq::empty()
            } else {
                items_at(log[m].data, "tool_calls"@)
            },
            log.skip(m + 1),
        ),
    decreases log.len(),
{
    reveal(Seq::filter);
    lemma_kinds_differ();
    let items = if m < 0 {
        Seq::empty()
    } else {
        items_at(log[m].data, "tool_calls"@)
    };
    let now = scan(log).announced;
    let events = log.skip(m + 1);
    if log.len() == 0 {
    } else if m == log.len() - 1 {
        assert(events =~= Seq::empty());
        assert(now == calls_in(log[m].data));
        assert(now.len() == items.len());
        assert forall|k: int| 0 <= k < items.len() implies (#[trigger] now[k]).id == text_at(
            items[k],
            "id"@,
        ) && now[k].name == text_at(items[k], "name"@) && !now[k].used by {}
    } else {
        let rest = log.drop_last();
        let e = log.last();
        assert forall|k: int| m < k < rest.len() implies (#[trigger] rest[k]).kind
            != "assistant/message"@ by {
            assert(rest[k] == log[k]);
        }
        assert(log[log.len() - 1].kind != "assistant/message"@);
        if m >= 0 {
            assert(rest[m] == log[m]);
        }
        lemma_taken_up(rest, m);
        let was = scan(rest).announced;
        let before = rest.skip(m + 1);
        assert(events.drop_last() =~= before);
        assert(events.last() == e);
        assert(now == scan_step(scan(rest), e).announced);
        if e.kind == "tool/call"@ {
            let name = text_at(e.data, "name"@);
            let c = calls_named(before, name).len() as int;
            let at = free_place(was, name);
            lemma_next_taken(was, items, before, name);
            assert(items.take(items.len() as int) =~= items);
            assert forall|k: int| 0 <= k < items.len() implies (#[trigger] now[k]).id == text_at(
                items[k],
                "id"@,
            ) && now[k].name == text_at(items[k], "name"@) && now[k].used == (announced_as(
                items.take(k),
                text_at(items[k], "name"@),
            ).len() < calls_named(events, text_at(items[k], "name"@)).len()) by {
                let own = text_at(items[k], "name"@);
                assert(was[k].name == own);
                let before_k = announced_as(items.take(k), own).len();
                if own == name {
                    assert(calls_named(events, own).len() == c + 1);
                    lemma_named_take(items, name, k);
                    if k < at {
                        if at < items.len() {
                            lemma_named_prefix(items, name, k + 1, at);
                        } else {
                            lemma_named_prefix(items, name, k + 1, items.len() as int);
                        }
                    } else if k > at {
                        lemma_named_take(items, name, at);
                        lemma_named_prefix(items, name, at + 1, k);
                    }
                } else {
                    assert(calls_named(events, own) == calls_named(before, own));
                }
            }
        } else {
            assert(now == was);
            assert forall|name: Seq<char>| calls_named(events, name) == #[trigger] calls_named(
                before,
                name,
            ) by {}
        }
    }
}

/// The result that is put in for a call carries the id that the model announced the
/// call under: where the last message before the call announces calls of its name, the
/// first call of the name after the message has the id of the first announced one, the
/// second that of the second, and so on. A call that was not announced has no id.
pub proof fn law_repair_answers_under_announced_ids(
    log: Seq<EventView>,
    placeholder: Seq<char>,
    time: i64,
    j: int,
    m: int,
)
    requires
        0 <= j < dangling(log).len(),
        is_message_before(log, m, dangling(log)[j]),
    ensures
        ({
            let i = dangling(log)[j];
            let name = text_at(log[i].data, "name"@);
            let earlier = calls_named(log.subrange(m + 1, i), name).len() as int;
            let announced = if m < 0 {
                Seq::empty()
            } else {
                announced_as(items_at(log[m].data, "tool_calls"@), name)
            };
            let data = repaired(log, placeholder, time)[log.len() + j].data;
            &&& data.at("call"@).as_nat() == Some(log[i].seq)
            &&& data.at("id"@) == JsonTree::Text(
                if earlier < announced.len() {
                    text_at(announced[earlier], "id"@)
                } else {
                    Seq::empty()
                },
            )
        }),
{
    reveal(Seq::filter);
    law_repair_is_exact(log, placeholder, time);
    law_dangling_is_all(log);
    lemma_opens_are_exact(log);
    let i = dangling(log)[j];
    let head = log.take(i);
    let name = text_at(log[i].data, "name"@);
    let s = scan(log);
    let more = missing(s, placeholder, time);
    lemma_appended_all(log, more);
    assert(s.open[j] == open_at(log, i));
    assert(more[j] == put_in_result(s.open[j], placeholder, time));
    assert(repaired(log, placeholder, time)[log.len() + j].data == more[j].data);
    lemma_put_in_id(s.open[j], placeholder, time);
    assert forall|k: int| m < k < head.len() implies (#[trigger] head[k]).kind
        != "assistant/message"@ by {
        assert(head[k] == log[k]);
    }
    if m >= 0 {
        assert(head[m] == log[m]);
    }
    lemma_taken_up(head, m);
    assert(head.skip(m + 1) =~= log.subrange(m + 1, i));
    let items = if m < 0 {
        Seq::empty()
    } else {
        items_at(log[m].data, "tool_calls"@)
    };
    lemma_next_taken(scan(head).announced, items, head.skip(m + 1), name);
}

proof fn lemma_put_in_id(call: OpenView, placeholder: Seq<char>, time: i64)
    ensures
        put_in_result(call, placeholder, time).data.at("id"@) == JsonTree::Text(call.id),
{
    reveal_strlit("call");
    reveal_strlit("id");
    reveal_strlit("output");
    reveal_strlit("success");
    assert("call"@.len() == 4 && "id"@.len() == 2 && "output"@.len() == 6 && "success"@.len() == 7);
    let n = JsonTree::Number(Num::Unsigned(call.seq));
    let t0 = JsonTree::object();
    let t1 = t0.with("call"@, n);
    let t2 = t1.with("id"@, JsonTree::Text(call.id));
    let t3 = t2.with("output"@, JsonTree::Text(placeholder));
    lemma_with(t0, "call"@, n);
    lemma_with(t1, "id"@, JsonTree::Text(call.id));
    lemma_with(t2, "output"@, JsonTree::Text(placeholder));
    lemma_with(t3, "success"@, JsonTree::Bool(false));
    assert(put_in_result(call, placeholder, time).data.get("id"@) == Some(JsonTree::Text(call.id)));
}

} // verus!
