//! Reading single events out of a log.
use vstd::prelude::*;
use vstd::string::*;

use crate::events::{Event, EventLog, EventView, ordered};
use crate::json::{Json, JsonTree, Num, items_of, lemma_with, says, text_at, text_of, trees};
use crate::proto::{ErrorView, Projections, RpcError, error_view, seqs_json, seqs_tree};
use crate::text::{chars_of, is_white, same, white};

verus! {

/// The place of the first event under a number; their number where there is
/// none.
pub open spec fn event_place(log: Seq<EventView>, seq: u64) -> int
    decreases log.len(),
{
    if log.len() == 0 || log[0].seq == seq {
        0
    } else {
        1 + event_place(log.drop_first(), seq)
    }
}

proof fn lemma_event_place(log: Seq<EventView>, seq: u64, k: int)
    requires
        0 <= k <= log.len(),
        k < log.len() ==> log[k].seq == seq,
        forall|i: int| 0 <= i < k ==> (#[trigger] log[i]).seq != seq,
    ensures
        event_place(log, seq) == k,
    decreases k,
{
    if k > 0 {
        assert(log[0].seq != seq);
        let rest = log.drop_first();
        assert forall|i: int| 0 <= i < k - 1 implies (#[trigger] rest[i]).seq != seq by {
            assert(rest[i] == log[i + 1]);
        }
        lemma_event_place(rest, seq, k - 1);
    }
}

fn find_event(log: &EventLog, seq: u64) -> (r: Option<usize>)
    ensures
        match r {
            Some(k) => k < log.events.len() && event_place(log@, seq) == k,
            None => event_place(log@, seq) == log@.len(),
        },
{
    let mut i: usize = 0;
    while i < log.events.len()
        invariant
            i <= log.events.len(),
            forall|k: int| 0 <= k < i ==> (#[trigger] log@[k]).seq != seq,
        decreases log.events.len() - i,
    {
        assert(log@[i as int] == log.events@[i as int]@);
        if log.events[i].seq == seq {
            proof {
                lemma_event_place(log@, seq, i as int);
            }
            return Some(i);
        }
        i = i + 1;
    }
    proof {
        lemma_event_place(log@, seq, i as int);
    }
    None
}

/// An event in short.
pub open spec fn brief(e: EventView) -> JsonTree {
    JsonTree::object().with("seq"@, JsonTree::Number(Num::Unsigned(e.seq))).with(
        "type"@,
        JsonTree::Text(e.kind),
    )
}

/// Events in short.
pub open spec fn briefs(all: Seq<EventView>) -> Seq<JsonTree> {
    all.map_values(|e: EventView| brief(e))
}

fn brief_json(e: &Event) -> (r: Json)
    ensures
        r@ == brief(e@),
{
    Json::object().with("seq", Json::number(e.seq)).with("type", Json::text(e.kind.as_str()))
}

fn briefs_between(log: &EventLog, from: usize, to: usize) -> (r: Json)
    requires
        from <= to <= log.events.len(),
    ensures
        r@ == JsonTree::Array(briefs(log@.subrange(from as int, to as int))),
{
    let ghost wanted = briefs(log@.subrange(from as int, to as int));
    let mut out: Vec<Json> = Vec::new();
    let mut i: usize = from;
    assert(trees(out@) =~= wanted.take(0));
    while i < to
        invariant
            from <= i <= to <= log.events.len(),
            wanted == briefs(log@.subrange(from as int, to as int)),
            trees(out@) == wanted.take(i - from),
        decreases to - i,
    {
        let item = brief_json(&log.events[i]);
        proof {
            assert(wanted[i - from] == item@);
            assert(trees(out@.push(item)) =~= trees(out@).push(item@));
            assert(wanted.take(i - from + 1) =~= wanted.take(i - from).push(item@));
        }
        out.push(item);
        i = i + 1;
    }
    assert(wanted.take(wanted.len() as int) =~= wanted);
    Json::array(out)
}

/// An event that is not there.
pub open spec fn no_event() -> ErrorView {
    error_view("bad-request"@, "事件不存在(seq 越界)"@)
}

/// An event in full, with up to so many events before it and behind it in
/// short.
pub open spec fn event_page(
    log: Seq<EventView>,
    id: Seq<char>,
    k: int,
    before: nat,
    after: nat,
) -> JsonTree {
    let ev = log[k];
    let from = if before <= k {
        k - before
    } else {
        0
    };
    let to = if after <= log.len() - k - 1 {
        k + 1 + after
    } else {
        log.len() as int
    };
    JsonTree::object().with("session"@, JsonTree::Text(id)).with(
        "event"@,
        brief(ev).with("data"@, ev.data),
    ).with("before"@, JsonTree::Array(briefs(log.subrange(from, k)))).with(
        "after"@,
        JsonTree::Array(briefs(log.subrange(k + 1, to))),
    )
}

/// An event in full, with its neighbours in short.
pub fn event_read(log: &EventLog, id: &str, seq: u64, before: usize, after: usize) -> (r: Result<
    Json,
    RpcError,
>)
    ensures
        ({
            let k = event_place(log@, seq);
            if k < log@.len() {
                r is Ok && r->Ok_0@ == event_page(log@, id@, k, before as nat, after as nat)
            } else {
                r is Err && r->Err_0@ == no_event()
            }
        }),
{
    let k: usize = match find_event(log, seq) {
        Some(k) => k,
        None => {
            return Err(RpcError::bad_request("事件不存在(seq 越界)"));
        },
    };
    let from: usize = if before <= k {
        k - before
    } else {
        0
    };
    let left: usize = log.events.len() - k - 1;
    let to: usize = if after <= left {
        k + 1 + after
    } else {
        log.events.len()
    };
    let ev = &log.events[k];
    assert(log@[k as int] == ev@);
    let full = brief_json(ev).with("data", ev.data.copy());
    Ok(
        Json::object().with("session", Json::text(id)).with("event", full).with(
            "before",
            briefs_between(log, from, k),
        ).with("after", briefs_between(log, k + 1, to)),
    )
}

/// The numbers of the events that an event was made from.
pub open spec fn sources_of(e: EventView) -> Seq<u64> {
    match e.sources {
        Some(s) => s,
        None => Seq::empty(),
    }
}

/// The events of a log under some numbers, in short; numbers without an event
/// are passed over.
pub open spec fn found(log: Seq<EventView>, seqs: Seq<u64>) -> Seq<JsonTree>
    decreases seqs.len(),
{
    if seqs.len() == 0 {
        Seq::empty()
    } else {
        let k = event_place(log, seqs.last());
        if k < log.len() {
            found(log, seqs.drop_last()).push(brief(log[k]))
        } else {
            found(log, seqs.drop_last())
        }
    }
}

/// Where an event comes from.
pub open spec fn event_origin(log: Seq<EventView>, id: Seq<char>, k: int) -> JsonTree {
    let ev = log[k];
    JsonTree::object().with("session"@, JsonTree::Text(id)).with(
        "seq"@,
        JsonTree::Number(Num::Unsigned(ev.seq)),
    ).with("type"@, JsonTree::Text(ev.kind)).with("sourceEventSeqs"@, seqs_tree(sources_of(ev))).with(
        "sources"@,
        JsonTree::Array(found(log, sources_of(ev))),
    )
}

/// Where an event comes from: the events that it was made from.
pub fn event_trace(log: &EventLog, id: &str, seq: u64) -> (r: Result<Json, RpcError>)
    ensures
        ({
            let k = event_place(log@, seq);
            if k < log@.len() {
                r is Ok && r->Ok_0@ == event_origin(log@, id@, k)
            } else {
                r is Err && r->Err_0@ == no_event()
            }
        }),
{
    let k: usize = match find_event(log, seq) {
        Some(k) => k,
        None => {
            return Err(RpcError::bad_request("事件不存在(seq 越界)"));
        },
    };
    let ev = &log.events[k];
    assert(log@[k as int] == ev@);
    let none: Vec<u64> = Vec::new();
    let seqs: &Vec<u64> = match &ev.sources {
        Some(v) => v,
        None => &none,
    };
    proof {
        assert(none@ =~= Seq::empty());
        assert(seqs@ == sources_of(ev@));
        assert(seqs@.take(0) =~= Seq::empty());
    }
    let mut out: Vec<Json> = Vec::new();
    let mut i: usize = 0;
    assert(trees(out@) =~= Seq::empty());
    while i < seqs.len()
        invariant
            i <= seqs.len(),
            trees(out@) == found(log@, seqs@.take(i as int)),
        decreases seqs.len() - i,
    {
        proof {
            assert(seqs@.take(i + 1).drop_last() =~= seqs@.take(i as int));
            assert(seqs@.take(i + 1).last() == seqs@[i as int]);
        }
        if let Some(p) = find_event(log, seqs[i]) {
            let item = brief_json(&log.events[p]);
            assert(log@[p as int] == log.events@[p as int]@);
            assert(trees(out@.push(item)) =~= trees(out@).push(item@));
            out.push(item);
        }
        i = i + 1;
    }
    assert(seqs@.take(seqs@.len() as int) =~= seqs@);
    Ok(
        Json::object().with("session", Json::text(id)).with("seq", Json::number(ev.seq)).with(
            "type",
            Json::text(ev.kind.as_str()),
        ).with("sourceEventSeqs", seqs_json(seqs)).with("sources", Json::array(out)),
    )
}

// Where turns begin.

/// A text with each run of white space as one space, and none around it.
pub open spec fn collapsed(s: Seq<char>) -> Seq<char>
    decreases s.len(),
{
    if s.len() == 0 {
        Seq::empty()
    } else {
        let head = collapsed(s.drop_last());
        if is_white(s.last()) {
            head
        } else if head.len() > 0 && is_white(s[s.len() - 2]) {
            head.push(' ').push(s.last())
        } else {
            head.push(s.last())
        }
    }
}

/// A text with each run of white space as one space, and none around it.
pub fn collapse(s: &str) -> (r: String)
    ensures
        r@ == collapsed(s@),
{
    let v = chars_of(s);
    let mut out = String::new();
    let mut started = false;
    let mut gap = false;
    let mut i: usize = 0;
    assert(s@.take(0) =~= Seq::empty());
    while i < v.len()
        invariant
            i <= v.len(),
            v@ == s@,
            out@ == collapsed(s@.take(i as int)),
            started == (out@.len() > 0),
            gap == (i > 0 && is_white(s@[i - 1])),
            out@.len() > 0 ==> i > 0,
        decreases v.len() - i,
    {
        let ghost seen = s@.take(i + 1);
        proof {
            assert(seen.drop_last() =~= s@.take(i as int));
            assert(seen.last() == v@[i as int]);
            if i > 0 {
                assert(seen[seen.len() - 2] == s@[i - 1]);
            }
        }
        if white(v[i]) {
            gap = true;
        } else {
            if started && gap {
                out.push(' ');
            }
            out.push(v[i]);
            started = true;
            gap = false;
        }
        i = i + 1;
    }
    assert(s@.take(s@.len() as int) =~= s@);
    out
}

proof fn lemma_collapsed_ends_solid(s: Seq<char>)
    ensures
        collapsed(s).len() > 0 ==> !is_white(collapsed(s).last()) && !is_white(collapsed(s)[0]),
        forall|i: int|
            0 <= i < collapsed(s).len() && is_white(#[trigger] collapsed(s)[i]) ==> collapsed(s)[i]
                == ' ' && i + 1 < collapsed(s).len() && !is_white(collapsed(s)[i + 1]),
    decreases s.len(),
{
    if s.len() > 0 {
        let head = collapsed(s.drop_last());
        let all = collapsed(s);
        lemma_collapsed_ends_solid(s.drop_last());
        assert(is_white(' '));
        assert forall|i: int| 0 <= i < all.len() && is_white(#[trigger] all[i]) implies all[i] == ' '
            && i + 1 < all.len() && !is_white(all[i + 1]) by {
            if i < head.len() {
                assert(all[i] == head[i]);
                assert(is_white(head[i]));
                assert(all[i + 1] == head[i + 1]);
            }
        }
        if head.len() > 0 && all.len() > 0 {
            assert(all[0] == head[0]);
        }
    }
}

/// A collapsed text neither begins nor ends with white space, and white space in
/// it is single spaces.
pub proof fn law_collapsed_is_tidy(s: Seq<char>)
    ensures
        collapsed(s).len() > 0 ==> !is_white(collapsed(s).last()) && !is_white(collapsed(s)[0]),
        forall|i: int|
            0 <= i < collapsed(s).len() && is_white(#[trigger] collapsed(s)[i]) ==> collapsed(s)[i]
                == ' ' && i + 1 < collapsed(s).len() && !is_white(collapsed(s)[i + 1]),
{
    lemma_collapsed_ends_solid(s);
}

/// The texts of the text blocks among blocks, one after another.
pub open spec fn block_texts(blocks: Seq<JsonTree>) -> Seq<char>
    decreases blocks.len(),
{
    if blocks.len() == 0 {
        Seq::empty()
    } else {
        let head = block_texts(blocks.drop_last());
        if blocks.last().at("type"@).as_text() == Some("text"@) {
            head + text_at(blocks.last(), "text"@)
        } else {
            head
        }
    }
}

/// The text of a message: its content, or that of its text blocks.
pub open spec fn message_text(data: JsonTree) -> Seq<char> {
    match data.at("content"@) {
        JsonTree::Text(s) => s,
        JsonTree::Array(blocks) => block_texts(blocks),
        _ => Seq::empty(),
    }
}

/// Whether an event is a message of the user's own, not one put in.
pub open spec fn begins_turn(e: EventView) -> bool {
    e.kind == "user/message"@ && (match e.data.at("source"@).at("kind"@).as_text() {
        Some(k) => k == "user"@,
        None => true,
    })
}

/// Where the turns of a log begin, and with what text.
pub open spec fn anchors(log: Seq<EventView>) -> Seq<(u64, Seq<char>)>
    decreases log.len(),
{
    if log.len() == 0 {
        Seq::empty()
    } else {
        let head = anchors(log.drop_last());
        if begins_turn(log.last()) {
            head.push((log.last().seq, collapsed(message_text(log.last().data))))
        } else {
            head
        }
    }
}

fn message_text_of(data: &Json) -> (r: String)
    ensures
        r@ == message_text(data@),
{
    if let Some(s) = data.str_at("content") {
        return s.to_owned();
    }
    let none: Vec<Json> = Vec::new();
    let blocks = items_of(data, "content", &none);
    let ghost all = trees(blocks@);
    let mut out = String::new();
    let mut i: usize = 0;
    assert(all.take(0) =~= Seq::empty());
    while i < blocks.len()
        invariant
            i <= blocks.len(),
            all == trees(blocks@),
            out@ == block_texts(all.take(i as int)),
        decreases blocks.len() - i,
    {
        proof {
            assert(all.take(i + 1).drop_last() =~= all.take(i as int));
            assert(all.take(i + 1).last() == blocks@[i as int]@);
        }
        if says(&blocks[i], "type", "text") {
            let part = text_of(&blocks[i], "text");
            out.append(part.as_str());
        }
        i = i + 1;
    }
    assert(all.take(all.len() as int) =~= all);
    out
}

/// The model of anchors.
pub open spec fn anchor_views(v: Seq<(u64, String)>) -> Seq<(u64, Seq<char>)> {
    v.map_values(|a: (u64, String)| (a.0, a.1@))
}

/// Where the turns of a log begin, and with what text.
pub fn session_anchor_index(log: &EventLog) -> (r: Vec<(u64, String)>)
    ensures
        anchor_views(r@) == anchors(log@),
{
    let mut out: Vec<(u64, String)> = Vec::new();
    let mut i: usize = 0;
    proof {
        assert(log@.take(0) =~= Seq::empty());
        assert(anchor_views(out@) =~= Seq::empty());
    }
    while i < log.events.len()
        invariant
            i <= log.events.len(),
            anchor_views(out@) == anchors(log@.take(i as int)),
        decreases log.events.len() - i,
    {
        let ev = &log.events[i];
        proof {
            assert(log@.take(i + 1).drop_last() =~= log@.take(i as int));
            assert(log@.take(i + 1).last() == ev@);
        }
        if same(ev.kind.as_str(), "user/message") {
            let own = match crate::json::member(&ev.data, "source").str_at("kind") {
                Some(k) => same(k, "user"),
                None => true,
            };
            if own {
                let text = message_text_of(&ev.data);
                let anchor = (ev.seq, collapse(text.as_str()));
                assert(anchor_views(out@.push(anchor)) =~= anchor_views(out@).push(
                    (anchor.0, anchor.1@),
                ));
                out.push(anchor);
            }
        }
        i = i + 1;
    }
    assert(log@.take(log@.len() as int) =~= log@);
    out
}

/// The title of a session, with the last event that it takes in; an empty log
/// has none.
pub fn title_projection(title: Option<&str>, high_water: u64) -> (r: Option<Projections>)
    ensures
        match title {
            None => r is None,
            Some(t) => {
                &&& r is Some
                &&& r->0.as_of_seq == (if high_water == 0 {
                    -1i64
                } else {
                    high_water as i64
                })
                &&& r->0.values@ == JsonTree::object().with("title"@, JsonTree::Text(t@))
            },
        },
{
    match title {
        None => None,
        Some(t) => Some(
            Projections {
                as_of_seq: if high_water == 0 {
                    -1
                } else {
                    high_water as i64
                },
                values: Json::object().with("title", Json::text(t)),
            },
        ),
    }
}

proof fn lemma_event_place_holds(log: Seq<EventView>, seq: u64)
    ensures
        0 <= event_place(log, seq) <= log.len(),
        event_place(log, seq) < log.len() ==> log[event_place(log, seq)].seq == seq,
        forall|i: int| 0 <= i < event_place(log, seq) ==> (#[trigger] log[i]).seq != seq,
    decreases log.len(),
{
    if log.len() > 0 && log[0].seq != seq {
        let rest = log.drop_first();
        lemma_event_place_holds(rest, seq);
        assert forall|i: int| 0 <= i < event_place(log, seq) implies (#[trigger] log[i]).seq
            != seq by {
            if i > 0 {
                assert(log[i] == rest[i - 1]);
            }
        }
    }
}

/// An event is found by its number exactly where the log has one under it; in a log
/// whose numbers ascend it is the one.
pub proof fn law_event_is_found_by_number(log: Seq<EventView>, seq: u64)
    ensures
        event_place(log, seq) < log.len() <==> exists|i: int|
            0 <= i < log.len() && (#[trigger] log[i]).seq == seq,
        ordered(log) ==> forall|i: int|
            0 <= i < log.len() && (#[trigger] log[i]).seq == seq ==> event_place(log, seq) == i,
{
    lemma_event_place_holds(log, seq);
    let k = event_place(log, seq);
    if ordered(log) {
        assert forall|i: int| 0 <= i < log.len() && (#[trigger] log[i]).seq == seq implies k == i by {
            assert(k <= i);
            assert(k == i || log[k].seq < log[i].seq);
        }
    }
}

proof fn lemma_brief(e: EventView)
    ensures
        brief(e).at("seq"@).as_nat() == Some(e.seq),
        brief(e).at("type"@) == JsonTree::Text(e.kind),
        brief(e).with("data"@, e.data).at("seq"@).as_nat() == Some(e.seq),
        brief(e).with("data"@, e.data).at("type"@) == JsonTree::Text(e.kind),
        brief(e).with("data"@, e.data).at("data"@) == e.data,
        brief(e) is Object,
{
    reveal_strlit("seq");
    reveal_strlit("type");
    reveal_strlit("data");
    assert("seq"@.len() == 3 && "type"@.len() == 4 && "data"@.len() == 4 && "type"@[0] == 't'
        && "data"@[0] == 'd');
    let n = JsonTree::Number(Num::Unsigned(e.seq));
    let t0 = JsonTree::object();
    let t1 = t0.with("seq"@, n);
    let t2 = t1.with("type"@, JsonTree::Text(e.kind));
    let t3 = t2.with("data"@, e.data);
    lemma_with(t0, "seq"@, n);
    lemma_with(t1, "type"@, JsonTree::Text(e.kind));
    lemma_with(t2, "data"@, e.data);
    assert(t2.get("seq"@) == Some(n));
    assert(t2.get("type"@) == Some(JsonTree::Text(e.kind)));
    assert(t3.get("seq"@) == Some(n));
    assert(t3.get("type"@) == Some(JsonTree::Text(e.kind)));
    assert(t3.get("data"@) == Some(e.data));
}

/// A page of an event shows the event in full, and in short the events that stand right
/// before it and right behind it, in order, as many as were asked for as far as there
/// are any.
pub proof fn law_event_page_shows_neighbours(
    log: Seq<EventView>,
    id: Seq<char>,
    k: int,
    before: nat,
    after: nat,
)
    requires
        0 <= k < log.len(),
    ensures
        ({
            let page = event_page(log, id, k, before, after);
            let front = page.at("before"@)->Array_0;
            let back = page.at("after"@)->Array_0;
            &&& page.at("session"@) == JsonTree::Text(id)
            &&& page.at("event"@).at("seq"@).as_nat() == Some(log[k].seq)
            &&& page.at("event"@).at("type"@) == JsonTree::Text(log[k].kind)
            &&& page.at("event"@).at("data"@) == log[k].data
            &&& page.at("before"@) is Array && page.at("after"@) is Array
            &&& front.len() == if before <= k {
                before as int
            } else {
                k
            }
            &&& back.len() == if after <= log.len() - k - 1 {
                after as int
            } else {
                log.len() - k - 1
            }
            &&& forall|j: int|
                0 <= j < front.len() ==> (#[trigger] front[j]).at("seq"@).as_nat() == Some(
                    log[k - front.len() + j].seq,
                ) && front[j].at("type"@) == JsonTree::Text(log[k - front.len() + j].kind)
            &&& forall|j: int|
                0 <= j < back.len() ==> (#[trigger] back[j]).at("seq"@).as_nat() == Some(
                    log[k + 1 + j].seq,
                ) && back[j].at("type"@) == JsonTree::Text(log[k + 1 + j].kind)
        }),
{
    reveal_strlit("session");
    reveal_strlit("event");
    reveal_strlit("before");
    reveal_strlit("after");
    assert("session"@.len() == 7 && "event"@.len() == 5 && "before"@.len() == 6 && "after"@.len()
        == 5 && "event"@[0] == 'e' && "after"@[0] == 'a');
    let from = if before <= k {
        k - before
    } else {
        0
    };
    let to = if after <= log.len() - k - 1 {
        k + 1 + after
    } else {
        log.len() as int
    };
    let full = brief(log[k]).with("data"@, log[k].data);
    let front = briefs(log.subrange(from, k));
    let back = briefs(log.subrange(k + 1, to));
    let t0 = JsonTree::object();
    let t1 = t0.with("session"@, JsonTree::Text(id));
    let t2 = t1.with("event"@, full);
    let t3 = t2.with("before"@, JsonTree::Array(front));
    let t4 = t3.with("after"@, JsonTree::Array(back));
    lemma_with(t0, "session"@, JsonTree::Text(id));
    lemma_with(t1, "event"@, full);
    lemma_with(t2, "before"@, JsonTree::Array(front));
    lemma_with(t3, "after"@, JsonTree::Array(back));
    assert(t4 == event_page(log, id, k, before, after));
    assert(t4.get("session"@) == Some(JsonTree::Text(id)));
    assert(t4.get("event"@) == Some(full));
    assert(t4.get("before"@) == Some(JsonTree::Array(front)));
    assert(t4.get("after"@) == Some(JsonTree::Array(back)));
    lemma_brief(log[k]);
    assert forall|j: int| 0 <= j < front.len() implies (#[trigger] front[j]).at("seq"@).as_nat()
        == Some(log[from + j].seq) && front[j].at("type"@) == JsonTree::Text(log[from + j].kind) by {
        lemma_brief(log[from + j]);
    }
    assert forall|j: int| 0 <= j < back.len() implies (#[trigger] back[j]).at("seq"@).as_nat()
        == Some(log[k + 1 + j].seq) && back[j].at("type"@) == JsonTree::Text(log[k + 1 + j].kind) by {
        lemma_brief(log[k + 1 + j]);
    }
}

proof fn lemma_found(log: Seq<EventView>, seqs: Seq<u64>)
    requires
        ordered(log),
    ensures
        found(log, seqs).len() <= seqs.len(),
        forall|i: int, k: int|
            0 <= i < seqs.len() && 0 <= k < log.len() && #[trigger] seqs[i] == (
            #[trigger] log[k]).seq ==> found(log, seqs).contains(brief(log[k])),
        forall|j: int|
            0 <= j < found(log, seqs).len() ==> exists|k: int|
                0 <= k < log.len() && seqs.contains(log[k].seq) && (#[trigger] brief(log[k]))
                    == #[trigger] found(log, seqs)[j],
        (forall|i: int|
            0 <= i < seqs.len() ==> exists|k: int|
                0 <= k < log.len() && (#[trigger] log[k]).seq == #[trigger] seqs[i]) ==> found(
            log,
            seqs,
        ).len() == seqs.len(),
    decreases seqs.len(),
{
    if seqs.len() > 0 {
        let rest = seqs.drop_last();
        let last = seqs.last();
        lemma_found(log, rest);
        law_event_is_found_by_number(log, last);
        lemma_event_place_holds(log, last);
        let head = found(log, rest);
        let all = found(log, seqs);
        let at = event_place(log, last);
        assert(seqs[seqs.len() - 1] == last);
        assert forall|i: int, k: int|
            0 <= i < seqs.len() && 0 <= k < log.len() && #[trigger] seqs[i] == (
            #[trigger] log[k]).seq implies all.contains(brief(log[k])) by {
            if i < rest.len() {
                assert(rest[i] == seqs[i]);
                assert(head.contains(brief(log[k])));
                let j = choose|j: int| 0 <= j < head.len() && head[j] == brief(log[k]);
                assert(all[j] == brief(log[k]));
            } else {
                assert(at == k);
                assert(all[all.len() - 1] == brief(log[k]));
            }
        }
        assert forall|j: int| 0 <= j < all.len() implies exists|k: int|
            0 <= k < log.len() && seqs.contains(log[k].seq) && (#[trigger] brief(log[k]))
                == #[trigger] all[j] by {
            if j < head.len() {
                assert(all[j] == head[j]);
                let k = choose|k: int|
                    0 <= k < log.len() && rest.contains(log[k].seq) && (#[trigger] brief(log[k]))
                        == head[j];
                let m = choose|m: int| 0 <= m < rest.len() && rest[m] == log[k].seq;
                assert(seqs[m] == log[k].seq);
                assert(brief(log[k]) == all[j]);
            } else {
                assert(seqs[seqs.len() - 1] == log[at].seq);
                assert(brief(log[at]) == all[j]);
            }
        }
        if forall|i: int|
            0 <= i < seqs.len() ==> exists|k: int|
                0 <= k < log.len() && (#[trigger] log[k]).seq == #[trigger] seqs[i] {
            assert forall|i: int| 0 <= i < rest.len() implies exists|k: int|
                0 <= k < log.len() && (#[trigger] log[k]).seq == #[trigger] rest[i] by {
                assert(seqs[i] == rest[i]);
            }
            assert(seqs[seqs.len() - 1] == last);
        }
    }
}

/// The trace of an event names the events that it was made from: all their numbers, and
/// in short each of them that the log has, and no other.
pub proof fn law_trace_names_sources(log: Seq<EventView>, id: Seq<char>, k: int)
    requires
        ordered(log),
        0 <= k < log.len(),
    ensures
        ({
            let trace = event_origin(log, id, k);
            let seqs = match log[k].sources {
                Some(s) => s,
                None => Seq::empty(),
            };
            let numbers = trace.at("sourceEventSeqs"@)->Array_0;
            let all = trace.at("sources"@)->Array_0;
            &&& trace.at("session"@) == JsonTree::Text(id)
            &&& trace.at("seq"@).as_nat() == Some(log[k].seq)
            &&& trace.at("type"@) == JsonTree::Text(log[k].kind)
            &&& trace.at("sourceEventSeqs"@) is Array && trace.at("sources"@) is Array
            &&& numbers.len() == seqs.len()
            &&& forall|i: int|
                0 <= i < seqs.len() ==> (#[trigger] numbers[i]).as_nat() == Some(seqs[i])
            &&& forall|i: int, m: int|
                0 <= i < seqs.len() && 0 <= m < log.len() && #[trigger] seqs[i] == (
                #[trigger] log[m]).seq ==> all.contains(brief(log[m]))
            &&& forall|j: int|
                0 <= j < all.len() ==> exists|m: int|
                    0 <= m < log.len() && seqs.contains(log[m].seq) && (#[trigger] brief(log[m]))
                        == #[trigger] all[j]
        }),
{
    reveal_strlit("session");
    reveal_strlit("seq");
    reveal_strlit("type");
    reveal_strlit("sourceEventSeqs");
    reveal_strlit("sources");
    assert("session"@.len() == 7 && "seq"@.len() == 3 && "type"@.len() == 4
        && "sourceEventSeqs"@.len() == 15 && "sources"@.len() == 7 && "session"@[1] == 'e'
        && "sources"@[1] == 'o');
    let ev = log[k];
    let seqs = sources_of(ev);
    lemma_found(log, seqs);
    let n = JsonTree::Number(Num::Unsigned(ev.seq));
    let t0 = JsonTree::object();
    let t1 = t0.with("session"@, JsonTree::Text(id));
    let t2 = t1.with("seq"@, n);
    let t3 = t2.with("type"@, JsonTree::Text(ev.kind));
    let t4 = t3.with("sourceEventSeqs"@, seqs_tree(seqs));
    let t5 = t4.with("sources"@, JsonTree::Array(found(log, seqs)));
    lemma_with(t0, "session"@, JsonTree::Text(id));
    lemma_with(t1, "seq"@, n);
    lemma_with(t2, "type"@, JsonTree::Text(ev.kind));
    lemma_with(t3, "sourceEventSeqs"@, seqs_tree(seqs));
    lemma_with(t4, "sources"@, JsonTree::Array(found(log, seqs)));
    assert(t5 == event_origin(log, id, k));
    assert(t5.get("session"@) == Some(JsonTree::Text(id)));
    assert(t5.get("seq"@) == Some(n));
    assert(t5.get("type"@) == Some(JsonTree::Text(ev.kind)));
    assert(t5.get("sourceEventSeqs"@) == Some(seqs_tree(seqs)));
    assert(t5.get("sources"@) == Some(JsonTree::Array(found(log, seqs))));
}

/// Collapsing touches white space only: all other characters stay, in order, and those
/// that stood side by side still do.
pub proof fn law_collapsed_keeps_words(s: Seq<char>)
    ensures
        collapsed(s).filter(|c: char| !is_white(c)) == s.filter(|c: char| !is_white(c)),
        (forall|i: int| 0 <= i < s.len() ==> !is_white(#[trigger] s[i])) ==> collapsed(s) == s,
{
    let keep = |c: char| !is_white(c);
    lemma_collapsed_keeps(s, keep);
    if forall|i: int| 0 <= i < s.len() ==> !is_white(#[trigger] s[i]) {
        lemma_collapsed_plain(s);
    }
}

proof fn lemma_collapsed_keeps(s: Seq<char>, keep: spec_fn(char) -> bool)
    requires
        forall|c: char| #[trigger] keep(c) == !is_white(c),
    ensures
        collapsed(s).filter(keep) == s.filter(keep),
    decreases s.len(),
{
    reveal_with_fuel(Seq::<_>::filter, 3);
    if s.len() == 0 {
        assert(collapsed(s) =~= s);
    } else {
        lemma_collapsed_keeps(s.drop_last(), keep);
        let head = collapsed(s.drop_last());
        let c = s.last();
        assert(!keep(' '));
        assert(head.push(c).drop_last() =~= head);
        assert(head.push(' ').drop_last() =~= head);
        assert(head.push(' ').push(c).drop_last() =~= head.push(' '));
    }
}

proof fn lemma_collapsed_plain(s: Seq<char>)
    requires
        forall|i: int| 0 <= i < s.len() ==> !is_white(#[trigger] s[i]),
    ensures
        collapsed(s) == s,
    decreases s.len(),
{
    if s.len() == 0 {
        assert(collapsed(s) =~= s);
    } else {
        let rest = s.drop_last();
        assert forall|i: int| 0 <= i < rest.len() implies !is_white(#[trigger] rest[i]) by {
            assert(rest[i] == s[i]);
        }
        lemma_collapsed_plain(rest);
        assert(!is_white(s[s.len() - 1]));
        if s.len() > 1 {
            assert(!is_white(s[s.len() - 2]));
        }
        assert(rest.push(s.last()) =~= s);
    }
}

/// The text of blocks is that of the first ones and then that of the others; a block of
/// text gives its text, and no other block gives any.
pub proof fn law_block_texts_follow(a: Seq<JsonTree>, b: Seq<JsonTree>, block: JsonTree)
    ensures
        block_texts(a + b) == block_texts(a) + block_texts(b),
        block.at("type"@) == JsonTree::Text("text"@) && block.at("text"@) is Text ==> block_texts(
            seq![block],
        ) == block.at("text"@)->Text_0,
        block.at("type"@) != JsonTree::Text("text"@) ==> block_texts(seq![block]).len() == 0,
    decreases b.len(),
{
    reveal_with_fuel(block_texts, 2);
    assert(seq![block].drop_last() =~= Seq::empty());
    assert(Seq::<char>::empty() + text_at(block, "text"@) =~= text_at(block, "text"@));
    if b.len() == 0 {
        assert(a + b =~= a);
        assert(block_texts(a) + block_texts(b) =~= block_texts(a));
    } else {
        law_block_texts_follow(a, b.drop_last(), block);
        assert((a + b).drop_last() =~= a + b.drop_last());
        assert((a + b).last() == b.last());
        assert(block_texts(a) + (block_texts(b.drop_last()) + text_at(b.last(), "text"@))
            =~= block_texts(a) + block_texts(b.drop_last()) + text_at(b.last(), "text"@));
    }
}

/// Whether a message is of the user's own: nothing is said of where it comes from, or
/// that it comes from the user.
pub open spec fn is_own_message(e: EventView) -> bool {
    e.kind == "user/message"@ && (!(e.data.at("source"@).at("kind"@) is Text) || e.data.at(
        "source"@,
    ).at("kind"@) == JsonTree::Text("user"@))
}

/// There is one anchor for each message of the user's own, in the order of the log, under
/// the number of the message and with its text on one line, and no other anchor.
pub proof fn law_anchors_are_own_messages(log: Seq<EventView>)
    ensures
        anchors(log).len() == log.filter(|e: EventView| is_own_message(e)).len(),
        forall|j: int|
            0 <= j < anchors(log).len() ==> (#[trigger] anchors(log)[j]) == (
                log.filter(|e: EventView| is_own_message(e))[j].seq,
                collapsed(message_text(log.filter(|e: EventView| is_own_message(e))[j].data)),
            ),
        forall|i: int|
            0 <= i < log.len() && is_own_message(#[trigger] log[i]) ==> anchors(log).contains(
                (log[i].seq, collapsed(message_text(log[i].data))),
            ),
{
    let own = |e: EventView| is_own_message(e);
    lemma_anchors(log, own);
    let kept = log.filter(own);
    assert forall|i: int| 0 <= i < log.len() && is_own_message(#[trigger] log[i]) implies anchors(
        log,
    ).contains((log[i].seq, collapsed(message_text(log[i].data)))) by {
        assert(own(log[i]));
        assert(log.contains(log[i]));
        crate::text::lemma_filter_contains(log, own, log[i]);
        let j = choose|j: int| 0 <= j < kept.len() && kept[j] == log[i];
        assert(anchors(log)[j] == (log[i].seq, collapsed(message_text(log[i].data))));
    }
}

proof fn lemma_anchors(log: Seq<EventView>, own: spec_fn(EventView) -> bool)
    requires
        forall|e: EventView| #[trigger] own(e) == is_own_message(e),
    ensures
        anchors(log).len() == log.filter(own).len(),
        forall|j: int|
            0 <= j < anchors(log).len() ==> (#[trigger] anchors(log)[j]) == (
                log.filter(own)[j].seq,
                collapsed(message_text(log.filter(own)[j].data)),
            ),
    decreases log.len(),
{
    reveal(Seq::filter);
    if log.len() > 0 {
        lemma_anchors(log.drop_last(), own);
        assert(own(log.last()) == begins_turn(log.last()));
    }
}

/// The text of a message is its content where that is a text, else that of its blocks.
pub proof fn law_message_text_is_its_content(data: JsonTree)
    ensures
        data.at("content"@) matches JsonTree::Text(s) ==> message_text(data) == s,
        data.at("content"@) matches JsonTree::Array(b) ==> message_text(data) == block_texts(b),
        !(data.at("content"@) is Text) && !(data.at("content"@) is Array) ==> message_text(
            data,
        ).len() == 0,
{
}

} // verus!
