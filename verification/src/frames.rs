//! Frames that are pushed to clients, and those that a client starts from.
use vstd::prelude::*;
use vstd::string::*;

use crate::ids::is_hyphenated_uuid;
use crate::json::{Json, JsonTree, Num, lemma_with, trees};
use crate::proto::{
    HostSessionAdded, HostSessionStatus, ProjectionFrame, QuestionResolvedFrame, ServerRequest,
    SessionEvent, SessionEventFrame, SubscribedFrame,
};
use crate::pump::{frame, queue_frame, queue_items, shown_queue};
use crate::queue::QueueState;
use crate::text::{comes_before, lemma_text_before_chains, lemma_text_before_total, text_before};

verus! {

/// A frame that is pushed: it asks for no answer, and has a token of its own.
pub open spec fn is_push(f: ServerRequest) -> bool {
    f.ty@ == "server-request"@ && is_hyphenated_uuid(f.rpc_id@)
}

/// The frame of an event.
pub fn event_frame(session_id: &str, event: SessionEvent) -> (r: ServerRequest)
    ensures
        is_push(r),
        r.method@ == "session/event"@,
        r.payload@ == JsonTree::object().with("sessionId"@, JsonTree::Text(session_id@)).with(
            "event"@,
            event.tree(),
        ),
{
    let content = SessionEventFrame { session_id: session_id.to_owned(), event, view: None };
    let payload = content.to_json();
    frame("session/event", payload)
}

/// The frame that says that a question is settled.
pub fn resolved_frame(session_id: &str, rpc_id: &str, outcome: &str) -> (r: ServerRequest)
    ensures
        is_push(r),
        r.method@ == "question/resolved"@,
        r.payload@ == JsonTree::object().with("sessionId"@, JsonTree::Text(session_id@)).with(
            "questionRpcId"@,
            JsonTree::Text(rpc_id@),
        ).with("outcome"@, JsonTree::Text(outcome@)),
{
    let content = QuestionResolvedFrame {
        session_id: session_id.to_owned(),
        question_rpc_id: rpc_id.to_owned(),
        outcome: outcome.to_owned(),
    };
    frame("question/resolved", content.to_json())
}

/// The frame that says whether a session is running.
pub fn status_frame(session_id: &str, running: bool) -> (r: ServerRequest)
    ensures
        is_push(r),
        r.method@ == "host/session-status"@,
        r.payload@ == JsonTree::object().with("sessionId"@, JsonTree::Text(session_id@)).with(
            "running"@,
            JsonTree::Bool(running),
        ),
{
    let content = HostSessionStatus { session_id: session_id.to_owned(), running };
    frame("host/session-status", content.to_json())
}

/// The frame that says that a session has come up.
pub fn added_frame(added: &HostSessionAdded) -> (r: ServerRequest)
    ensures
        is_push(r),
        r.method@ == "host/session-added"@,
        r.payload@ == added.tree(),
{
    frame("host/session-added", added.to_json())
}

/// The frame that says that a session is gone.
pub fn removed_frame(session_id: &str) -> (r: ServerRequest)
    ensures
        is_push(r),
        r.method@ == "host/session-removed"@,
        r.payload@ == JsonTree::object().with("sessionId"@, JsonTree::Text(session_id@)),
{
    frame("host/session-removed", Json::object().with("sessionId", Json::text(session_id)))
}

/// The frame that says that a session has a new title.
pub fn title_frame(session_id: &str, title: &str) -> (r: ServerRequest)
    ensures
        is_push(r),
        r.method@ == "session/projection"@,
        r.payload@ == JsonTree::object().with("sessionId"@, JsonTree::Text(session_id@)).with(
            "key"@,
            JsonTree::Text("title"@),
        ).with("value"@, JsonTree::Text(title@)).with("seq"@, JsonTree::Number(Num::Unsigned(0))),
{
    let content = ProjectionFrame {
        session_id: session_id.to_owned(),
        key: "title".to_owned(),
        value: Json::text(title),
        seq: 0,
    };
    frame("session/projection", content.to_json())
}

/// The frame of what a session has used, with what its last turn has used.
pub fn stats_frame(session_id: &str, stats: Json, last_turn: Option<Json>) -> (r: ServerRequest)
    requires
        stats@ is Object || stats@ is Null,
    ensures
        is_push(r),
        r.method@ == "session/stats"@,
        r.payload@ == JsonTree::object().with("sessionId"@, JsonTree::Text(session_id@)).with(
            "stats"@,
            match last_turn {
                Some(t) => stats@.set("lastTurn"@, t@),
                None => stats@,
            },
        ),
{
    let all = match last_turn {
        Some(t) => stats.set("lastTurn", t),
        None => stats,
    };
    frame(
        "session/stats",
        Json::object().with("sessionId", Json::text(session_id)).with("stats", all),
    )
}

/// The frame of what has changed in the record of a session's steps.
pub fn trajectory_frame(
    session_id: &str,
    records: Vec<Json>,
    requests: Vec<Json>,
    total: u64,
    last_seq: u64,
) -> (r: ServerRequest)
    ensures
        is_push(r),
        r.method@ == "trajectory/delta"@,
        r.payload@ == JsonTree::object().with("sessionId"@, JsonTree::Text(session_id@)).with(
            "records"@,
            JsonTree::Array(trees(records@)),
        ).with("requests"@, JsonTree::Array(trees(requests@))).with(
            "total"@,
            JsonTree::Number(Num::Unsigned(total)),
        ).with("lastSeq"@, JsonTree::Number(Num::Unsigned(last_seq))),
{
    frame(
        "trajectory/delta",
        Json::object().with("sessionId", Json::text(session_id)).with(
            "records",
            Json::array(records),
        ).with("requests", Json::array(requests)).with("total", Json::number(total)).with(
            "lastSeq",
            Json::number(last_seq),
        ),
    )
}

/// The frames that a client of the host starts from: the workspaces are to be
/// asked for anew.
pub fn host_baseline() -> (r: Vec<ServerRequest>)
    ensures
        r@.len() == 1,
        is_push(r@[0]),
        r@[0].method@ == "host/workspace-changed"@,
        r@[0].payload@ == JsonTree::object(),
{
    let mut v: Vec<ServerRequest> = Vec::new();
    v.push(frame("host/workspace-changed", Json::object()));
    v
}

// What a client starts from.

/// An assembled session.
#[derive(Debug)]
pub struct Attached {
    pub id: String,
    pub last_seq: u64,
    pub queue: QueueState,
    /// The frame that says what mode it is in, where it was ever set.
    pub mode: Option<ServerRequest>,
}

/// Sessions with one more, behind those whose id does not come after its.
pub open spec fn placed_by_id(all: Seq<Attached>, s: Attached) -> Seq<Attached>
    decreases all.len(),
{
    if all.len() == 0 || !text_before(s.id@, all.last().id@) {
        all.push(s)
    } else {
        placed_by_id(all.drop_last(), s).push(all.last())
    }
}

/// Sessions in the order of their ids.
pub open spec fn by_id(all: Seq<Attached>) -> Seq<Attached>
    decreases all.len(),
{
    if all.len() == 0 {
        Seq::empty()
    } else {
        placed_by_id(by_id(all.drop_last()), all.last())
    }
}

fn place_by_id(out: &mut Vec<Attached>, s: Attached)
    ensures
        final(out)@ == placed_by_id(old(out)@, s),
{
    let ghost all = out@;
    let mut k: usize = out.len();
    proof {
        assert(all.take(k as int) =~= all);
        assert(placed_by_id(all.take(k as int), s) + all.skip(k as int) =~= placed_by_id(all, s));
    }
    while k > 0 && comes_before(s.id.as_str(), out[k - 1].id.as_str())
        invariant
            k <= out.len(),
            out@ == all,
            placed_by_id(all, s) == placed_by_id(all.take(k as int), s) + all.skip(k as int),
        decreases k,
    {
        proof {
            assert(all.take(k as int).last() == all[k - 1]);
            assert(all.take(k as int).drop_last() =~= all.take(k - 1));
            let head = placed_by_id(all.take(k - 1), s);
            assert(head.push(all[k - 1]) + all.skip(k as int) =~= head + all.skip(k - 1));
        }
        k = k - 1;
    }
    proof {
        if k > 0 {
            assert(all.take(k as int).last() == all[k - 1]);
        }
        assert(placed_by_id(all.take(k as int), s) == all.take(k as int).push(s));
        assert(all.take(k as int).push(s) + all.skip(k as int) =~= all.insert(k as int, s));
    }
    out.insert(k, s);
}

fn sort_by_id(items: Vec<Attached>) -> (r: Vec<Attached>)
    ensures
        r@ == by_id(items@),
{
    let ghost all = items@;
    let mut rest = items;
    let mut out: Vec<Attached> = Vec::new();
    let ghost mut i: int = 0;
    assert(all.take(0) =~= Seq::empty());
    while rest.len() > 0
        invariant
            0 <= i,
            i + rest@.len() == all.len(),
            rest@ == all.skip(i),
            out@ == by_id(all.take(i)),
        decreases rest.len(),
    {
        assert(all.skip(i)[0] == all[i]);
        let s = rest.remove(0);
        proof {
            assert(all.skip(i).remove(0) =~= all.skip(i + 1));
            assert(all.take(i + 1).drop_last() =~= all.take(i));
            assert(all.take(i + 1).last() == s);
        }
        place_by_id(&mut out, s);
        proof {
            i = i + 1;
        }
    }
    assert(all.take(all.len() as int) =~= all);
    out
}

/// What a frame says: its kind and what it holds.
pub open spec fn said(f: ServerRequest) -> (Seq<char>, JsonTree) {
    (f.method@, f.payload@)
}

/// What frames say.
pub open spec fn all_said(v: Seq<ServerRequest>) -> Seq<(Seq<char>, JsonTree)> {
    v.map_values(|f: ServerRequest| said(f))
}

/// What a client starts from, of a session: the last event, the queue unless it
/// is empty, and the mode where it was ever set.
pub open spec fn session_baseline(s: Attached) -> Seq<(Seq<char>, JsonTree)> {
    let first = seq![
        (
            "session/subscribed"@,
            JsonTree::object().with("sessionId"@, JsonTree::Text(s.id@)).with(
                "lastSeq"@,
                JsonTree::Number(Num::Unsigned(s.last_seq)),
            ),
        ),
    ];
    let queue = if shown_queue(s.queue@).len() == 0 {
        Seq::empty()
    } else {
        seq![
            (
                "session/queue"@,
                JsonTree::object().with("sessionId"@, JsonTree::Text(s.id@)).with(
                    "items"@,
                    JsonTree::Array(shown_queue(s.queue@)),
                ),
            ),
        ]
    };
    let mode = match s.mode {
        Some(f) => seq![said(f)],
        None => Seq::empty(),
    };
    first + queue + mode
}

/// What a client starts from, of sessions.
pub open spec fn sessions_baseline(all: Seq<Attached>) -> Seq<(Seq<char>, JsonTree)>
    decreases all.len(),
{
    if all.len() == 0 {
        Seq::empty()
    } else {
        sessions_baseline(all.drop_last()) + session_baseline(all.last())
    }
}

/// Whether a frame says what mode one of some sessions is in.
pub open spec fn is_mode_of(all: Seq<Attached>, f: ServerRequest) -> bool {
    exists|j: int| 0 <= j < all.len() && (#[trigger] all[j]).mode == Some(f)
}

fn push_baseline(out: &mut Vec<ServerRequest>, s: Attached)
    ensures
        all_said(final(out)@) == all_said(old(out)@) + session_baseline(s),
        final(out)@.len() >= old(out)@.len(),
        final(out)@.take(old(out)@.len() as int) == old(out)@,
        forall|i: int|
            old(out)@.len() <= i < final(out)@.len() ==> is_push(#[trigger] final(out)@[i])
                || s.mode == Some(final(out)@[i]),
{
    let ghost start = out@;
    let content = SubscribedFrame { session_id: s.id.clone(), last_seq: s.last_seq };
    let f1 = frame("session/subscribed", content.to_json());
    out.push(f1);
    let ghost a = out@;
    let items = queue_items(&s.queue);
    assert(trees(items@).len() == items@.len());
    if items.len() > 0 {
        let f2 = queue_frame(s.id.as_str(), &s.queue);
        out.push(f2);
    }
    let ghost b = out@;
    if let Some(f3) = s.mode {
        out.push(f3);
    }
    proof {
        assert(all_said(out@) =~= all_said(start) + session_baseline(s));
        assert(out@.take(start.len() as int) =~= start);
    }
}

/// The frames that a client starts from: for each assembled session, in the
/// order of their ids, its last event, its queue and its mode; then the
/// questions that wait, under the tokens that they were asked under.
pub fn mux_baseline(attached: Vec<Attached>, waiting: Vec<ServerRequest>) -> (r: Vec<ServerRequest>)
    ensures
        all_said(r@) == sessions_baseline(by_id(attached@)) + all_said(waiting@),
        r@.len() >= waiting@.len(),
        r@.skip(r@.len() - waiting@.len()) == waiting@,
        forall|i: int|
            0 <= i < r@.len() - waiting@.len() ==> is_push(#[trigger] r@[i]) || is_mode_of(
                attached@,
                r@[i],
            ),
{
    let sorted = sort_by_id(attached);
    let ghost all = sorted@;
    let mut rest = sorted;
    let mut out: Vec<ServerRequest> = Vec::new();
    let ghost mut i: int = 0;
    proof {
        assert(all.take(0) =~= Seq::empty());
        assert(all_said(out@) =~= Seq::empty());
    }
    while rest.len() > 0
        invariant
            0 <= i,
            i + rest@.len() == all.len(),
            rest@ == all.skip(i),
            all_said(out@) == sessions_baseline(all.take(i)),
            all == by_id(attached@),
            forall|k: int|
                0 <= k < out@.len() ==> is_push(#[trigger] out@[k]) || is_mode_of(
                    attached@,
                    out@[k],
                ),
        decreases rest.len(),
    {
        assert(all.skip(i)[0] == all[i]);
        let s = rest.remove(0);
        let ghost before = out@;
        proof {
            assert(all.skip(i).remove(0) =~= all.skip(i + 1));
            assert(all.take(i + 1).drop_last() =~= all.take(i));
            assert(all.take(i + 1).last() == s);
            lemma_by_id_holds(attached@, i);
        }
        push_baseline(&mut out, s);
        proof {
            assert forall|k: int| 0 <= k < out@.len() implies is_push(#[trigger] out@[k])
                || is_mode_of(attached@, out@[k]) by {
                if k < before.len() {
                    assert(out@.take(before.len() as int)[k] == out@[k]);
                } else if s.mode == Some(out@[k]) {
                    let j = choose|j: int| 0 <= j < attached@.len() && attached@[j] == s;
                    assert(attached@[j].mode == Some(out@[k]));
                }
            }
            i = i + 1;
        }
    }
    assert(all.take(all.len() as int) =~= all);
    let ghost head = out@;
    let mut tail = waiting;
    out.append(&mut tail);
    proof {
        assert(out@ =~= head + waiting@);
        assert(all_said(out@) =~= all_said(head) + all_said(waiting@));
        assert(out@.skip(out@.len() - waiting@.len()) =~= waiting@);
    }
    out
}

proof fn lemma_placed_by_id(all: Seq<Attached>, s: Attached)
    requires
        forall|i: int, j: int|
            0 <= i < j < all.len() ==> !text_before((#[trigger] all[j]).id@, (#[trigger] all[i]).id@),
    ensures
        placed_by_id(all, s).len() == all.len() + 1,
        forall|i: int, j: int|
            0 <= i < j < placed_by_id(all, s).len() ==> !text_before(
                (#[trigger] placed_by_id(all, s)[j]).id@,
                (#[trigger] placed_by_id(all, s)[i]).id@,
            ),
        forall|i: int|
            0 <= i < placed_by_id(all, s).len() ==> (#[trigger] placed_by_id(all, s)[i]) == s
                || all.contains(placed_by_id(all, s)[i]),
        placed_by_id(all, s).to_multiset() == all.push(s).to_multiset(),
    decreases all.len(),
{
    let out = placed_by_id(all, s);
    if all.len() == 0 || !text_before(s.id@, all.last().id@) {
        assert forall|i: int, j: int| 0 <= i < j < out.len() implies !text_before(
            (#[trigger] out[j]).id@,
            (#[trigger] out[i]).id@,
        ) by {
            if j == all.len() && i < all.len() - 1 {
                let last = all[all.len() - 1];
                assert(!text_before(last.id@, all[i].id@));
                lemma_text_before_total(last.id@, all[i].id@);
                if text_before(s.id@, all[i].id@) {
                    if text_before(all[i].id@, last.id@) {
                        lemma_text_before_chains(s.id@, all[i].id@, last.id@);
                    }
                }
            }
        }
        assert forall|i: int| 0 <= i < out.len() implies (#[trigger] out[i]) == s || all.contains(
            out[i],
        ) by {
            if i < all.len() {
                assert(all[i] == out[i]);
            }
        }
    } else {
        let rest = all.drop_last();
        assert forall|i: int, j: int| 0 <= i < j < rest.len() implies !text_before(
            (#[trigger] rest[j]).id@,
            (#[trigger] rest[i]).id@,
        ) by {
            assert(rest[i] == all[i] && rest[j] == all[j]);
        }
        lemma_placed_by_id(rest, s);
        let head = placed_by_id(rest, s);
        let last = all.last();
        assert forall|i: int| 0 <= i < head.len() implies !text_before(
            last.id@,
            (#[trigger] head[i]).id@,
        ) by {
            if head[i] == s {
                if text_before(last.id@, s.id@) {
                    lemma_text_before_chains(s.id@, last.id@, s.id@);
                    crate::text::lemma_text_before_differs(s.id@, s.id@);
                }
            } else {
                let k = choose|k: int| 0 <= k < rest.len() && rest[k] == head[i];
                assert(all[k] == rest[k]);
                assert(!text_before(all[all.len() - 1].id@, all[k].id@));
            }
        }
        assert forall|i: int, j: int| 0 <= i < j < out.len() implies !text_before(
            (#[trigger] out[j]).id@,
            (#[trigger] out[i]).id@,
        ) by {
            assert(out[i] == head[i]);
            if j < head.len() {
                assert(out[j] == head[j]);
            }
        }
        assert forall|i: int| 0 <= i < out.len() implies (#[trigger] out[i]) == s || all.contains(
            out[i],
        ) by {
            if i < head.len() {
                assert(out[i] == head[i]);
                if head[i] != s {
                    let k = choose|k: int| 0 <= k < rest.len() && rest[k] == head[i];
                    assert(all[k] == head[i]);
                }
            } else {
                assert(all[all.len() - 1] == out[i]);
            }
        }
        vstd::seq_lib::to_multiset_insert(all, all.len() as int, s);
        vstd::seq_lib::to_multiset_insert(rest, rest.len() as int, s);
        vstd::seq_lib::to_multiset_insert(rest, rest.len() as int, last);
        vstd::seq_lib::to_multiset_insert(head, head.len() as int, last);
        assert(all.insert(all.len() as int, s) =~= all.push(s));
        assert(rest.insert(rest.len() as int, s) =~= rest.push(s));
        assert(rest.insert(rest.len() as int, last) =~= all);
        assert(head.insert(head.len() as int, last) =~= out);
        assert(out.to_multiset() =~= all.push(s).to_multiset());
    }
}

/// The sessions that a client starts from are all that are assembled, each once,
/// in the order of their ids.
pub proof fn law_baseline_is_ordered(all: Seq<Attached>)
    ensures
        by_id(all).len() == all.len(),
        by_id(all).to_multiset() == all.to_multiset(),
        forall|i: int, j: int|
            0 <= i < j < by_id(all).len() ==> !text_before(
                (#[trigger] by_id(all)[j]).id@,
                (#[trigger] by_id(all)[i]).id@,
            ),
    decreases all.len(),
{
    if all.len() > 0 {
        let rest = all.drop_last();
        let head = by_id(rest);
        law_baseline_is_ordered(rest);
        lemma_placed_by_id(head, all.last());
        vstd::seq_lib::to_multiset_insert(head, head.len() as int, all.last());
        vstd::seq_lib::to_multiset_insert(rest, rest.len() as int, all.last());
        assert(head.insert(head.len() as int, all.last()) =~= head.push(all.last()));
        assert(rest.insert(rest.len() as int, all.last()) =~= all);
        assert(by_id(all).to_multiset() =~= all.to_multiset());
    } else {
        assert(by_id(all) =~= all);
    }
}

proof fn lemma_by_id_holds(all: Seq<Attached>, k: int)
    requires
        0 <= k < by_id(all).len(),
    ensures
        all.contains(by_id(all)[k]),
    decreases all.len(),
{
    let rest = all.drop_last();
    law_baseline_is_ordered(rest);
    lemma_placed_by_id(by_id(rest), all.last());
    let hit = by_id(all)[k];
    if hit == all.last() {
        assert(all[all.len() - 1] == hit);
    } else {
        let j = choose|j: int| 0 <= j < by_id(rest).len() && by_id(rest)[j] == hit;
        lemma_by_id_holds(rest, j);
        let m = choose|m: int| 0 <= m < rest.len() && rest[m] == hit;
        assert(all[m] == hit);
    }
}

/// What a client starts from, of a session: first where its log stands; its queue exactly
/// where anything is shown of it; last its mode, exactly where it was set.
pub proof fn law_session_baseline(s: Attached)
    ensures
        ({
            let all = session_baseline(s);
            let queue = shown_queue(s.queue@);
            &&& all.len() >= 1
            &&& all[0].0 == "session/subscribed"@
            &&& all[0].1.at("sessionId"@) == JsonTree::Text(s.id@)
            &&& all[0].1.at("lastSeq"@).as_nat() == Some(s.last_seq)
            &&& queue.len() > 0 ==> all.len() >= 2 && all[1].0 == "session/queue"@ && all[1].1.at(
                "sessionId"@,
            ) == JsonTree::Text(s.id@) && all[1].1.at("items"@) == JsonTree::Array(queue)
            &&& s.mode matches Some(f) ==> all.last() == (f.method@, f.payload@)
            &&& all.len() == 1 + (if queue.len() > 0 {
                1int
            } else {
                0
            }) + (if s.mode is Some {
                1int
            } else {
                0
            })
        }),
{
    reveal_strlit("sessionId");
    reveal_strlit("lastSeq");
    reveal_strlit("items");
    assert("sessionId"@.len() == 9 && "lastSeq"@.len() == 7 && "items"@.len() == 5);
    let t0 = JsonTree::object();
    let t1 = t0.with("sessionId"@, JsonTree::Text(s.id@));
    let n = JsonTree::Number(Num::Unsigned(s.last_seq));
    let q = JsonTree::Array(shown_queue(s.queue@));
    lemma_with(t0, "sessionId"@, JsonTree::Text(s.id@));
    lemma_with(t1, "lastSeq"@, n);
    lemma_with(t1, "items"@, q);
    assert(t1.with("lastSeq"@, n).get("sessionId"@) == Some(JsonTree::Text(s.id@)));
    assert(t1.with("lastSeq"@, n).get("lastSeq"@) == Some(n));
    assert(t1.with("items"@, q).get("sessionId"@) == Some(JsonTree::Text(s.id@)));
    assert(t1.with("items"@, q).get("items"@) == Some(q));
}

/// What a client starts from, of sessions, is what it starts from of the first ones and
/// then of the others: none is left out.
pub proof fn law_baselines_follow(a: Seq<Attached>, b: Seq<Attached>, s: Attached)
    ensures
        sessions_baseline(a + b) == sessions_baseline(a) + sessions_baseline(b),
        sessions_baseline(seq![s]) == session_baseline(s),
    decreases b.len(),
{
    reveal_with_fuel(sessions_baseline, 2);
    assert(seq![s].drop_last() =~= Seq::empty());
    assert(Seq::<(Seq<char>, JsonTree)>::empty() + session_baseline(s) =~= session_baseline(s));
    if b.len() == 0 {
        assert(a + b =~= a);
        assert(sessions_baseline(a) + sessions_baseline(b) =~= sessions_baseline(a));
    } else {
        law_baselines_follow(a, b.drop_last(), s);
        assert((a + b).drop_last() =~= a + b.drop_last());
        assert((a + b).last() == b.last());
        assert(sessions_baseline(a) + (sessions_baseline(b.drop_last()) + session_baseline(b.last()))
            =~= sessions_baseline(a) + sessions_baseline(b.drop_last()) + session_baseline(b.last()));
    }
}

/// A frame that the host sends of its own accord says that it is one, under an id of
/// thirty-six characters in five groups.
pub proof fn law_push_says_what_it_is(f: ServerRequest)
    requires
        is_push(f),
    ensures
        f.ty@ == "server-request"@,
        f.rpc_id@.len() == 36,
        forall|i: int|
            0 <= i < 36 ==> (#[trigger] f.rpc_id@[i] == '-' <==> i == 8 || i == 13 || i == 18 || i
                == 23),
{
    let s = f.rpc_id@;
    assert forall|i: int| 0 <= i < 36 implies (#[trigger] s[i] == '-' <==> i == 8 || i == 13 || i
        == 18 || i == 23) by {
        if !(i == 8 || i == 13 || i == 18 || i == 23) {
            assert(crate::ids::is_hex_digit(s[i]));
        }
    }
}

} // verus!
