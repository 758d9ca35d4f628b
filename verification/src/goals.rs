//! The goals of a session. The log holds them as snapshots; the last one
//! counts.
use vstd::prelude::*;
use vstd::string::*;

use crate::events::{Event, EventLog, EventView, fresh_event};
use crate::json::{Json, JsonTree, Num, has_entry, items_at, items_of, lemma_with, trees};
use crate::proto::{RpcError, error_view};
use crate::text::same;

verus! {

/// A goal.
#[derive(Debug, PartialEq)]
pub struct GoalItem {
    pub id: u64,
    pub text: String,
    pub done: bool,
    pub paused: bool,
}

/// The model of a goal.
pub struct GoalView {
    pub id: u64,
    pub text: Seq<char>,
    pub done: bool,
    pub paused: bool,
}

impl View for GoalItem {
    type V = GoalView;

    open spec fn view(&self) -> GoalView {
        GoalView { id: self.id, text: self.text@, done: self.done, paused: self.paused }
    }
}

pub open spec fn goal_views(v: Seq<GoalItem>) -> Seq<GoalView> {
    v.map_values(|g: GoalItem| g@)
}

/// How a goal stands in the log.
pub open spec fn goal_tree(g: GoalView) -> JsonTree {
    JsonTree::object().with("id"@, JsonTree::Number(Num::Unsigned(g.id))).with(
        "text"@,
        JsonTree::Text(g.text),
    ).with("done"@, JsonTree::Bool(g.done)).with("paused"@, JsonTree::Bool(g.paused))
}

/// How goals stand in the log.
pub open spec fn goals_tree(goals: Seq<GoalView>) -> JsonTree {
    JsonTree::object().with(
        "goals"@,
        JsonTree::Array(goals.map_values(|g: GoalView| goal_tree(g))),
    )
}

/// Whether a value says that something is so; it does not where it says
/// nothing.
pub open spec fn flag(t: JsonTree, key: Seq<char>) -> bool {
    t.at(key) == JsonTree::Bool(true)
}

/// The goal that an entry of the log stands for, where it has an id and a text.
pub open spec fn goal_from(t: JsonTree) -> Option<GoalView> {
    match (t.at("id"@).as_nat(), t.at("text"@).as_text()) {
        (Some(id), Some(text)) => Some(
            GoalView { id, text, done: flag(t, "done"@), paused: flag(t, "paused"@) },
        ),
        _ => None,
    }
}

/// The goals that entries of the log stand for.
pub open spec fn goals_from(all: Seq<JsonTree>) -> Seq<GoalView>
    decreases all.len(),
{
    if all.len() == 0 {
        Seq::empty()
    } else {
        match goal_from(all.last()) {
            Some(g) => goals_from(all.drop_last()).push(g),
            None => goals_from(all.drop_last()),
        }
    }
}

/// The goals of a log: those of its last snapshot.
pub open spec fn current_goals(log: Seq<EventView>) -> Seq<GoalView>
    decreases log.len(),
{
    if log.len() == 0 {
        Seq::empty()
    } else if log.last().kind == "goal/state"@ {
        goals_from(items_at(log.last().data, "goals"@))
    } else {
        current_goals(log.drop_last())
    }
}

fn flag_at(j: &Json, key: &str) -> (r: bool)
    ensures
        r == flag(j@, key@),
{
    match j.bool_at(key) {
        Some(b) => b,
        None => false,
    }
}

fn read_goals(data: &Json) -> (r: Vec<GoalItem>)
    ensures
        goal_views(r@) == goals_from(items_at(data@, "goals"@)),
{
    let none: Vec<Json> = Vec::new();
    let items = items_of(data, "goals", &none);
    let ghost all = trees(items@);
    let mut out: Vec<GoalItem> = Vec::new();
    let mut i: usize = 0;
    proof {
        assert(all.take(0) =~= Seq::empty());
        assert(goal_views(out@) =~= Seq::empty());
    }
    while i < items.len()
        invariant
            i <= items.len(),
            all == trees(items@),
            goal_views(out@) == goals_from(all.take(i as int)),
        decreases items.len() - i,
    {
        proof {
            assert(all.take(i + 1).drop_last() =~= all.take(i as int));
            assert(all.take(i + 1).last() == items@[i as int]@);
        }
        if let Some(id) = items[i].u64_at("id") {
            if let Some(text) = items[i].str_at("text") {
                let g = GoalItem {
                    id,
                    text: text.to_owned(),
                    done: flag_at(&items[i], "done"),
                    paused: flag_at(&items[i], "paused"),
                };
                assert(goal_views(out@.push(g)) =~= goal_views(out@).push(g@));
                out.push(g);
            }
        }
        i = i + 1;
    }
    assert(all.take(all.len() as int) =~= all);
    out
}

/// The goals of a log.
pub fn goal_current(log: &EventLog) -> (r: Vec<GoalItem>)
    ensures
        goal_views(r@) == current_goals(log@),
{
    let mut i: usize = log.events.len();
    assert(log@.take(i as int) =~= log@);
    while i > 0
        invariant
            i <= log.events.len(),
            current_goals(log@) == current_goals(log@.take(i as int)),
        decreases i,
    {
        let ev = &log.events[i - 1];
        assert(log@.take(i as int).last() == ev@);
        assert(log@.take(i as int).drop_last() =~= log@.take(i - 1));
        if same(ev.kind.as_str(), "goal/state") {
            return read_goals(&ev.data);
        }
        i = i - 1;
    }
    let none: Vec<GoalItem> = Vec::new();
    assert(goal_views(none@) =~= Seq::empty());
    none
}

/// The snapshot of goals, as it is written to the log.
pub fn goals_json(goals: &Vec<GoalItem>) -> (r: Json)
    ensures
        r@ == goals_tree(goal_views(goals@)),
{
    let ghost wanted = goal_views(goals@).map_values(|g: GoalView| goal_tree(g));
    let mut items: Vec<Json> = Vec::new();
    let mut i: usize = 0;
    while i < goals.len()
        invariant
            i <= goals.len(),
            wanted == goal_views(goals@).map_values(|g: GoalView| goal_tree(g)),
            trees(items@) == wanted.take(i as int),
        decreases goals.len() - i,
    {
        let g = &goals[i];
        let item = Json::object().with("id", Json::number(g.id)).with(
            "text",
            Json::text(g.text.as_str()),
        ).with("done", Json::Bool(g.done)).with("paused", Json::Bool(g.paused));
        proof {
            assert(wanted[i as int] == item@);
            assert(trees(items@.push(item)) =~= trees(items@).push(item@));
            assert(wanted.take(i + 1) =~= wanted.take(i as int).push(item@));
        }
        items.push(item);
        i = i + 1;
    }
    assert(wanted.take(wanted.len() as int) =~= wanted);
    Json::object().with("goals", Json::array(items))
}

/// The event that writes a snapshot of goals to the log.
pub fn goal_event(goals: &Vec<GoalItem>, time: i64) -> (r: Event)
    ensures
        r@ == fresh_event("goal/state"@, time, goals_tree(goal_views(goals@))),
{
    Event::new("goal/state", time, goals_json(goals))
}

/// The goals as they are shown.
pub fn goal_state(session_id: &str, goals: &Vec<GoalItem>) -> (r: Json)
    ensures
        r@ == JsonTree::object().with("sessionId"@, JsonTree::Text(session_id@)).with(
            "goals"@,
            goals_tree(goal_views(goals@)).at("goals"@),
        ),
{
    let snapshot = goals_json(goals);
    Json::object().with("sessionId", Json::text(session_id)).with(
        "goals",
        crate::json::member(&snapshot, "goals"),
    )
}

/// The greatest id of goals; 0 where there are none.
pub open spec fn top_id(goals: Seq<GoalView>) -> u64
    decreases goals.len(),
{
    if goals.len() == 0 {
        0
    } else {
        let rest = top_id(goals.drop_last());
        if goals.last().id > rest {
            goals.last().id
        } else {
            rest
        }
    }
}

/// The place of the first goal of an id; their number where there is none.
pub open spec fn goal_place(goals: Seq<GoalView>, id: u64) -> int
    decreases goals.len(),
{
    if goals.len() == 0 || goals[0].id == id {
        0
    } else {
        1 + goal_place(goals.drop_first(), id)
    }
}

proof fn lemma_goal_place(goals: Seq<GoalView>, id: u64, k: int)
    requires
        0 <= k <= goals.len(),
        k < goals.len() ==> goals[k].id == id,
        forall|i: int| 0 <= i < k ==> (#[trigger] goals[i]).id != id,
    ensures
        goal_place(goals, id) == k,
    decreases k,
{
    if k > 0 {
        assert(goals[0].id != id);
        let rest = goals.drop_first();
        assert forall|i: int| 0 <= i < k - 1 implies (#[trigger] rest[i]).id != id by {
            assert(rest[i] == goals[i + 1]);
        }
        lemma_goal_place(rest, id, k - 1);
    }
}

/// The goals with one more, under the next id.
pub open spec fn with_goal(goals: Seq<GoalView>, text: Seq<char>) -> Seq<GoalView> {
    goals.push(
        GoalView { id: (top_id(goals) + 1) as u64, text, done: false, paused: false },
    )
}

/// Adds a goal, under an id greater than any.
pub fn goal_create(goals: &mut Vec<GoalItem>, text: &str) -> (r: u64)
    requires
        top_id(goal_views(old(goals)@)) < u64::MAX,
    ensures
        goal_views(final(goals)@) == with_goal(goal_views(old(goals)@), text@),
        r == top_id(goal_views(old(goals)@)) + 1,
{
    let ghost all = goal_views(goals@);
    let mut top: u64 = 0;
    let mut i: usize = 0;
    assert(all.take(0) =~= Seq::empty());
    while i < goals.len()
        invariant
            i <= goals.len(),
            all == goal_views(goals@),
            top == top_id(all.take(i as int)),
        decreases goals.len() - i,
    {
        proof {
            assert(all.take(i + 1).drop_last() =~= all.take(i as int));
            assert(all.take(i + 1).last() == goals@[i as int]@);
        }
        if goals[i].id > top {
            top = goals[i].id;
        }
        i = i + 1;
    }
    assert(all.take(all.len() as int) =~= all);
    let id: u64 = top + 1;
    let g = GoalItem { id, text: text.to_owned(), done: false, paused: false };
    let ghost before = goals@;
    goals.push(g);
    assert(goal_views(goals@) =~= goal_views(before).push(g@));
    id
}

fn find_goal(goals: &Vec<GoalItem>, id: u64) -> (r: Option<usize>)
    ensures
        match r {
            Some(k) => k < goals.len() && goal_place(goal_views(goals@), id) == k,
            None => goal_place(goal_views(goals@), id) == goals.len(),
        },
{
    let ghost all = goal_views(goals@);
    let mut i: usize = 0;
    while i < goals.len()
        invariant
            i <= goals.len(),
            all == goal_views(goals@),
            forall|k: int| 0 <= k < i ==> (#[trigger] all[k]).id != id,
        decreases goals.len() - i,
    {
        assert(all[i as int] == goals@[i as int]@);
        if goals[i].id == id {
            proof {
                lemma_goal_place(all, id, i as int);
            }
            return Some(i);
        }
        i = i + 1;
    }
    proof {
        lemma_goal_place(all, id, i as int);
    }
    None
}

/// What a goal is changed to.
pub enum GoalChange {
    Text(Seq<char>),
    Done,
    Paused(bool),
}

/// A goal after a change.
pub open spec fn changed_goal(g: GoalView, change: GoalChange) -> GoalView {
    match change {
        GoalChange::Text(text) => GoalView { text, ..g },
        GoalChange::Done => GoalView { done: true, ..g },
        GoalChange::Paused(paused) => GoalView { paused, ..g },
    }
}

/// What comes of changing a goal: only it changes, where there is one of the
/// id.
pub open spec fn goal_changed(
    before: Seq<GoalView>,
    after: Seq<GoalView>,
    id: u64,
    change: GoalChange,
    r: Result<(), RpcError>,
) -> bool {
    let k = goal_place(before, id);
    if k < before.len() {
        r is Ok && after == before.update(k, changed_goal(before[k], change))
    } else {
        r is Err && r->Err_0@ == error_view("bad-request"@, "目标不存在"@) && after == before
    }
}

/// Puts another text in the place of a goal's.
pub fn goal_edit(goals: &mut Vec<GoalItem>, id: u64, text: &str) -> (r: Result<(), RpcError>)
    ensures
        goal_changed(
            goal_views(old(goals)@),
            goal_views(final(goals)@),
            id,
            GoalChange::Text(text@),
            r,
        ),
{
    let ghost before = goal_views(goals@);
    match find_goal(goals, id) {
        None => Err(RpcError::bad_request("目标不存在")),
        Some(k) => {
            let mut g = goals.remove(k);
            assert(g@ == before[k as int]);
            g.text = text.to_owned();
            let ghost v = g@;
            goals.insert(k, g);
            assert(goal_views(goals@) =~= before.update(k as int, v));
            Ok(())
        },
    }
}

/// Marks a goal as reached.
pub fn goal_complete(goals: &mut Vec<GoalItem>, id: u64) -> (r: Result<(), RpcError>)
    ensures
        goal_changed(
            goal_views(old(goals)@),
            goal_views(final(goals)@),
            id,
            GoalChange::Done,
            r,
        ),
{
    let ghost before = goal_views(goals@);
    match find_goal(goals, id) {
        None => Err(RpcError::bad_request("目标不存在")),
        Some(k) => {
            let mut g = goals.remove(k);
            assert(g@ == before[k as int]);
            g.done = true;
            let ghost v = g@;
            goals.insert(k, g);
            assert(goal_views(goals@) =~= before.update(k as int, v));
            Ok(())
        },
    }
}

/// Puts a goal aside, or takes it up again.
pub fn goal_set_paused(goals: &mut Vec<GoalItem>, id: u64, paused: bool) -> (r: Result<
    (),
    RpcError,
>)
    ensures
        goal_changed(
            goal_views(old(goals)@),
            goal_views(final(goals)@),
            id,
            GoalChange::Paused(paused),
            r,
        ),
{
    let ghost before = goal_views(goals@);
    match find_goal(goals, id) {
        None => Err(RpcError::bad_request("目标不存在")),
        Some(k) => {
            let mut g = goals.remove(k);
            assert(g@ == before[k as int]);
            g.paused = paused;
            let ghost v = g@;
            goals.insert(k, g);
            assert(goal_views(goals@) =~= before.update(k as int, v));
            Ok(())
        },
    }
}

/// The place of the goal that is being worked on: the last one that is not
/// reached. It is -1 where there is none.
pub open spec fn open_place(goals: Seq<GoalView>) -> int
    decreases goals.len(),
{
    if goals.len() == 0 {
        -1
    } else if !goals.last().done {
        goals.len() - 1
    } else {
        open_place(goals.drop_last())
    }
}

/// What comes of changing the goal that is being worked on: only it changes,
/// where there is one.
pub open spec fn open_goal_changed(
    before: Seq<GoalView>,
    after: Seq<GoalView>,
    change: GoalChange,
    r: Result<(), RpcError>,
) -> bool {
    let k = open_place(before);
    if k >= 0 {
        r is Ok && after == before.update(k, changed_goal(before[k], change))
    } else {
        r is Err && r->Err_0@ == error_view("bad-request"@, "目标不存在"@) && after == before
    }
}

proof fn lemma_open_place(goals: Seq<GoalView>)
    ensures
        -1 <= open_place(goals) < goals.len(),
    decreases goals.len(),
{
    if goals.len() > 0 {
        lemma_open_place(goals.drop_last());
    }
}

fn find_open_goal(goals: &Vec<GoalItem>) -> (r: Option<usize>)
    ensures
        match r {
            Some(k) => k < goals.len() && open_place(goal_views(goals@)) == k,
            None => open_place(goal_views(goals@)) == -1,
        },
{
    let ghost all = goal_views(goals@);
    let mut k: usize = goals.len();
    assert(all.take(k as int) =~= all);
    while k > 0
        invariant
            k <= goals.len(),
            all == goal_views(goals@),
            open_place(all) == open_place(all.take(k as int)),
        decreases k,
    {
        proof {
            assert(all.take(k as int).last() == goals@[k - 1]@);
            assert(all.take(k as int).drop_last() =~= all.take(k - 1));
        }
        k = k - 1;
        if !goals[k].done {
            return Some(k);
        }
    }
    None
}

/// Puts another text in the place of that of the goal that is being worked on.
pub fn goal_edit_open(goals: &mut Vec<GoalItem>, text: &str) -> (r: Result<(), RpcError>)
    ensures
        open_goal_changed(
            goal_views(old(goals)@),
            goal_views(final(goals)@),
            GoalChange::Text(text@),
            r,
        ),
{
    let ghost before = goal_views(goals@);
    match find_open_goal(goals) {
        None => Err(RpcError::bad_request("目标不存在")),
        Some(k) => {
            let mut g = goals.remove(k);
            assert(g@ == before[k as int]);
            g.text = text.to_owned();
            let ghost v = g@;
            goals.insert(k, g);
            assert(goal_views(goals@) =~= before.update(k as int, v));
            Ok(())
        },
    }
}

/// Puts the goal that is being worked on aside, or takes it up again.
pub fn goal_pause_open(goals: &mut Vec<GoalItem>, paused: bool) -> (r: Result<(), RpcError>)
    ensures
        open_goal_changed(
            goal_views(old(goals)@),
            goal_views(final(goals)@),
            GoalChange::Paused(paused),
            r,
        ),
{
    let ghost before = goal_views(goals@);
    match find_open_goal(goals) {
        None => Err(RpcError::bad_request("目标不存在")),
        Some(k) => {
            let mut g = goals.remove(k);
            assert(g@ == before[k as int]);
            g.paused = paused;
            let ghost v = g@;
            goals.insert(k, g);
            assert(goal_views(goals@) =~= before.update(k as int, v));
            Ok(())
        },
    }
}

/// Taking a goal up again undoes that it was put aside.
pub proof fn law_resume_undoes_pause(goals: Seq<GoalView>)
    requires
        open_place(goals) >= 0,
        !goals[open_place(goals)].paused,
    ensures
        ({
            let k = open_place(goals);
            let aside = goals.update(k, changed_goal(goals[k], GoalChange::Paused(true)));
            &&& open_place(aside) == k
            &&& aside.update(k, changed_goal(aside[k], GoalChange::Paused(false))) == goals
        }),
{
    let k = open_place(goals);
    lemma_open_place(goals);
    let aside = goals.update(k, changed_goal(goals[k], GoalChange::Paused(true)));
    lemma_same_open_place(goals, aside);
    assert(aside.update(k, changed_goal(aside[k], GoalChange::Paused(false))) =~= goals);
}

proof fn lemma_same_open_place(a: Seq<GoalView>, b: Seq<GoalView>)
    requires
        a.len() == b.len(),
        forall|i: int| 0 <= i < a.len() ==> (#[trigger] a[i]).done == b[i].done,
    ensures
        open_place(a) == open_place(b),
    decreases a.len(),
{
    if a.len() > 0 {
        assert(a[a.len() - 1].done == b[b.len() - 1].done);
        assert forall|i: int| 0 <= i < a.drop_last().len() implies (
        #[trigger] a.drop_last()[i]).done == b.drop_last()[i].done by {
            assert(a[i].done == b[i].done);
        }
        lemma_same_open_place(a.drop_last(), b.drop_last());
    }
}

/// Gives all goals up.
pub fn goal_clear(goals: &mut Vec<GoalItem>)
    ensures
        goal_views(final(goals)@) == Seq::<GoalView>::empty(),
{
    goals.clear();
    assert(goal_views(goals@) =~= Seq::<GoalView>::empty());
}

proof fn lemma_goal_round_trip(g: GoalView)
    ensures
        goal_from(goal_tree(g)) == Some(g),
{
    reveal_strlit("id");
    reveal_strlit("text");
    reveal_strlit("done");
    reveal_strlit("paused");
    assert("id"@.len() == 2 && "text"@.len() == 4 && "done"@.len() == 4 && "paused"@.len() == 6
        && "text"@[0] == 't' && "done"@[0] == 'd');
    let n = JsonTree::Number(Num::Unsigned(g.id));
    let t0 = JsonTree::object();
    let t1 = t0.with("id"@, n);
    let t2 = t1.with("text"@, JsonTree::Text(g.text));
    let t3 = t2.with("done"@, JsonTree::Bool(g.done));
    lemma_with(t0, "id"@, n);
    lemma_with(t1, "text"@, JsonTree::Text(g.text));
    lemma_with(t2, "done"@, JsonTree::Bool(g.done));
    lemma_with(t3, "paused"@, JsonTree::Bool(g.paused));
    assert(goal_tree(g).get("id"@) == Some(n));
    assert(goal_tree(g).get("text"@) == Some(JsonTree::Text(g.text)));
    assert(goal_tree(g).get("done"@) == Some(JsonTree::Bool(g.done)));
    assert(goal_tree(g).get("paused"@) == Some(JsonTree::Bool(g.paused)));
}

proof fn lemma_goals_round_trip(goals: Seq<GoalView>)
    ensures
        goals_from(goals.map_values(|g: GoalView| goal_tree(g))) == goals,
    decreases goals.len(),
{
    let all = goals.map_values(|g: GoalView| goal_tree(g));
    if goals.len() == 0 {
        assert(goals_from(all) =~= goals);
    } else {
        lemma_goals_round_trip(goals.drop_last());
        lemma_goal_round_trip(goals.last());
        assert(all.drop_last() =~= goals.drop_last().map_values(|g: GoalView| goal_tree(g)));
        assert(goals.drop_last().push(goals.last()) =~= goals);
    }
}

/// A snapshot that is written to a log is what is read back, whatever stood in
/// the log before, and whatever but a snapshot comes behind it.
pub proof fn law_written_goals_are_current(
    log: Seq<EventView>,
    snapshot: EventView,
    goals: Seq<GoalView>,
    more: Seq<EventView>,
)
    requires
        snapshot.kind == "goal/state"@,
        snapshot.data == goals_tree(goals),
        forall|i: int| 0 <= i < more.len() ==> (#[trigger] more[i]).kind != "goal/state"@,
    ensures
        current_goals(log.push(snapshot) + more) == goals,
    decreases more.len(),
{
    if more.len() == 0 {
        assert(log.push(snapshot) + more =~= log.push(snapshot));
        let items = goals.map_values(|g: GoalView| goal_tree(g));
        lemma_with(JsonTree::object(), "goals"@, JsonTree::Array(items));
        assert(goals_tree(goals).get("goals"@) == Some(JsonTree::Array(items)));
        lemma_goals_round_trip(goals);
    } else {
        let all = log.push(snapshot) + more;
        assert(all.drop_last() =~= log.push(snapshot) + more.drop_last());
        assert(all.last() == more[more.len() - 1]);
        assert forall|i: int| 0 <= i < more.drop_last().len() implies (
        #[trigger] more.drop_last()[i]).kind != "goal/state"@ by {
            assert(more.drop_last()[i] == more[i]);
        }
        law_written_goals_are_current(log, snapshot, goals, more.drop_last());
    }
}

proof fn lemma_top_id(goals: Seq<GoalView>)
    ensures
        forall|i: int| 0 <= i < goals.len() ==> (#[trigger] goals[i]).id <= top_id(goals),
    decreases goals.len(),
{
    if goals.len() > 0 {
        lemma_top_id(goals.drop_last());
        assert forall|i: int| 0 <= i < goals.len() implies (#[trigger] goals[i]).id <= top_id(
            goals,
        ) by {
            if i < goals.len() - 1 {
                assert(goals.drop_last()[i] == goals[i]);
            }
        }
    }
}

/// A new goal has an id that no goal has.
pub proof fn law_new_goal_is_new(goals: Seq<GoalView>, text: Seq<char>, i: int)
    requires
        top_id(goals) < u64::MAX,
        0 <= i < goals.len(),
    ensures
        with_goal(goals, text).last().id != goals[i].id,
{
    lemma_top_id(goals);
}

proof fn lemma_goal_place_holds(goals: Seq<GoalView>, id: u64)
    ensures
        0 <= goal_place(goals, id) <= goals.len(),
        goal_place(goals, id) < goals.len() ==> goals[goal_place(goals, id)].id == id,
        forall|i: int| 0 <= i < goal_place(goals, id) ==> (#[trigger] goals[i]).id != id,
    decreases goals.len(),
{
    if goals.len() > 0 && goals[0].id != id {
        let rest = goals.drop_first();
        lemma_goal_place_holds(rest, id);
        assert forall|i: int| 0 <= i < goal_place(goals, id) implies (#[trigger] goals[i]).id
            != id by {
            if i > 0 {
                assert(goals[i] == rest[i - 1]);
            }
        }
    }
}

/// Changing a goal changes what was asked of the one of its id, and nothing else: its
/// other sides stay, and so do all other goals. It is refused exactly where there is no
/// such goal.
pub proof fn law_only_the_goal_changes(
    before: Seq<GoalView>,
    after: Seq<GoalView>,
    id: u64,
    change: GoalChange,
    r: Result<(), RpcError>,
)
    requires
        goal_changed(before, after, id, change, r),
        forall|i: int, j: int|
            0 <= i < j < before.len() ==> (#[trigger] before[i]).id != (#[trigger] before[j]).id,
    ensures
        r is Ok <==> exists|i: int| 0 <= i < before.len() && (#[trigger] before[i]).id == id,
        r is Err ==> after == before,
        after.len() == before.len(),
        forall|i: int|
            0 <= i < before.len() && (#[trigger] before[i]).id != id ==> after[i] == before[i],
        forall|i: int|
            0 <= i < before.len() && (#[trigger] before[i]).id == id ==> after[i].id == id && (
            match change {
                GoalChange::Text(t) => after[i].text == t && after[i].done == before[i].done
                    && after[i].paused == before[i].paused,
                GoalChange::Done => after[i].done && after[i].text == before[i].text
                    && after[i].paused == before[i].paused,
                GoalChange::Paused(p) => after[i].paused == p && after[i].text == before[i].text
                    && after[i].done == before[i].done,
            }),
{
    lemma_goal_place_holds(before, id);
    let k = goal_place(before, id);
    assert forall|i: int| 0 <= i < before.len() && (#[trigger] before[i]).id == id implies i == k by {
        assert(k <= i);
        assert(k == i || before[k].id != before[i].id);
    }
}

proof fn lemma_open_place_holds(goals: Seq<GoalView>)
    ensures
        -1 <= open_place(goals) < goals.len(),
        open_place(goals) >= 0 ==> !goals[open_place(goals)].done,
        forall|i: int| open_place(goals) < i < goals.len() ==> (#[trigger] goals[i]).done,
    decreases goals.len(),
{
    if goals.len() > 0 && goals.last().done {
        let rest = goals.drop_last();
        lemma_open_place_holds(rest);
        assert forall|i: int| open_place(goals) < i < goals.len() implies (#[trigger] goals[i]).done by {
            if i < rest.len() {
                assert(goals[i] == rest[i]);
            }
        }
    }
}

/// The goal that is being worked on is the last one that is not reached. Changing it
/// touches no other, and is refused exactly where all are reached.
pub proof fn law_open_goal_is_last_unreached(
    before: Seq<GoalView>,
    after: Seq<GoalView>,
    change: GoalChange,
    r: Result<(), RpcError>,
    k: int,
)
    requires
        open_goal_changed(before, after, change, r),
        -1 <= k < before.len(),
        k >= 0 ==> !before[k].done,
        forall|i: int| k < i < before.len() ==> (#[trigger] before[i]).done,
    ensures
        r is Ok <==> k >= 0,
        r is Err ==> after == before,
        after.len() == before.len(),
        forall|i: int| 0 <= i < before.len() && i != k ==> after[i] == #[trigger] before[i],
        k >= 0 ==> after[k].id == before[k].id && (match change {
            GoalChange::Text(t) => after[k].text == t && after[k].paused == before[k].paused,
            GoalChange::Done => after[k].done,
            GoalChange::Paused(p) => after[k].paused == p && after[k].text == before[k].text
                && !after[k].done,
        }),
{
    lemma_open_place_holds(before);
    let o = open_place(before);
    if o < k {
        assert(before[k].done);
    } else if k < o {
        assert(before[o].done);
    }
}

/// A new goal comes last, with its text, neither reached nor put aside; the others stay.
/// Its number is one greater than the greatest.
pub proof fn law_new_goal_comes_last(goals: Seq<GoalView>, text: Seq<char>)
    requires
        top_id(goals) < u64::MAX,
    ensures
        with_goal(goals, text).len() == goals.len() + 1,
        with_goal(goals, text).take(goals.len() as int) == goals,
        with_goal(goals, text).last().text == text,
        !with_goal(goals, text).last().done,
        !with_goal(goals, text).last().paused,
        goals.len() == 0 ==> with_goal(goals, text).last().id == 1,
        forall|i: int| 0 <= i < goals.len() ==> (#[trigger] goals[i]).id < with_goal(
            goals,
            text,
        ).last().id,
        goals.len() > 0 ==> exists|i: int|
            0 <= i < goals.len() && (#[trigger] goals[i]).id + 1 == with_goal(goals, text).last().id
                || with_goal(goals, text).last().id == 1,
{
    assert(with_goal(goals, text).take(goals.len() as int) =~= goals);
    lemma_top(goals);
    if goals.len() > 0 {
        if top_id(goals) == 0 {
            assert(goals[0].id <= 0);
        } else {
            let i = choose|i: int| 0 <= i < goals.len() && (#[trigger] goals[i]).id == top_id(goals);
            assert(goals[i].id + 1 == with_goal(goals, text).last().id);
        }
    }
}

proof fn lemma_top(goals: Seq<GoalView>)
    ensures
        forall|i: int| 0 <= i < goals.len() ==> (#[trigger] goals[i]).id <= top_id(goals),
        top_id(goals) == 0 || exists|i: int|
            0 <= i < goals.len() && (#[trigger] goals[i]).id == top_id(goals),
    decreases goals.len(),
{
    if goals.len() > 0 {
        let rest = goals.drop_last();
        lemma_top(rest);
        assert forall|i: int| 0 <= i < goals.len() implies (#[trigger] goals[i]).id <= top_id(
            goals,
        ) by {
            if i < rest.len() {
                assert(goals[i] == rest[i]);
            }
        }
        if goals.last().id > top_id(rest) {
            assert(goals[goals.len() - 1].id == top_id(goals));
        } else if top_id(rest) != 0 {
            let i = choose|i: int| 0 <= i < rest.len() && (#[trigger] rest[i]).id == top_id(rest);
            assert(goals[i] == rest[i]);
        }
    }
}

/// How a goal stands in the log, and how it is read from there: it needs an id and a text,
/// and is done, or paused, only where it says so.
pub proof fn law_goal_members(g: GoalView, t: JsonTree)
    ensures
        has_entry(goal_tree(g), "id"@, JsonTree::Number(Num::Unsigned(g.id))),
        has_entry(goal_tree(g), "text"@, JsonTree::Text(g.text)),
        has_entry(goal_tree(g), "done"@, JsonTree::Bool(g.done)),
        has_entry(goal_tree(g), "paused"@, JsonTree::Bool(g.paused)),
        goal_from(t) is Some <==> t.at("id"@).as_nat() is Some && t.at("text"@) is Text,
        goal_from(t) matches Some(v) ==> t.at("id"@).as_nat() == Some(v.id) && t.at("text"@)
            == JsonTree::Text(v.text) && (v.done <==> t.at("done"@) == JsonTree::Bool(true)) && (
        v.paused <==> t.at("paused"@) == JsonTree::Bool(true)),
{
    let a = goal_tree(g)->Object_0;
    assert(a[0].0 == "id"@ && a[1].0 == "text"@ && a[2].0 == "done"@ && a[3].0 == "paused"@);
}

/// The goals that entries stand for are those of all entries that stand for one, in order.
pub proof fn law_goals_are_read_in_order(a: Seq<JsonTree>, b: Seq<JsonTree>)
    ensures
        goals_from(a + b) == goals_from(a) + goals_from(b),
        a.len() == 1 ==> goals_from(a) == match goal_from(a[0]) {
            Some(g) => seq![g],
            None => Seq::empty(),
        },
    decreases b.len(),
{
    reveal_with_fuel(goals_from, 2);
    if a.len() == 1 {
        assert(a.drop_last() =~= Seq::empty());
        assert(goals_from(a) =~= match goal_from(a[0]) {
            Some(g) => seq![g],
            None => Seq::empty(),
        });
    }
    if b.len() == 0 {
        assert(a + b =~= a);
        assert(goals_from(a) + goals_from(b) =~= goals_from(a));
    } else {
        law_goals_are_read_in_order(a, b.drop_last());
        assert((a + b).drop_last() =~= a + b.drop_last());
        assert((a + b).last() == b.last());
        assert(goals_from(a + b) =~= goals_from(a) + goals_from(b));
    }
}

/// A goal is changed exactly where there is one under the id; else the request is refused,
/// and the goals stay.
pub proof fn law_unknown_goals_are_not_changed(
    before: Seq<GoalView>,
    after: Seq<GoalView>,
    id: u64,
    change: GoalChange,
    r: Result<(), RpcError>,
)
    requires
        goal_changed(before, after, id, change, r),
    ensures
        r is Ok <==> exists|i: int| 0 <= i < before.len() && (#[trigger] before[i]).id == id,
        r is Err ==> after == before && r->Err_0@.code == "bad-request"@,
        after.len() == before.len(),
{
    lemma_goal_place_is(before, id);
}

proof fn lemma_goal_place_is(all: Seq<GoalView>, id: u64)
    ensures
        0 <= goal_place(all, id) <= all.len(),
        goal_place(all, id) < all.len() ==> all[goal_place(all, id)].id == id,
        goal_place(all, id) == all.len() ==> forall|i: int|
            0 <= i < all.len() ==> (#[trigger] all[i]).id != id,
    decreases all.len(),
{
    if all.len() > 0 && all[0].id != id {
        let rest = all.drop_first();
        lemma_goal_place_is(rest, id);
        if goal_place(all, id) == all.len() {
            assert forall|i: int| 0 <= i < all.len() implies (#[trigger] all[i]).id != id by {
                if i > 0 {
                    assert(rest[i - 1] == all[i]);
                }
            }
        }
    }
}

} // verus!
