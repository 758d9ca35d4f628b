//! The driver: it takes one item after another out of a session's queue and
//! runs a turn for each. Between turns it carries out what it was told.
use vstd::prelude::*;
use vstd::string::*;

use crate::events::{Event, EventLog, EventView, event_views, fresh_event};
use crate::ids::{is_hyphenated_uuid, timed_id};
use crate::interact::text_view;
use crate::json::{Json, JsonTree, json_option, lemma_set, lemma_with, trees};
use crate::plan::{PlanReviewOutcome, guide_view, plan_guide};
use crate::pump::{CmdView, DriverCmd};
use crate::queue::{
    ItemView, QueueState, QueueView, RecordView, SpliceRecord, Target, inbox_after, no_items, pending_items, pending_views,
    spliced, steer_views,
};
use crate::text::{blank, is_blank, same};

verus! {

/// An item that was taken out of the queue to run a turn for.
#[derive(Debug, PartialEq)]
pub struct Claimed {
    pub id: String,
    pub text: String,
    pub images: Vec<Json>,
    pub files: Vec<Json>,
    /// Where the item comes from; `None` where the user typed it.
    pub source: Option<Json>,
    /// Context to be put in beside the item.
    pub contexts: Vec<Json>,
    /// The list that it was taken out of.
    pub target: Target,
}

/// The model of an item that was taken out.
pub struct ClaimView {
    pub item: ItemView,
    pub contexts: Seq<JsonTree>,
    pub target: Target,
}

impl View for Claimed {
    type V = ClaimView;

    open spec fn view(&self) -> ClaimView {
        ClaimView {
            item: ItemView {
                id: self.id@,
                text: self.text@,
                images: trees(self.images@),
                files: trees(self.files@),
                source: json_option(self.source),
            },
            contexts: trees(self.contexts@),
            target: self.target,
        }
    }
}

/// The splice that takes the first item out of a list.
pub open spec fn taken(target: Target) -> RecordView {
    RecordView { target, start: 0, removed: 1, inserted: Seq::empty() }
}

/// The splice that takes the first item out of a list.
pub fn taken_record(target: Target) -> (r: SpliceRecord)
    ensures
        r@ == taken(target),
{
    SpliceRecord { target, start: 0, removed: 1, inserted: no_items() }
}

/// The next item to run a turn for, and the queue without it. What was meant
/// for the running turn comes before what waits for a turn of its own.
pub open spec fn next_claim(q: QueueView) -> Option<(ClaimView, QueueView)> {
    if q.steer.len() > 0 {
        Some(
            (
                ClaimView {
                    item: q.steer[0],
                    contexts: Seq::empty(),
                    target: Target::NextStep,
                },
                QueueView { steer: q.steer.drop_first(), running: true, ..q },
            ),
        )
    } else if q.pending.len() > 0 {
        Some(
            (
                ClaimView {
                    item: ItemView { source: None, ..q.pending[0].item },
                    contexts: q.pending[0].contexts,
                    target: Target::NextTurn,
                },
                QueueView { pending: q.pending.drop_first(), running: true, ..q },
            ),
        )
    } else {
        None
    }
}

/// The next item to run a turn for, where there is one.
pub open spec fn claim_of(q: QueueView) -> ClaimView {
    let (claim, after) = next_claim(q)->0;
    claim
}

/// The queue without the next item, where there is one.
pub open spec fn queue_without(q: QueueView) -> QueueView {
    let (claim, after) = next_claim(q)->0;
    after
}

/// Takes the next item out of the queue, which is running from then on.
pub fn claim_next(q: &mut QueueState) -> (r: Option<Claimed>)
    ensures
        match next_claim(old(q)@) {
            Some((claim, after)) => r is Some && r->0@ == claim && final(q)@ == after,
            None => r is None && final(q)@ == old(q)@,
        },
{
    let ghost before = q@;
    if q.steer.len() > 0 {
        let s = q.steer.remove(0);
        q.running = true;
        let contexts: Vec<Json> = Vec::new();
        proof {
            assert(s@ == before.steer[0]);
            assert(steer_views(q.steer@) =~= before.steer.drop_first());
            assert(trees(contexts@) =~= Seq::empty());
        }
        Some(
            Claimed {
                id: s.id,
                text: s.text,
                images: s.images,
                files: s.files,
                source: s.source,
                contexts,
                target: Target::NextStep,
            },
        )
    } else if q.pending.len() > 0 {
        let p = q.pending.remove(0);
        q.running = true;
        proof {
            assert(p@ == before.pending[0]);
            assert(pending_views(q.pending@) =~= before.pending.drop_first());
        }
        Some(
            Claimed {
                id: p.id,
                text: p.text,
                images: p.images,
                files: p.files,
                source: None,
                contexts: p.contexts,
                target: Target::NextTurn,
            },
        )
    } else {
        None
    }
}

/// The splice that is written when an item is taken out says what was taken
/// out.
pub proof fn law_claim_is_durable(q: QueueView)
    requires
        next_claim(q) is Some,
    ensures
        inbox_after(q.inbox(), taken(claim_of(q).target)) == queue_without(q).inbox(),
{
    let (claim, after) = next_claim(q)->0;
    match claim.target {
        Target::NextStep => {
            assert(spliced(q.steer, 0, 1, Seq::empty()) =~= after.steer);
        },
        Target::NextTurn => {
            assert(spliced(pending_items(q.pending), 0, 1, Seq::empty()) =~= pending_items(
                after.pending,
            ));
        },
    }
}

// Permissions.

/// What a permission preset stands for.
#[derive(Debug, PartialEq)]
pub struct PresetSpec {
    pub name: String,
    pub sandbox: String,
    pub approval: String,
}

/// Whether a log says anything of permissions.
pub open spec fn has_permission(log: Seq<EventView>) -> bool {
    exists|i: int|
        0 <= i < log.len() && ((#[trigger] log[i]).kind == "sandbox/mode"@ || log[i].kind
            == "permission/preset"@)
}

/// The events that give a session the permissions of a preset.
pub open spec fn preset_events(preset: PresetSpec, time: i64) -> Seq<EventView> {
    seq![
        fresh_event(
            "permission/preset"@,
            time,
            JsonTree::object().with("preset"@, JsonTree::Text(preset.name@)),
        ),
        fresh_event(
            "sandbox/mode"@,
            time,
            JsonTree::object().with("mode"@, JsonTree::Text(preset.sandbox@)),
        ),
        fresh_event(
            "approval/policy"@,
            time,
            JsonTree::object().with("policy"@, JsonTree::Text(preset.approval@)),
        ),
    ]
}

/// The events that pin a session to the default preset before its first turn:
/// none where its log already says something of permissions, or where the
/// default preset is not known.
pub open spec fn pins(log: Seq<EventView>, preset: Option<PresetSpec>, time: i64) -> Seq<
    EventView,
> {
    if has_permission(log) {
        Seq::empty()
    } else {
        match preset {
            Some(p) => preset_events(p, time),
            None => Seq::empty(),
        }
    }
}

fn says_permission(log: &EventLog) -> (r: bool)
    ensures
        r == has_permission(log@),
{
    let mut i: usize = 0;
    while i < log.events.len()
        invariant
            i <= log.events.len(),
            forall|k: int|
                0 <= k < i ==> !((#[trigger] log@[k]).kind == "sandbox/mode"@ || log@[k].kind
                    == "permission/preset"@),
        decreases log.events.len() - i,
    {
        assert(log@[i as int] == log.events@[i as int]@);
        let kind = log.events[i].kind.as_str();
        if same(kind, "sandbox/mode") || same(kind, "permission/preset") {
            return true;
        }
        i = i + 1;
    }
    false
}

/// The events that pin a session to the default preset before its first turn.
pub fn pin_permission(log: &EventLog, preset: &Option<PresetSpec>, time: i64) -> (r: Vec<Event>)
    ensures
        event_views(r@) == pins(log@, *preset, time),
{
    let mut out: Vec<Event> = Vec::new();
    if !says_permission(log) {
        if let Some(p) = preset {
            out.push(
                Event::new(
                    "permission/preset",
                    time,
                    Json::object().with("preset", Json::text(p.name.as_str())),
                ),
            );
            out.push(
                Event::new(
                    "sandbox/mode",
                    time,
                    Json::object().with("mode", Json::text(p.sandbox.as_str())),
                ),
            );
            out.push(
                Event::new(
                    "approval/policy",
                    time,
                    Json::object().with("policy", Json::text(p.approval.as_str())),
                ),
            );
        }
    }
    assert(event_views(out@) =~= pins(log@, *preset, time));
    out
}

/// A session is pinned once: behind the events that pin it, nothing pins it
/// again.
pub proof fn law_pinned_once(
    log: Seq<EventView>,
    preset: PresetSpec,
    time: i64,
    other: Option<PresetSpec>,
    later: i64,
)
    ensures
        pins(log + pins(log, Some(preset), time), other, later) == Seq::<EventView>::empty(),
{
    let all = log + pins(log, Some(preset), time);
    if has_permission(log) {
        assert(all =~= log);
    } else {
        assert(all[log.len() as int].kind == "permission/preset"@);
    }
}

// What goes in beside an item.

/// A context under an id: its own where it has one, else the given one.
pub open spec fn context_with_id(context: JsonTree, fresh: Seq<char>) -> JsonTree {
    if context.at("id"@) is Text {
        context
    } else {
        context.set("id"@, JsonTree::Text(fresh))
    }
}

/// Gives a context the id that it lacks.
pub fn with_id(context: Json, fresh: String) -> (r: Json)
    requires
        context@ is Object || context@ is Null,
    ensures
        r@ == context_with_id(context@, fresh@),
        r@.at("id"@) is Text,
{
    proof {
        lemma_set(context@, "id"@, JsonTree::Text(fresh@), "id"@);
    }
    match context.str_at("id") {
        Some(_) => context,
        None => context.set("id", Json::Text(fresh)),
    }
}

/// Gives each context the id that it lacks, a fresh one.
pub fn prepare_contexts(contexts: Vec<Json>) -> (r: Vec<Json>)
    requires
        forall|i: int|
            0 <= i < contexts@.len() ==> (#[trigger] contexts@[i])@ is Object || contexts@[i]@ is Null,
    ensures
        r@.len() == contexts@.len(),
        forall|i: int|
            #![trigger r@[i]]
            0 <= i < r@.len() ==> r@[i]@.at("id"@) is Text && exists|fresh: Seq<char>|
                is_hyphenated_uuid(fresh) && r@[i]@ == context_with_id(contexts@[i]@, fresh),
{
    let ghost all = contexts@;
    let mut rest = contexts;
    let mut out: Vec<Json> = Vec::new();
    while rest.len() > 0
        invariant
            out@.len() + rest@.len() == all.len(),
            rest@ == all.skip(out@.len() as int),
            forall|i: int|
                0 <= i < all.len() ==> (#[trigger] all[i])@ is Object || all[i]@ is Null,
            forall|i: int|
                #![trigger out@[i]]
                0 <= i < out@.len() ==> out@[i]@.at("id"@) is Text && exists|fresh: Seq<char>|
                    is_hyphenated_uuid(fresh) && out@[i]@ == context_with_id(all[i]@, fresh),
        decreases rest.len(),
    {
        let ghost k = out@.len() as int;
        assert(all.skip(k)[0] == all[k]);
        let context = rest.remove(0);
        assert(all.skip(k).remove(0) =~= all.skip(k + 1));
        assert(context@ is Object || context@ is Null);
        let fresh = timed_id();
        let ghost id = fresh@;
        let named = with_id(context, fresh);
        assert(named@ == context_with_id(all[k]@, id));
        out.push(named);
    }
    out
}

// Titles.

/// The text that a title is made from: that of the first message of the user.
pub open spec fn first_message(log: Seq<EventView>) -> Option<Seq<char>>
    decreases log.len(),
{
    if log.len() == 0 {
        None
    } else if log[0].kind == "user/message"@ {
        log[0].data.at("content"@).as_text()
    } else {
        first_message(log.drop_first())
    }
}

/// The text to make a title from after a turn: none for a session that comes
/// from another or that has a title, nor where the first message is no text or
/// is blank.
pub open spec fn title_source(log: Seq<EventView>, has_parent: bool, titled: bool) -> Option<
    Seq<char>,
> {
    if has_parent || titled {
        None
    } else {
        match first_message(log) {
            Some(t) => if is_blank(t) {
                None
            } else {
                Some(t)
            },
            None => None,
        }
    }
}

/// The text of the first message of a log, which a session without a title is
/// titled from.
pub fn title_of(log: &EventLog) -> (r: Option<String>)
    ensures
        text_view(r) == first_message(log@),
{
    let mut i: usize = 0;
    assert(log@.skip(0) =~= log@);
    while i < log.events.len()
        invariant
            i <= log.events.len(),
            first_message(log@) == first_message(log@.skip(i as int)),
        decreases log.events.len() - i,
    {
        assert(log@.skip(i as int)[0] == log.events@[i as int]@);
        assert(log@.skip(i as int).drop_first() =~= log@.skip(i + 1));
        if same(log.events[i].kind.as_str(), "user/message") {
            return match log.events[i].data.str_at("content") {
                Some(t) => Some(t.to_owned()),
                None => None,
            };
        }
        i = i + 1;
    }
    None
}

/// The text to make a title from after a turn.
pub fn title_trigger(log: &EventLog, has_parent: bool, titled: bool) -> (r: Option<String>)
    ensures
        text_view(r) == title_source(log@, has_parent, titled),
{
    if has_parent || titled {
        return None;
    }
    match title_of(log) {
        Some(t) => if blank(t.as_str()) {
            None
        } else {
            Some(t)
        },
        None => None,
    }
}

/// Whether an event of a running turn changes what is shown of the queue.
pub fn changes_queue(kind: &str) -> (r: bool)
    ensures
        r == (kind@ == "agent/inbox/spliced"@),
{
    same(kind, "agent/inbox/spliced")
}

// Commands.

/// The event that a command leaves in the log; compaction leaves its own.
pub open spec fn command_view(cmd: CmdView, time: i64) -> Option<EventView> {
    match cmd {
        CmdView::SetMode(s) => Some(
            fresh_event(
                "session/mode"@,
                time,
                JsonTree::object().with("mode"@, JsonTree::Text(s)),
            ),
        ),
        CmdView::SetPermission(s) => Some(
            fresh_event(
                "sandbox/mode"@,
                time,
                JsonTree::object().with("mode"@, JsonTree::Text(s)),
            ),
        ),
        CmdView::SetApproval(s) => Some(
            fresh_event(
                "approval/policy"@,
                time,
                JsonTree::object().with("policy"@, JsonTree::Text(s)),
            ),
        ),
        CmdView::Compact => None,
    }
}

/// The event that a command leaves in the log.
pub fn command_event(cmd: &DriverCmd, time: i64) -> (r: Option<Event>)
    ensures
        match r {
            Some(e) => command_view(cmd@, time) == Some(e@),
            None => command_view(cmd@, time) is None,
        },
{
    match cmd {
        DriverCmd::SetMode(s) => Some(
            Event::new("session/mode", time, Json::object().with("mode", Json::text(s.as_str()))),
        ),
        DriverCmd::SetPermission(s) => Some(
            Event::new("sandbox/mode", time, Json::object().with("mode", Json::text(s.as_str()))),
        ),
        DriverCmd::SetApproval(s) => Some(
            Event::new(
                "approval/policy",
                time,
                Json::object().with("policy", Json::text(s.as_str())),
            ),
        ),
        DriverCmd::Compact => None,
    }
}

/// How a compaction came out.
#[derive(Debug, PartialEq)]
pub enum Compaction {
    /// It wrote a summary under this number.
    Done(u64),
    /// There was nothing to compact.
    Nothing,
    /// It failed.
    Failed(String),
}

/// The event that reports a compaction that wrote no summary.
pub fn compaction_event(outcome: &Compaction, time: i64) -> (r: Option<Event>)
    ensures
        match outcome {
            Compaction::Done(_) => r is None,
            Compaction::Nothing => r is Some && r->0@ == fresh_event(
                "compaction/error"@,
                time,
                JsonTree::object().with("kind"@, JsonTree::Text("empty"@)).with(
                    "message"@,
                    JsonTree::Text("No compactable history yet."@),
                ),
            ),
            Compaction::Failed(e) => r is Some && r->0@ == fresh_event(
                "compaction/error"@,
                time,
                JsonTree::object().with("kind"@, JsonTree::Text("error"@)).with(
                    "message"@,
                    JsonTree::Text(e@),
                ),
            ),
        },
{
    match outcome {
        Compaction::Done(_) => None,
        Compaction::Nothing => Some(
            Event::new(
                "compaction/error",
                time,
                Json::object().with("kind", Json::text("empty")).with(
                    "message",
                    Json::text("No compactable history yet."),
                ),
            ),
        ),
        Compaction::Failed(e) => Some(
            Event::new(
                "compaction/error",
                time,
                Json::object().with("kind", Json::text("error")).with(
                    "message",
                    Json::text(e.as_str()),
                ),
            ),
        ),
    }
}

// The loop.

/// Where the driver stands.
#[derive(Debug, PartialEq, Eq, Clone, Copy, Structural)]
pub enum Phase {
    /// Nothing has happened yet.
    Starting,
    /// A plan of an earlier process is with the user.
    Reviewing,
    /// Between turns: commands are carried out, then the next item is taken.
    Ready,
    /// There is nothing to do.
    Waiting,
    /// A turn is running.
    Running,
    /// The session is gone.
    Stopped,
}

/// What the driver learns.
#[derive(Debug, PartialEq)]
pub enum DriverInput {
    /// The plan that an earlier process left with the user.
    Started { plan: Option<String> },
    /// How its review ended.
    Reviewed(PlanReviewOutcome),
    /// A command came; `closed` says whether the session was let go meanwhile.
    Command { cmd: DriverCmd, closed: bool },
    /// There is no command left.
    Drained,
    /// Something was put in the queue.
    Woken,
    /// No command will come any more.
    Disconnected,
    /// The turn is over; whether the session comes from another and whether it
    /// has a title.
    TurnEnded { has_parent: bool, titled: bool },
}

/// What the driver has its surroundings do.
#[derive(Debug, PartialEq)]
pub enum DriverAction {
    /// Put the plan to the user.
    AskPlan(String),
    /// Show the client the end of the log.
    Announce,
    /// Queue a guide.
    Guide(String),
    /// Carry out a command.
    Handle(DriverCmd),
    /// Wait to be woken, or for a command.
    Wait,
    /// Tell the host whether the session is running.
    Status(bool),
    /// Write the splice that takes the first item out of a list.
    CommitTaken(Target),
    /// Show the client the queue.
    ShowQueue,
    /// Write the events that pin the permissions, and show them.
    Pin(Vec<Event>),
    /// Run a turn.
    Turn(Claimed),
    /// Make a title from a text.
    MakeTitle(String),
    /// Stop.
    Stop,
}

/// The model of what the driver has done.
pub enum ActView {
    AskPlan(Seq<char>),
    Announce,
    Guide(Seq<char>),
    Handle(CmdView),
    Wait,
    Status(bool),
    CommitTaken(Target),
    ShowQueue,
    Pin(Seq<EventView>),
    Turn(ClaimView),
    MakeTitle(Seq<char>),
    Stop,
}

impl View for DriverAction {
    type V = ActView;

    open spec fn view(&self) -> ActView {
        match self {
            DriverAction::AskPlan(s) => ActView::AskPlan(s@),
            DriverAction::Announce => ActView::Announce,
            DriverAction::Guide(s) => ActView::Guide(s@),
            DriverAction::Handle(c) => ActView::Handle(c@),
            DriverAction::Wait => ActView::Wait,
            DriverAction::Status(b) => ActView::Status(*b),
            DriverAction::CommitTaken(t) => ActView::CommitTaken(*t),
            DriverAction::ShowQueue => ActView::ShowQueue,
            DriverAction::Pin(v) => ActView::Pin(event_views(v@)),
            DriverAction::Turn(c) => ActView::Turn(c@),
            DriverAction::MakeTitle(s) => ActView::MakeTitle(s@),
            DriverAction::Stop => ActView::Stop,
        }
    }
}

pub open spec fn act_views(v: Seq<DriverAction>) -> Seq<ActView> {
    v.map_values(|a: DriverAction| a@)
}

/// What starting a turn has done: the session is marked as running before the
/// splice that says which item was taken out, and that before the turn.
pub open spec fn turn_acts(claim: ClaimView, pinned: Seq<EventView>) -> Seq<ActView> {
    let head = seq![
        ActView::Status(true),
        ActView::CommitTaken(claim.target),
        ActView::ShowQueue,
    ];
    if pinned.len() > 0 {
        head + seq![ActView::Pin(pinned), ActView::Turn(claim)]
    } else {
        head + seq![ActView::Turn(claim)]
    }
}

/// What comes of an input.
pub open spec fn driver_after(
    phase: Phase,
    q: QueueView,
    log: Seq<EventView>,
    preset: Option<PresetSpec>,
    time: i64,
    input: DriverInput,
) -> (Phase, QueueView, Seq<ActView>) {
    match (phase, input) {
        (Phase::Starting, DriverInput::Started { plan }) => match plan {
            Some(p) => (Phase::Reviewing, q, seq![ActView::AskPlan(p@)]),
            None => (Phase::Ready, q, Seq::empty()),
        },
        (Phase::Reviewing, DriverInput::Reviewed(outcome)) => (
            Phase::Ready,
            q,
            seq![ActView::Announce, ActView::Guide(guide_view(outcome))],
        ),
        (Phase::Ready, DriverInput::Command { cmd, closed }) => (
            Phase::Ready,
            q,
            seq![ActView::Handle(cmd@)],
        ),
        (Phase::Ready, DriverInput::Drained) => match next_claim(q) {
            Some((claim, after)) => (
                Phase::Running,
                after,
                turn_acts(claim, pins(log, preset, time)),
            ),
            None => (Phase::Waiting, q, seq![ActView::Wait]),
        },
        (Phase::Waiting, DriverInput::Woken) => (Phase::Ready, q, Seq::empty()),
        (Phase::Waiting, DriverInput::Command { cmd, closed }) => if closed {
            (Phase::Stopped, q, seq![ActView::Stop])
        } else {
            (Phase::Ready, q, seq![ActView::Handle(cmd@)])
        },
        (Phase::Waiting, DriverInput::Disconnected) => (Phase::Stopped, q, seq![ActView::Stop]),
        (Phase::Running, DriverInput::TurnEnded { has_parent, titled }) => {
            let over = QueueView { running: false, ..q };
            match title_source(log, has_parent, titled) {
                Some(t) => (
                    Phase::Ready,
                    over,
                    seq![ActView::Status(false), ActView::MakeTitle(t)],
                ),
                None => (Phase::Ready, over, seq![ActView::Status(false)]),
            }
        },
        _ => (phase, q, Seq::empty()),
    }
}

/// Takes the driver one step on.
pub fn driver_step(
    phase: Phase,
    q: &mut QueueState,
    log: &EventLog,
    preset: &Option<PresetSpec>,
    time: i64,
    input: DriverInput,
) -> (r: (Phase, Vec<DriverAction>))
    ensures
        r.0 == driver_after(phase, old(q)@, log@, *preset, time, input).0,
        final(q)@ == driver_after(phase, old(q)@, log@, *preset, time, input).1,
        act_views(r.1@) == driver_after(phase, old(q)@, log@, *preset, time, input).2,
{
    let mut out: Vec<DriverAction> = Vec::new();
    let ghost before = q@;
    let ghost wanted = driver_after(phase, before, log@, *preset, time, input);
    let next: Phase = match (phase, input) {
        (Phase::Starting, DriverInput::Started { plan }) => match plan {
            Some(p) => {
                out.push(DriverAction::AskPlan(p));
                Phase::Reviewing
            },
            None => Phase::Ready,
        },
        (Phase::Reviewing, DriverInput::Reviewed(outcome)) => {
            out.push(DriverAction::Announce);
            out.push(DriverAction::Guide(plan_guide(&outcome)));
            Phase::Ready
        },
        (Phase::Ready, DriverInput::Command { cmd, closed }) => {
            out.push(DriverAction::Handle(cmd));
            Phase::Ready
        },
        (Phase::Ready, DriverInput::Drained) => match claim_next(q) {
            Some(claim) => {
                let target = claim.target;
                out.push(DriverAction::Status(true));
                out.push(DriverAction::CommitTaken(target));
                out.push(DriverAction::ShowQueue);
                let pinned = pin_permission(log, preset, time);
                if pinned.len() > 0 {
                    out.push(DriverAction::Pin(pinned));
                }
                out.push(DriverAction::Turn(claim));
                Phase::Running
            },
            None => {
                out.push(DriverAction::Wait);
                Phase::Waiting
            },
        },
        (Phase::Waiting, DriverInput::Woken) => Phase::Ready,
        (Phase::Waiting, DriverInput::Command { cmd, closed }) => if closed {
            out.push(DriverAction::Stop);
            Phase::Stopped
        } else {
            out.push(DriverAction::Handle(cmd));
            Phase::Ready
        },
        (Phase::Waiting, DriverInput::Disconnected) => {
            out.push(DriverAction::Stop);
            Phase::Stopped
        },
        (Phase::Running, DriverInput::TurnEnded { has_parent, titled }) => {
            q.running = false;
            out.push(DriverAction::Status(false));
            if let Some(t) = title_trigger(log, has_parent, titled) {
                out.push(DriverAction::MakeTitle(t));
            }
            Phase::Ready
        },
        _ => phase,
    };
    assert(act_views(out@) =~= wanted.2);
    (next, out)
}

/// The queue is marked as running exactly while a turn runs, whatever the driver
/// learns.
pub proof fn law_running_while_turn_runs(
    phase: Phase,
    q: QueueView,
    log: Seq<EventView>,
    preset: Option<PresetSpec>,
    time: i64,
    input: DriverInput,
)
    requires
        q.running == (phase is Running),
    ensures
        ({
            let (next, after, acts) = driver_after(phase, q, log, preset, time, input);
            after.running == (next is Running)
        }),
{
}

/// A driver takes nothing out of the queue but to run a turn for it, and then
/// what it has written says what was taken out.
pub proof fn law_driver_keeps_items(
    phase: Phase,
    q: QueueView,
    log: Seq<EventView>,
    preset: Option<PresetSpec>,
    time: i64,
    input: DriverInput,
)
    ensures
        ({
            let (next, after, acts) = driver_after(phase, q, log, preset, time, input);
            if phase is Ready && next is Running {
                &&& next_claim(q) is Some
                &&& acts.contains(ActView::Turn(claim_of(q)))
                &&& acts.contains(ActView::CommitTaken(claim_of(q).target))
                &&& after.inbox() == inbox_after(q.inbox(), taken(claim_of(q).target))
            } else {
                after.inbox() == q.inbox()
            }
        }),
{
    let (next, after, acts) = driver_after(phase, q, log, preset, time, input);
    if phase is Ready && next is Running {
        law_claim_is_durable(q);
        assert(acts[1] == ActView::CommitTaken(claim_of(q).target));
        assert(acts[acts.len() - 1] == ActView::Turn(claim_of(q)));
    }
}

/// Items are taken in turn: what was meant for the running turn comes first, then what
/// waits for a turn, each list from its front. What is taken is the whole item; all
/// others stay, in order.
pub proof fn law_items_are_taken_in_turn(q: QueueView)
    ensures
        next_claim(q) is Some <==> q.steer.len() + q.pending.len() > 0,
        q.steer.len() > 0 ==> claim_of(q).item == q.steer[0] && claim_of(q).contexts.len() == 0
            && claim_of(q).target == Target::NextStep && seq![q.steer[0]] + queue_without(q).steer
            == q.steer && queue_without(q).pending == q.pending,
        q.steer.len() == 0 && q.pending.len() > 0 ==> claim_of(q).item.id == q.pending[0].item.id
            && claim_of(q).item.text == q.pending[0].item.text && claim_of(q).item.images
            == q.pending[0].item.images && claim_of(q).item.files == q.pending[0].item.files
            && claim_of(q).item.source is None && claim_of(q).contexts == q.pending[0].contexts
            && claim_of(q).target == Target::NextTurn && seq![q.pending[0]] + queue_without(
            q,
        ).pending == q.pending && queue_without(q).steer == q.steer,
        next_claim(q) is Some ==> queue_without(q).running,
{
    if q.steer.len() > 0 {
        assert(seq![q.steer[0]] + queue_without(q).steer =~= q.steer);
    } else if q.pending.len() > 0 {
        assert(seq![q.pending[0]] + queue_without(q).pending =~= q.pending);
    }
}

/// A session of which the log says nothing of permissions gets those of the preset
/// before its first turn: which preset, which access, and when it asks. Where the log
/// says something, nothing is put in.
pub proof fn law_pins_are_the_preset(log: Seq<EventView>, preset: PresetSpec, time: i64)
    ensures
        (exists|i: int|
            0 <= i < log.len() && ((#[trigger] log[i]).kind == "sandbox/mode"@ || log[i].kind
                == "permission/preset"@)) ==> pins(log, Some(preset), time).len() == 0,
        (forall|i: int|
            0 <= i < log.len() ==> (#[trigger] log[i]).kind != "sandbox/mode"@ && log[i].kind
                != "permission/preset"@) ==> {
            let all = pins(log, Some(preset), time);
            &&& all.len() == 3
            &&& all[0].kind == "permission/preset"@ && all[0].data.at("preset"@) == JsonTree::Text(
                preset.name@,
            )
            &&& all[1].kind == "sandbox/mode"@ && all[1].data.at("mode"@) == JsonTree::Text(
                preset.sandbox@,
            )
            &&& all[2].kind == "approval/policy"@ && all[2].data.at("policy"@) == JsonTree::Text(
                preset.approval@,
            )
            &&& all[0].time == time && all[1].time == time && all[2].time == time
        },
        pins(log, None, time).len() == 0,
{
    let t0 = JsonTree::object();
    lemma_with(t0, "preset"@, JsonTree::Text(preset.name@));
    lemma_with(t0, "mode"@, JsonTree::Text(preset.sandbox@));
    lemma_with(t0, "policy"@, JsonTree::Text(preset.approval@));
    assert(t0.with("preset"@, JsonTree::Text(preset.name@)).get("preset"@) == Some(
        JsonTree::Text(preset.name@),
    ));
    assert(t0.with("mode"@, JsonTree::Text(preset.sandbox@)).get("mode"@) == Some(
        JsonTree::Text(preset.sandbox@),
    ));
    assert(t0.with("policy"@, JsonTree::Text(preset.approval@)).get("policy"@) == Some(
        JsonTree::Text(preset.approval@),
    ));
}

/// A context that has an id keeps it, and stays as it is; one that has none gets the
/// fresh one, and keeps everything else.
pub proof fn law_contexts_keep_what_they_hold(context: JsonTree, fresh: Seq<char>, key: Seq<char>)
    requires
        context is Object || context is Null,
    ensures
        context.at("id"@) is Text ==> context_with_id(context, fresh) == context,
        !(context.at("id"@) is Text) ==> context_with_id(context, fresh).at("id"@)
            == JsonTree::Text(fresh),
        key != "id"@ ==> context_with_id(context, fresh).get(key) == context.get(key),
{
    lemma_set(context, "id"@, JsonTree::Text(fresh), "id"@);
    lemma_set(context, "id"@, JsonTree::Text(fresh), key);
}

proof fn lemma_first_message(log: Seq<EventView>, i: int)
    requires
        0 <= i <= log.len(),
        forall|k: int| 0 <= k < i ==> (#[trigger] log[k]).kind != "user/message"@,
        i < log.len() ==> log[i].kind == "user/message"@,
    ensures
        first_message(log) == if i < log.len() {
            log[i].data.at("content"@).as_text()
        } else {
            None
        },
    decreases i,
{
    if i > 0 {
        assert(log[0].kind != "user/message"@);
        let rest = log.drop_first();
        assert forall|k: int| 0 <= k < i - 1 implies (#[trigger] rest[k]).kind
            != "user/message"@ by {
            assert(rest[k] == log[k + 1]);
        }
        lemma_first_message(rest, i - 1);
    }
}

/// A title is made from the first message of the user: of a session of its own that has
/// no title yet, where that message is a text and not blank. A later message gives none.
pub proof fn law_title_comes_from_first_message(
    log: Seq<EventView>,
    i: int,
    has_parent: bool,
    titled: bool,
)
    requires
        0 <= i < log.len(),
        log[i].kind == "user/message"@,
        forall|k: int| 0 <= k < i ==> (#[trigger] log[k]).kind != "user/message"@,
    ensures
        first_message(log) == (match log[i].data.at("content"@) {
            JsonTree::Text(t) => Some(t),
            _ => None,
        }),
        title_source(log, has_parent, titled) is Some <==> !has_parent && !titled
            && log[i].data.at("content"@) is Text && !is_blank(log[i].data.at("content"@)->Text_0),
        title_source(log, has_parent, titled) matches Some(t) ==> log[i].data.at("content"@)
            == JsonTree::Text(t),
{
    lemma_first_message(log, i);
}

/// A log without a message of the user gives no title.
pub proof fn law_no_message_no_title(log: Seq<EventView>, has_parent: bool, titled: bool)
    requires
        forall|k: int| 0 <= k < log.len() ==> (#[trigger] log[k]).kind != "user/message"@,
    ensures
        first_message(log) is None,
        title_source(log, has_parent, titled) is None,
{
    lemma_first_message(log, log.len() as int);
}

/// What a command leaves in the log says what was set.
pub proof fn law_commands_leave_what_they_set(s: Seq<char>, time: i64)
    ensures
        command_view(CmdView::SetMode(s), time) matches Some(e) && e.kind == "session/mode"@
            && e.data.at("mode"@) == JsonTree::Text(s) && e.time == time,
        command_view(CmdView::SetPermission(s), time) matches Some(e) && e.kind == "sandbox/mode"@
            && e.data.at("mode"@) == JsonTree::Text(s) && e.time == time,
        command_view(CmdView::SetApproval(s), time) matches Some(e) && e.kind == "approval/policy"@
            && e.data.at("policy"@) == JsonTree::Text(s) && e.time == time,
        command_view(CmdView::Compact, time) is None,
{
    let t0 = JsonTree::object();
    lemma_with(t0, "mode"@, JsonTree::Text(s));
    lemma_with(t0, "policy"@, JsonTree::Text(s));
    assert(t0.with("mode"@, JsonTree::Text(s)).get("mode"@) == Some(JsonTree::Text(s)));
    assert(t0.with("policy"@, JsonTree::Text(s)).get("policy"@) == Some(JsonTree::Text(s)));
}

/// A driver that is ready and finds no command left starts a turn exactly where an item
/// waits: it says that the session runs, writes down what it took, shows the queue, and
/// runs the turn last. Else it waits.
pub proof fn law_turn_is_started_for_what_waits(
    q: QueueView,
    log: Seq<EventView>,
    preset: Option<PresetSpec>,
    time: i64,
)
    ensures
        ({
            let (next, after, acts) = driver_after(
                Phase::Ready,
                q,
                log,
                preset,
                time,
                DriverInput::Drained,
            );
            if q.steer.len() + q.pending.len() > 0 {
                &&& next is Running
                &&& acts.len() >= 4
                &&& acts[0] == ActView::Status(true)
                &&& acts[1] == ActView::CommitTaken(
                    if q.steer.len() > 0 {
                        Target::NextStep
                    } else {
                        Target::NextTurn
                    },
                )
                &&& acts[2] is ShowQueue
                &&& acts.last() matches ActView::Turn(c) && c.item.id == if q.steer.len() > 0 {
                    q.steer[0].id
                } else {
                    q.pending[0].item.id
                }
                &&& pins(log, preset, time).len() > 0 ==> acts[3] == ActView::Pin(
                    pins(log, preset, time),
                ) && acts.len() == 5
                &&& pins(log, preset, time).len() == 0 ==> acts.len() == 4
            } else {
                next is Waiting && after == q && acts.len() == 1 && acts[0] is Wait
            }
        }),
{
}

/// Every command is carried out, once, in its order between turns, unless the session
/// was let go while it waited: then the driver stops. It stops too where no command can
/// come any more. Being woken makes it look for work again.
pub proof fn law_driver_heeds_commands(
    q: QueueView,
    log: Seq<EventView>,
    preset: Option<PresetSpec>,
    time: i64,
    cmd: DriverCmd,
    closed: bool,
)
    ensures
        driver_after(Phase::Ready, q, log, preset, time, DriverInput::Command { cmd, closed }) == (
            Phase::Ready,
            q,
            seq![ActView::Handle(cmd@)],
        ),
        driver_after(Phase::Waiting, q, log, preset, time, DriverInput::Command { cmd, closed })
            == if closed {
            (Phase::Stopped, q, seq![ActView::Stop])
        } else {
            (Phase::Ready, q, seq![ActView::Handle(cmd@)])
        },
        driver_after(Phase::Waiting, q, log, preset, time, DriverInput::Disconnected) == (
            Phase::Stopped,
            q,
            seq![ActView::Stop],
        ),
        driver_after(Phase::Waiting, q, log, preset, time, DriverInput::Woken) == (
            Phase::Ready,
            q,
            Seq::<ActView>::empty(),
        ),
{
}

/// A turn that is over is said to be over, and a title is asked for where one is to be
/// made; the queue keeps its items. A plan that an earlier process left is put to the
/// user before anything else, and the model is told how that ended.
pub proof fn law_driver_ends_turns(
    q: QueueView,
    log: Seq<EventView>,
    preset: Option<PresetSpec>,
    time: i64,
    has_parent: bool,
    titled: bool,
    plan: String,
    review: PlanReviewOutcome,
)
    ensures
        ({
            let (next, after, acts) = driver_after(
                Phase::Running,
                q,
                log,
                preset,
                time,
                DriverInput::TurnEnded { has_parent, titled },
            );
            &&& next is Ready
            &&& !after.running && after.pending == q.pending && after.steer == q.steer
            &&& acts.len() >= 1 && acts[0] == ActView::Status(false)
            &&& title_source(log, has_parent, titled) matches Some(t) ==> acts.len() == 2 && acts[1]
                == ActView::MakeTitle(t)
            &&& title_source(log, has_parent, titled) is None ==> acts.len() == 1
        }),
        driver_after(
            Phase::Starting,
            q,
            log,
            preset,
            time,
            DriverInput::Started { plan: Some(plan) },
        ) == (Phase::Reviewing, q, seq![ActView::AskPlan(plan@)]),
        driver_after(Phase::Starting, q, log, preset, time, DriverInput::Started { plan: None }) == (
            Phase::Ready,
            q,
            Seq::<ActView>::empty(),
        ),
        driver_after(Phase::Reviewing, q, log, preset, time, DriverInput::Reviewed(review)) == (
            Phase::Ready,
            q,
            seq![ActView::Announce, ActView::Guide(guide_view(review))],
        ),
{
}

} // verus!
