//! The review of a plan: the question, what the log says of it, and what the
//! model is told.
use vstd::prelude::*;
use vstd::string::*;

use crate::events::{Event, EventView, fresh_event};
use crate::ids::{is_simple_uuid, timed_simple_id};
use crate::interact::{AnswerView, QuestionAnswer, text_view};
use crate::json::{Json, JsonTree, has_entry};
use crate::proto::{Question, QuestionOption, QuestionRequestedFrame, ServerRequest};
use crate::pump::{enqueue, pushed, queued};
use crate::queue::{ItemView, PendingItem, QueueState, SpliceRecord, Target, record_views};
use crate::text::{blank, is_blank, joined, joined3};

verus! {

/// The label that approves a plan.
pub fn plan_approve_label() -> (r: &'static str)
    ensures
        r@ == "批准"@,
{
    "批准"
}

/// Whether a question is the one that a plan is put to the user with.
pub open spec fn is_plan_question(q: Question, plan: Seq<char>) -> bool {
    &&& q.id@ == "plan"@
    &&& q.question@ == "批准该计划并退出计划模式?"@
    &&& text_view(q.header) == Some("计划待审"@)
    &&& text_view(q.detail) == Some(plan)
    &&& q.multi_select == Some(false)
    &&& q.intent matches Some(i) && i@ == JsonTree::object().with(
        "kind"@,
        JsonTree::Text("plan-review"@),
    ).with("approve"@, JsonTree::Text("批准"@))
    &&& q.data is None
    &&& q.options matches Some(o) && o@.len() == 2 && o@[0].label@ == "批准"@ && text_view(
        o@[0].description,
    ) == Some("离开计划模式;计划从下一步开始执行"@) && o@[1].label@ == "拒绝"@ && text_view(
        o@[1].description,
    ) == Some("留在计划模式;反馈会回传给模型"@)
}

/// The question that a plan is put to the user with.
pub fn plan_question(plan: &str) -> (r: Question)
    ensures
        is_plan_question(r, plan@),
{
    let mut options: Vec<QuestionOption> = Vec::new();
    options.push(
        QuestionOption {
            label: "批准".to_owned(),
            description: Some("离开计划模式;计划从下一步开始执行".to_owned()),
        },
    );
    options.push(
        QuestionOption {
            label: "拒绝".to_owned(),
            description: Some("留在计划模式;反馈会回传给模型".to_owned()),
        },
    );
    Question {
        id: "plan".to_owned(),
        question: "批准该计划并退出计划模式?".to_owned(),
        header: Some("计划待审".to_owned()),
        detail: Some(plan.to_owned()),
        options: Some(options),
        multi_select: Some(false),
        intent: Some(
            Json::object().with("kind", Json::text("plan-review")).with(
                "approve",
                Json::text("批准"),
            ),
        ),
        data: None,
    }
}

/// The frame that puts questions to the user, under a token.
pub fn question_frame(rpc_id: &str, request: &QuestionRequestedFrame) -> (r: ServerRequest)
    ensures
        r.ty@ == "server-request"@,
        r.rpc_id@ == rpc_id@,
        r.method@ == "question/requested"@,
        r.payload@ == request.tree(),
{
    ServerRequest {
        ty: "server-request".to_owned(),
        rpc_id: rpc_id.to_owned(),
        method: "question/requested".to_owned(),
        payload: request.to_json(),
    }
}

/// The frame that puts a plan to the user, under a token.
pub fn plan_question_frame(session_id: &str, rpc_id: &str, plan: &str) -> (r: ServerRequest)
    ensures
        r.ty@ == "server-request"@,
        r.rpc_id@ == rpc_id@,
        r.method@ == "question/requested"@,
        exists|request: QuestionRequestedFrame|
            r.payload@ == #[trigger] request.tree() && asks_for_plan(request, session_id@, plan@),
{
    let mut questions: Vec<Question> = Vec::new();
    questions.push(plan_question(plan));
    let request = QuestionRequestedFrame { session_id: session_id.to_owned(), questions };
    question_frame(rpc_id, &request)
}

/// Whether questions are the one that puts a plan to the user.
pub open spec fn asks_for_plan(
    request: QuestionRequestedFrame,
    session_id: Seq<char>,
    plan: Seq<char>,
) -> bool {
    &&& request.session_id@ == session_id
    &&& request.questions@.len() == 1
    &&& is_plan_question(request.questions@[0], plan)
}

/// What an event about a plan holds: the plan, and what was said of it unless
/// that is blank.
pub open spec fn plan_tree(plan: Seq<char>, feedback: Option<Seq<char>>) -> JsonTree {
    JsonTree::object().with("plan"@, JsonTree::Text(plan)).with_some(
        "feedback"@,
        match feedback {
            Some(f) => if is_blank(f) {
                None
            } else {
                Some(JsonTree::Text(f))
            },
            None => None,
        },
    )
}

/// An event about a plan.
pub fn plan_event(kind: &str, plan: &str, feedback: &Option<String>, time: i64) -> (r: Event)
    ensures
        r@ == fresh_event(kind@, time, plan_tree(plan@, text_view(*feedback))),
{
    let said: Option<Json> = match feedback {
        Some(f) => if blank(f.as_str()) {
            None
        } else {
            Some(Json::text(f.as_str()))
        },
        None => None,
    };
    Event::new(
        kind,
        time,
        Json::object().with("plan", Json::text(plan)).with_some("feedback", said),
    )
}

/// The event that sets the mode of a session.
pub fn mode_event(mode: &str, time: i64) -> (r: Event)
    ensures
        r@ == fresh_event(
            "session/mode"@,
            time,
            JsonTree::object().with("mode"@, JsonTree::Text(mode@)),
        ),
{
    Event::new("session/mode", time, Json::object().with("mode", Json::text(mode)))
}

/// How the review of a plan ends.
#[derive(Debug, PartialEq)]
pub enum PlanReviewOutcome {
    Approved,
    Declined { feedback: Option<String> },
    Cancelled,
}

/// What the end of a review leaves to be done.
#[derive(Debug, PartialEq)]
pub struct PlanSettlement {
    /// The events to be written to the log, in this order.
    pub events: Vec<Event>,
    /// The name of the outcome, as the client is told.
    pub outcome: String,
    pub review: PlanReviewOutcome,
}

/// The models of the events that end a review. Only an approved plan takes the
/// session out of plan mode.
pub open spec fn settling_events(plan: Seq<char>, answer: AnswerView, time: i64) -> Seq<EventView> {
    match answer {
        AnswerView::Approve => seq![
            fresh_event("plan/approved"@, time, plan_tree(plan, None)),
            fresh_event(
                "session/mode"@,
                time,
                JsonTree::object().with("mode"@, JsonTree::Text("standard"@)),
            ),
        ],
        AnswerView::Decline { feedback } => seq![
            fresh_event("plan/declined"@, time, plan_tree(plan, feedback)),
        ],
        AnswerView::Cancel => seq![fresh_event("plan/cancelled"@, time, plan_tree(plan, None))],
    }
}

/// Ends a review by what was said, or as cancelled where nothing was.
pub fn settle_plan(plan: &str, answer: QuestionAnswer, time: i64) -> (r: PlanSettlement)
    ensures
        crate::events::event_views(r.events@) == settling_events(plan@, answer@, time),
        r.outcome@ == (match answer {
            QuestionAnswer::Approve => "approved"@,
            QuestionAnswer::Decline { .. } => "declined"@,
            QuestionAnswer::Cancel => "cancelled"@,
        }),
        match answer {
            QuestionAnswer::Approve => r.review is Approved,
            QuestionAnswer::Decline { feedback } => r.review matches PlanReviewOutcome::Declined {
                feedback: f,
            } && f == feedback,
            QuestionAnswer::Cancel => r.review is Cancelled,
        },
{
    let mut events: Vec<Event> = Vec::new();
    let ghost wanted = settling_events(plan@, answer@, time);
    match answer {
        QuestionAnswer::Approve => {
            events.push(plan_event("plan/approved", plan, &None, time));
            events.push(mode_event("standard", time));
            assert(crate::events::event_views(events@) =~= wanted);
            PlanSettlement {
                events,
                outcome: "approved".to_owned(),
                review: PlanReviewOutcome::Approved,
            }
        },
        QuestionAnswer::Decline { feedback } => {
            events.push(plan_event("plan/declined", plan, &feedback, time));
            assert(crate::events::event_views(events@) =~= wanted);
            PlanSettlement {
                events,
                outcome: "declined".to_owned(),
                review: PlanReviewOutcome::Declined { feedback },
            }
        },
        QuestionAnswer::Cancel => {
            events.push(plan_event("plan/cancelled", plan, &None, time));
            assert(crate::events::event_views(events@) =~= wanted);
            PlanSettlement {
                events,
                outcome: "cancelled".to_owned(),
                review: PlanReviewOutcome::Cancelled,
            }
        },
    }
}

/// A plan leaves plan mode only by being approved.
pub proof fn law_only_approval_leaves_plan_mode(plan: Seq<char>, answer: AnswerView, time: i64)
    ensures
        (exists|i: int|
            0 <= i < settling_events(plan, answer, time).len() && (#[trigger] settling_events(
                plan,
                answer,
                time,
            )[i]).kind == "session/mode"@) <==> answer is Approve,
        settling_events(plan, answer, time).len() > 0,
{
    reveal_strlit("session/mode");
    reveal_strlit("plan/approved");
    reveal_strlit("plan/declined");
    reveal_strlit("plan/cancelled");
    assert("session/mode"@.len() == 12 && "plan/declined"@.len() == 13 && "plan/cancelled"@.len()
        == 14);
    let all = settling_events(plan, answer, time);
    if answer is Approve {
        assert(all[1].kind == "session/mode"@);
    }
}

/// What the model is told when the review of an earlier process has ended.
pub open spec fn guide_view(review: PlanReviewOutcome) -> Seq<char> {
    match review {
        PlanReviewOutcome::Cancelled =>
            "用户取消了计划审批,想在聊天里继续讨论。请简短确认已停止执行该计划,并邀请用户直接说明要调整的方向;不要重复输出计划全文。"@,
        PlanReviewOutcome::Approved =>
            "用户已批准该计划。请开始执行:按计划逐步实施,边做边简要汇报进展。"@,
        PlanReviewOutcome::Declined { feedback } => match text_view(feedback) {
            Some(f) if !is_blank(f) => "用户拒绝了该计划,并说明了希望的不同做法:"@ + f
                + "\n请根据该反馈调整方案继续;不要重复输出计划全文。"@,
            _ => "用户拒绝了该计划,留在计划模式。请修订方案后重新提交审批;不要重复输出计划全文。"@,
        },
    }
}

/// What the model is told when the review of an earlier process has ended.
pub fn plan_guide(review: &PlanReviewOutcome) -> (r: String)
    ensures
        r@ == guide_view(*review),
{
    match review {
        PlanReviewOutcome::Cancelled =>
            "用户取消了计划审批,想在聊天里继续讨论。请简短确认已停止执行该计划,并邀请用户直接说明要调整的方向;不要重复输出计划全文。".to_owned(),
        PlanReviewOutcome::Approved =>
            "用户已批准该计划。请开始执行:按计划逐步实施,边做边简要汇报进展。".to_owned(),
        PlanReviewOutcome::Declined { feedback } => {
            if let Some(f) = feedback {
                if !blank(f.as_str()) {
                    return joined3(
                        "用户拒绝了该计划,并说明了希望的不同做法:",
                        f.as_str(),
                        "\n请根据该反馈调整方案继续;不要重复输出计划全文。",
                    );
                }
            }
            "用户拒绝了该计划,留在计划模式。请修订方案后重新提交审批;不要重复输出计划全文。".to_owned()
        },
    }
}

/// A guide as an item that waits for a turn.
pub open spec fn guide_item(id: Seq<char>, guide: Seq<char>) -> ItemView {
    ItemView { id, text: guide, images: Seq::empty(), files: Seq::empty(), source: None }
}

/// Queues a guide under a given id.
pub fn queue_guide(q: &mut QueueState, id: String, guide: &str) -> (r: Vec<SpliceRecord>)
    ensures
        final(q)@ == queued(old(q)@, guide_item(id@, guide@), Seq::empty()),
        record_views(r@) == pushed(
            Target::NextTurn,
            old(q)@.pending.len(),
            guide_item(id@, guide@),
        ),
{
    let item = PendingItem {
        id,
        text: guide.to_owned(),
        images: Vec::new(),
        files: Vec::new(),
        contexts: Vec::new(),
    };
    proof {
        assert(item@.item.images =~= Seq::empty());
        assert(item@.item.files =~= Seq::empty());
        assert(item@.contexts =~= Seq::empty());
        assert(item@.item == guide_item(id@, guide@));
    }
    enqueue(q, item)
}

/// Queues a guide under a fresh id.
pub fn inject_plan_guide_turn(q: &mut QueueState, guide: &str) -> (r: (String, Vec<SpliceRecord>))
    ensures
        final(q)@ == queued(old(q)@, guide_item(r.0@, guide@), Seq::empty()),
        record_views(r.1@) == pushed(
            Target::NextTurn,
            old(q)@.pending.len(),
            guide_item(r.0@, guide@),
        ),
        exists|u: Seq<char>| is_simple_uuid(u) && r.0@ == #[trigger] ("s-guide-"@ + u),
{
    let fresh = timed_simple_id();
    let id = joined("s-guide-", fresh.as_str());
    let kept = id.clone();
    assert(is_simple_uuid(fresh@) && id@ == "s-guide-"@ + fresh@);
    let records = queue_guide(q, id, guide);
    (kept, records)
}

/// How far a review has come.
#[derive(Debug, PartialEq, Eq, Clone, Copy, Structural)]
pub enum ReviewPhase {
    Opening,
    Submitting,
    Asking,
    Closed,
}

/// How a review ends.
#[derive(Debug, PartialEq, Eq, Clone, Copy, Structural)]
pub enum ReviewEnd {
    Approved,
    Declined,
    Cancelled,
}

/// What a review learns.
#[derive(Debug, PartialEq, Eq, Clone, Copy, Structural)]
pub enum ReviewInput {
    /// Whether the session is known and assembled.
    Opened { known: bool, assembled: bool },
    /// Whether the plan was recorded.
    Submitted { logged: bool },
    /// The user answered. A question that was lost counts as cancelled, and so
    /// does a turn that was stopped.
    Answered(ReviewEnd),
    /// The one who asked is gone.
    Dropped,
}

/// What a review has its surroundings do.
#[derive(Debug, PartialEq, Eq, Clone, Copy, Structural)]
pub enum ReviewAction {
    /// Fail: no such session.
    FailUnknown,
    /// Fail: the session is not assembled.
    FailUnassembled,
    /// Fail: the plan could not be recorded.
    FailUnrecorded,
    /// Record the plan.
    LogSubmitted,
    /// Put the plan to the user, and let the question wait.
    Ask,
    /// Let the question wait no more.
    Forget,
    /// Record how the review ended.
    LogEnd(ReviewEnd),
    /// Tell the client that the question is settled.
    Resolve(ReviewEnd),
    /// Answer the one who asked.
    Return(ReviewEnd),
}

/// What the one who asked is told where a review fails.
pub open spec fn failure_view(action: ReviewAction) -> Option<Seq<char>> {
    match action {
        ReviewAction::FailUnknown => Some("计划评审:会话不存在"@),
        ReviewAction::FailUnassembled => Some("计划评审:会话未完成装配"@),
        ReviewAction::FailUnrecorded => Some("计划评审:计划提交落档失败"@),
        _ => None,
    }
}

/// What the one who asked is told where a review fails.
pub fn review_failure(action: ReviewAction) -> (r: Option<String>)
    ensures
        text_view(r) == failure_view(action),
{
    match action {
        ReviewAction::FailUnknown => Some("计划评审:会话不存在".to_owned()),
        ReviewAction::FailUnassembled => Some("计划评审:会话未完成装配".to_owned()),
        ReviewAction::FailUnrecorded => Some("计划评审:计划提交落档失败".to_owned()),
        _ => None,
    }
}

/// What was decided of a plan.
#[derive(Debug, PartialEq)]
pub enum PlanReviewDecision {
    Approve,
    Decline { feedback: Option<String> },
}

/// What the one who asked is told when a review is over: the decision, or, where the
/// user dismissed the review or the turn was stopped, `dismissed`.
pub fn review_decision(review: PlanReviewOutcome, dismissed: String) -> (r: Result<
    PlanReviewDecision,
    String,
>)
    ensures
        match review {
            PlanReviewOutcome::Approved => r matches Ok(PlanReviewDecision::Approve),
            PlanReviewOutcome::Declined { feedback } => r matches Ok(
                PlanReviewDecision::Decline { feedback: f },
            ) && f == feedback,
            PlanReviewOutcome::Cancelled => r == Err::<PlanReviewDecision, String>(dismissed),
        },
{
    match review {
        PlanReviewOutcome::Approved => Ok(PlanReviewDecision::Approve),
        PlanReviewOutcome::Declined { feedback } => Ok(PlanReviewDecision::Decline { feedback }),
        PlanReviewOutcome::Cancelled => Err(dismissed),
    }
}

/// How a review ends, as its steps say it.
pub fn review_end(review: &PlanReviewOutcome) -> (r: ReviewEnd)
    ensures
        match review {
            PlanReviewOutcome::Approved => r is Approved,
            PlanReviewOutcome::Declined { .. } => r is Declined,
            PlanReviewOutcome::Cancelled => r is Cancelled,
        },
{
    match review {
        PlanReviewOutcome::Approved => ReviewEnd::Approved,
        PlanReviewOutcome::Declined { .. } => ReviewEnd::Declined,
        PlanReviewOutcome::Cancelled => ReviewEnd::Cancelled,
    }
}

/// What comes of an input.
pub open spec fn review_after(phase: ReviewPhase, input: ReviewInput) -> (
    ReviewPhase,
    Seq<ReviewAction>,
) {
    match (phase, input) {
        (ReviewPhase::Opening, ReviewInput::Opened { known, assembled }) => if !known {
            (ReviewPhase::Closed, seq![ReviewAction::FailUnknown])
        } else if !assembled {
            (ReviewPhase::Closed, seq![ReviewAction::FailUnassembled])
        } else {
            (ReviewPhase::Submitting, seq![ReviewAction::LogSubmitted])
        },
        (ReviewPhase::Submitting, ReviewInput::Submitted { logged }) => if logged {
            (ReviewPhase::Asking, seq![ReviewAction::Ask])
        } else {
            (ReviewPhase::Closed, seq![ReviewAction::FailUnrecorded])
        },
        (ReviewPhase::Asking, ReviewInput::Answered(end)) => (
            ReviewPhase::Closed,
            seq![
                ReviewAction::Forget,
                ReviewAction::LogEnd(end),
                ReviewAction::Resolve(end),
                ReviewAction::Return(end),
            ],
        ),
        (ReviewPhase::Asking, ReviewInput::Dropped) => (
            ReviewPhase::Closed,
            seq![
                ReviewAction::Forget,
                ReviewAction::LogEnd(ReviewEnd::Cancelled),
                ReviewAction::Resolve(ReviewEnd::Cancelled),
            ],
        ),
        _ => (phase, Seq::empty()),
    }
}

/// Takes a review one step on.
pub fn review_step(phase: ReviewPhase, input: ReviewInput) -> (r: (ReviewPhase, Vec<ReviewAction>))
    ensures
        r.0 == review_after(phase, input).0,
        r.1@ == review_after(phase, input).1,
{
    let mut out: Vec<ReviewAction> = Vec::new();
    let next = match (phase, input) {
        (ReviewPhase::Opening, ReviewInput::Opened { known, assembled }) => {
            if !known {
                out.push(ReviewAction::FailUnknown);
                ReviewPhase::Closed
            } else if !assembled {
                out.push(ReviewAction::FailUnassembled);
                ReviewPhase::Closed
            } else {
                out.push(ReviewAction::LogSubmitted);
                ReviewPhase::Submitting
            }
        },
        (ReviewPhase::Submitting, ReviewInput::Submitted { logged }) => {
            if logged {
                out.push(ReviewAction::Ask);
                ReviewPhase::Asking
            } else {
                out.push(ReviewAction::FailUnrecorded);
                ReviewPhase::Closed
            }
        },
        (ReviewPhase::Asking, ReviewInput::Answered(end)) => {
            out.push(ReviewAction::Forget);
            out.push(ReviewAction::LogEnd(end));
            out.push(ReviewAction::Resolve(end));
            out.push(ReviewAction::Return(end));
            ReviewPhase::Closed
        },
        (ReviewPhase::Asking, ReviewInput::Dropped) => {
            out.push(ReviewAction::Forget);
            out.push(ReviewAction::LogEnd(ReviewEnd::Cancelled));
            out.push(ReviewAction::Resolve(ReviewEnd::Cancelled));
            ReviewPhase::Closed
        },
        _ => phase,
    };
    assert(out@ =~= review_after(phase, input).1);
    (next, out)
}

/// A run of a review: where it stands, and all that it has had done.
pub open spec fn review_run(inputs: Seq<ReviewInput>) -> (ReviewPhase, Seq<ReviewAction>)
    decreases inputs.len(),
{
    if inputs.len() == 0 {
        (ReviewPhase::Opening, Seq::empty())
    } else {
        let (phase, done) = review_run(inputs.drop_last());
        let (next, more) = review_after(phase, inputs.last());
        (next, done + more)
    }
}

/// A review that was opened to the user and is over.
pub open spec fn reviewed(done: Seq<ReviewAction>, end: ReviewEnd) -> bool {
    let asked = seq![ReviewAction::LogSubmitted, ReviewAction::Ask];
    let settled = seq![
        ReviewAction::Forget,
        ReviewAction::LogEnd(end),
        ReviewAction::Resolve(end),
    ];
    done == asked + settled || done == asked + settled.push(ReviewAction::Return(end))
}

/// Whatever a review learns, in whatever order: a plan is put to the user only
/// after it was recorded, and a review that was put to the user ends with
/// nothing left waiting, its end recorded once, and the client told the same.
pub proof fn law_review_runs(inputs: Seq<ReviewInput>)
    ensures
        ({
            let (phase, done) = review_run(inputs);
            match phase {
                ReviewPhase::Opening => done == Seq::<ReviewAction>::empty(),
                ReviewPhase::Submitting => done == seq![ReviewAction::LogSubmitted],
                ReviewPhase::Asking => done == seq![ReviewAction::LogSubmitted, ReviewAction::Ask],
                ReviewPhase::Closed => {
                    ||| done == seq![ReviewAction::FailUnknown]
                    ||| done == seq![ReviewAction::FailUnassembled]
                    ||| done == seq![ReviewAction::LogSubmitted, ReviewAction::FailUnrecorded]
                    ||| exists|end: ReviewEnd| #[trigger] reviewed(done, end)
                },
            }
        }),
    decreases inputs.len(),
{
    if inputs.len() > 0 {
        law_review_runs(inputs.drop_last());
        let (phase, done) = review_run(inputs.drop_last());
        let (next, more) = review_after(phase, inputs.last());
        let all = done + more;
        match (phase, inputs.last()) {
            (ReviewPhase::Opening, ReviewInput::Opened { known, assembled }) => {
                assert(all =~= more);
            },
            (ReviewPhase::Submitting, ReviewInput::Submitted { logged }) => {
                if logged {
                    assert(all =~= seq![ReviewAction::LogSubmitted, ReviewAction::Ask]);
                } else {
                    assert(all =~= seq![ReviewAction::LogSubmitted, ReviewAction::FailUnrecorded]);
                }
            },
            (ReviewPhase::Asking, ReviewInput::Answered(end)) => {
                assert(more =~= seq![
                    ReviewAction::Forget,
                    ReviewAction::LogEnd(end),
                    ReviewAction::Resolve(end),
                ].push(ReviewAction::Return(end)));
                assert(reviewed(all, end));
            },
            (ReviewPhase::Asking, ReviewInput::Dropped) => {
                assert(reviewed(all, ReviewEnd::Cancelled));
            },
            _ => {
                assert(all =~= done);
            },
        }
    }
}

/// What the log says of how a review ended: that the plan was approved, and then that the
/// session is in its standard mode; or that it was declined, with what was said of it
/// unless that is blank; or that the review was cancelled. The plan stands in each.
pub proof fn law_review_is_on_record(plan: Seq<char>, answer: AnswerView, time: i64)
    ensures
        ({
            let all = settling_events(plan, answer, time);
            &&& all.len() > 0 && has_entry(all[0].data, "plan"@, JsonTree::Text(plan)) && all[0].time
                == time
            &&& answer is Approve ==> all.len() == 2 && all[0].kind == "plan/approved"@
                && all[1].kind == "session/mode"@ && has_entry(
                all[1].data,
                "mode"@,
                JsonTree::Text("standard"@),
            )
            &&& answer matches AnswerView::Decline { feedback } ==> all.len() == 1 && all[0].kind
                == "plan/declined"@ && (feedback matches Some(f) ==> (!is_blank(f) ==> has_entry(
                all[0].data,
                "feedback"@,
                JsonTree::Text(f),
            )))
            &&& answer is Cancel ==> all.len() == 1 && all[0].kind == "plan/cancelled"@
            &&& !(answer is Decline) ==> all[0].data->Object_0.len() == 1
        }),
{
    let all = settling_events(plan, answer, time);
    let d = all[0].data->Object_0;
    assert(d[0] == ("plan"@, JsonTree::Text(plan)));
    match answer {
        AnswerView::Approve => {
            let m = all[1].data->Object_0;
            assert(m[0] == ("mode"@, JsonTree::Text("standard"@)));
        },
        AnswerView::Decline { feedback } => {
            if feedback is Some && !is_blank(feedback->0) {
                assert(d[1] == ("feedback"@, JsonTree::Text(feedback->0)));
            }
        },
        AnswerView::Cancel => {},
    }
}

/// A guide that tells the model of a declined plan says what was said of it, as it was
/// said; where nothing was said it says another thing.
pub proof fn law_guide_carries_feedback(f: String, blank: String)
    requires
        !is_blank(f@),
        is_blank(blank@),
    ensures
        exists|a: Seq<char>, b: Seq<char>|
            guide_view(PlanReviewOutcome::Declined { feedback: Some(f) }) == #[trigger] (a + f@ + b),
        guide_view(PlanReviewOutcome::Declined { feedback: Some(blank) }) == guide_view(
            PlanReviewOutcome::Declined { feedback: None },
        ),
{
    let a = "用户拒绝了该计划,并说明了希望的不同做法:"@;
    let b = "\n请根据该反馈调整方案继续;不要重复输出计划全文。"@;
    assert(guide_view(PlanReviewOutcome::Declined { feedback: Some(f) }) == a + f@ + b);
}

/// A guide waits for a turn of its own, behind all others, as a text and nothing else; the
/// splice that is written puts it there.
pub proof fn law_guide_is_queued_last(q: crate::queue::QueueView, id: Seq<char>, guide: Seq<char>)
    ensures
        ({
            let after = queued(q, guide_item(id, guide), Seq::empty());
            let all = pushed(Target::NextTurn, q.pending.len(), guide_item(id, guide));
            &&& after.pending.len() == q.pending.len() + 1
            &&& after.pending.take(q.pending.len() as int) == q.pending
            &&& after.pending.last().item.id == id && after.pending.last().item.text == guide
            &&& after.pending.last().item.images.len() == 0 && after.pending.last().item.files.len()
                == 0 && after.pending.last().item.source is None
            &&& after.steer == q.steer && after.running == q.running
            &&& all.len() == 1 && all[0].target == Target::NextTurn && all[0].start
                == q.pending.len() && all[0].removed == 0 && all[0].inserted == seq![
                after.pending.last().item,
            ]
        }),
{
    let after = queued(q, guide_item(id, guide), Seq::empty());
    assert(after.pending.take(q.pending.len() as int) =~= q.pending);
}

/// How a review goes: the plan is recorded before it is put to the user; what the user
/// says is recorded, told and returned as it was said; a review whose asker is gone is
/// cancelled. In each case the question waits no more.
pub proof fn law_review_returns_what_was_said(end: ReviewEnd, known: bool, assembled: bool, logged: bool)
    ensures
        review_after(ReviewPhase::Opening, ReviewInput::Opened { known, assembled }) == if !known {
            (ReviewPhase::Closed, seq![ReviewAction::FailUnknown])
        } else if !assembled {
            (ReviewPhase::Closed, seq![ReviewAction::FailUnassembled])
        } else {
            (ReviewPhase::Submitting, seq![ReviewAction::LogSubmitted])
        },
        review_after(ReviewPhase::Submitting, ReviewInput::Submitted { logged }) == if logged {
            (ReviewPhase::Asking, seq![ReviewAction::Ask])
        } else {
            (ReviewPhase::Closed, seq![ReviewAction::FailUnrecorded])
        },
        ({
            let (next, acts) = review_after(ReviewPhase::Asking, ReviewInput::Answered(end));
            &&& next is Closed && acts[0] is Forget
            &&& acts.contains(ReviewAction::LogEnd(end))
            &&& acts.contains(ReviewAction::Resolve(end))
            &&& acts.last() == ReviewAction::Return(end)
        }),
        ({
            let (next, acts) = review_after(ReviewPhase::Asking, ReviewInput::Dropped);
            &&& next is Closed && acts[0] is Forget
            &&& acts.contains(ReviewAction::LogEnd(ReviewEnd::Cancelled))
            &&& acts.contains(ReviewAction::Resolve(ReviewEnd::Cancelled))
        }),
{
    let a = review_after(ReviewPhase::Asking, ReviewInput::Answered(end)).1;
    assert(a[1] == ReviewAction::LogEnd(end));
    assert(a[2] == ReviewAction::Resolve(end));
    let b = review_after(ReviewPhase::Asking, ReviewInput::Dropped).1;
    assert(b[1] == ReviewAction::LogEnd(ReviewEnd::Cancelled));
    assert(b[2] == ReviewAction::Resolve(ReviewEnd::Cancelled));
}

/// The question that puts a plan to the user shows the plan whole, offers approval first
/// and refusal second, and says which of the two is approval; it takes one answer.
pub proof fn law_plan_is_put_to_the_user(
    request: QuestionRequestedFrame,
    session_id: Seq<char>,
    plan: Seq<char>,
)
    requires
        asks_for_plan(request, session_id, plan),
    ensures
        request.session_id@ == session_id,
        request.questions@.len() == 1,
        ({
            let q = request.questions@[0];
            &&& q.detail matches Some(d) && d@ == plan
            &&& q.multi_select == Some(false)
            &&& q.options is Some && q.options->0@.len() == 2 && q.intent is Some
            &&& has_entry(q.intent->0@, "kind"@, JsonTree::Text("plan-review"@))
            &&& has_entry(
                q.intent->0@,
                "approve"@,
                JsonTree::Text(q.options->0@[0].label@),
            )
            &&& q.options->0@[0].label@ != q.options->0@[1].label@
        }),
{
    let q = request.questions@[0];
    let i = q.intent->0@->Object_0;
    assert(i[0] == ("kind"@, JsonTree::Text("plan-review"@)));
    assert(i[1] == ("approve"@, JsonTree::Text("批准"@)));
    reveal_strlit("批准");
    reveal_strlit("拒绝");
    assert("批准"@[0] != "拒绝"@[0]);
}

} // verus!
