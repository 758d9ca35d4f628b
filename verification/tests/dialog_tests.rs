use liuma_core::approval::{
    approval_step, ask_frame, decided_event, ApprovalAction, ApprovalInput, ApprovalPhase,
    Escalation, ToolCall,
};
use liuma_core::events::{Event, EventLog};
use liuma_core::goals::{
    goal_clear, goal_complete, goal_create, goal_current, goal_edit, goal_edit_open, goal_event,
    goal_pause_open, goal_set_paused, goal_state,
};
use liuma_core::interact::{
    delivery_receipt, encode_answers, outcome_name, plan_answer, respond, tool_allowed,
    tool_outcome, ApprovalOutcome, Delivery, PendingInteraction, PendingKind, QuestionAnswer,
    Routed,
};
use liuma_core::json::{parse, Json};
use liuma_core::plan::{
    inject_plan_guide_turn, plan_approve_label, plan_guide, plan_question, plan_question_frame,
    review_decision, review_end, review_failure, review_step, settle_plan, PlanReviewDecision,
    PlanReviewOutcome, ReviewAction, ReviewEnd, ReviewInput, ReviewPhase,
};
use liuma_core::proto::{RpcError, RpcResult};
use liuma_core::pump::frame;
use liuma_core::questions::{parse_question, parse_questions, settle_ask, AskEnd};
use liuma_core::queue::QueueState;
use liuma_core::strmap::StrMap;

fn doc(text: &str) -> Json {
    parse(text).expect("a document")
}

fn pick<'a>(j: &'a Json, path: &[&str]) -> &'a Json {
    let mut at = j;
    for key in path {
        at = at.get(key).expect("a member");
    }
    at
}

fn answers(text: &str) -> RpcResult {
    RpcResult::Success(doc(text))
}

fn waiting(kind: PendingKind) -> StrMap<PendingInteraction> {
    let mut all: StrMap<PendingInteraction> = StrMap::new();
    all.insert(
        "q-rpc".into(),
        PendingInteraction { kind, frame: frame("question/requested", Json::object()) },
    );
    all
}

/// Which answers to questions are taken.
#[test]
fn encode_answers_validates() {
    let ok = encode_answers(&doc(
        r#"{"answer":{"answers":[{"id":"q1","selected":["是"]}]}}"#,
    ))
    .unwrap();
    assert!(ok.contains("\"q1\""));
    assert!(encode_answers(&doc(
        r#"{"answer":{"answers":[{"id":"q1","selected":["a","b"]}]}}"#
    ))
    .is_err());
    assert!(encode_answers(&doc(r#"{"answer":{"answers":[{"selected":[]}]}}"#)).is_err());
    assert!(encode_answers(&doc(r#"{"answer":{}}"#)).is_err());
    assert!(encode_answers(&doc(
        r#"{"answer":{"answers":[{"id":"q1","selected":["a"],"custom":"b"}]}}"#
    ))
    .is_err());
    let own = encode_answers(&doc(
        r#"{"answer":{"answers":[{"id":"q1","selected":[],"custom":"mine"}]}}"#,
    ))
    .unwrap();
    assert!(own.contains("mine"));
}

/// An answer goes to what waits for it, once.
#[test]
fn respond_routes_pending() {
    let mut pending = waiting(PendingKind::Plan { approve_label: "批准".into() });
    let ok = answers(r#"{"answer":{"answers":[{"id":"plan","selected":["批准"]}]}}"#);
    assert_eq!(
        respond(&mut pending, "q-rpc", &ok),
        Routed::Deliver(Delivery::Plan(QuestionAnswer::Approve))
    );
    assert!(delivery_receipt(true).accepted);
    assert!(pending.is_empty());
    match respond(&mut pending, "nope", &ok) {
        Routed::Refused(receipt) => {
            assert!(!receipt.accepted);
            assert_eq!(receipt.reason.as_deref(), Some("not-pending"));
        }
        other => panic!("{other:?}"),
    }
    let again = respond(&mut pending, "q-rpc", &ok);
    assert!(matches!(again, Routed::Refused(_)));
}

/// Questions are put, answered, and the answer goes back as text.
#[test]
fn ask_questions_roundtrip() {
    let q = parse_question(&doc(
        r#"{"id":"q1","question":"继续?","header":"Confirm","options":[{"label":"是","description":"开始"}]}"#,
    ))
    .unwrap();
    assert_eq!(q.id, "q1");
    assert!(parse_questions(&vec![doc(r#"{"question":"no id"}"#)]).is_err());
    let mut pending = waiting(PendingKind::Ask);
    let reply = answers(
        r#"{"sessionId":"s","answer":{"answers":[{"id":"q1","selected":["是"]}]}}"#,
    );
    match respond(&mut pending, "q-rpc", &reply) {
        Routed::Deliver(Delivery::Ask(text)) => {
            assert!(text.contains("\"answers\""));
            assert!(text.contains("q1"));
            assert!(text.contains("是"));
        }
        other => panic!("{other:?}"),
    }
}

/// An answer that cannot be taken is refused, and the question waits no more.
#[test]
fn unusable_answer_is_refused() {
    let mut pending = waiting(PendingKind::Ask);
    let bad = answers(r#"{"answer":{}}"#);
    assert!(matches!(respond(&mut pending, "q-rpc", &bad), Routed::Refused(_)));
    assert!(pending.is_empty());
    assert!(!delivery_receipt(false).accepted);
}

/// Approvals are yes or no; an error is a cancellation.
#[test]
fn approvals_are_routed() {
    for (text, outcome) in [
        (r#"{"answer":{"approved":true}}"#, ApprovalOutcome::AllowedOnce),
        (r#"{"answer":{"approved":false}}"#, ApprovalOutcome::Rejected),
    ] {
        let mut pending = waiting(PendingKind::Approval);
        assert_eq!(
            respond(&mut pending, "q-rpc", &answers(text)),
            Routed::Deliver(Delivery::Approval(outcome))
        );
    }
    let mut pending = waiting(PendingKind::Approval);
    let failed = RpcResult::Failure(RpcError::internal("gone"));
    assert_eq!(
        respond(&mut pending, "q-rpc", &failed),
        Routed::Deliver(Delivery::Approval(ApprovalOutcome::Cancelled))
    );
    assert_eq!(outcome_name(ApprovalOutcome::AllowedOnce), "allowed-once");
    assert_eq!(outcome_name(ApprovalOutcome::Rejected), "rejected");
    assert_eq!(outcome_name(ApprovalOutcome::Cancelled), "cancelled");
    assert_eq!(outcome_name(ApprovalOutcome::Unavailable), "unavailable");
}

/// A tool is allowed where the answer says so.
#[test]
fn tool_answers() {
    let question = ToolCall {
        tool_name: "bash".into(),
        args_summary: "ls".into(),
        reason: "why".into(),
    }
    .question("audit");
    assert_eq!(question.detail.as_deref(), Some(r#"{"argsSummary":"ls"}"#));
    let label = &question.options.as_ref().unwrap()[0].label;
    let yes = format!(r#"{{"answers":[{{"id":"{}","selected":["{}"]}}]}}"#, question.id, label);
    assert!(tool_allowed(&doc(&yes)));
    assert!(!tool_allowed(&doc(r#"{"answers":[]}"#)));
    assert_eq!(tool_outcome(Some(&yes)), ApprovalOutcome::AllowedOnce);
    assert_eq!(tool_outcome(Some("{")), ApprovalOutcome::Rejected);
    assert_eq!(tool_outcome(None), ApprovalOutcome::Cancelled);
}

fn escalation() -> Escalation {
    Escalation {
        tool_name: "bash".into(),
        command: Json::text("touch ~/liuma-esc-e2e"),
        target_mode: "full-access".into(),
        justification: "命令需要写工作区外的用户目录".into(),
    }
}

fn run_approval(never: bool, last: ApprovalInput) -> Vec<ApprovalAction> {
    let mut all = Vec::new();
    let mut phase = ApprovalPhase::Opening;
    for input in [
        ApprovalInput::Opened { known: true, running: true, assembled: true },
        ApprovalInput::Recorded { logged: true, never },
        last,
    ] {
        if phase == ApprovalPhase::Closed {
            break;
        }
        let (next, mut actions) = approval_step(phase, true, input);
        phase = next;
        all.append(&mut actions);
    }
    assert_eq!(phase, ApprovalPhase::Closed);
    all
}

/// Asked, allowed and recorded.
#[test]
fn escalation_gate_allowed_once_flow() {
    let q = escalation().question("audit", "workspace-write");
    assert_eq!(pick(q.intent.as_ref().unwrap(), &["kind"]), &Json::text("sandbox-escalation"));
    assert_eq!(pick(q.data.as_ref().unwrap(), &["targetMode"]), &Json::text("full-access"));
    assert_eq!(escalation().asked("audit", 1).kind, "approval/asked");
    let request = ask_frame("s", q);
    assert_eq!(request.questions.len(), 1);
    let all = run_approval(false, ApprovalInput::Replied(ApprovalOutcome::AllowedOnce));
    assert_eq!(all[0], ApprovalAction::LogAsked);
    assert!(all.contains(&ApprovalAction::Ask));
    assert!(all.contains(&ApprovalAction::LogDecided(ApprovalOutcome::AllowedOnce)));
    assert_eq!(all.last(), Some(&ApprovalAction::Return(ApprovalOutcome::AllowedOnce)));
    let decided = decided_event("audit", ApprovalOutcome::AllowedOnce, 2);
    assert_eq!(decided.kind, "approval/decided");
    assert_eq!(pick(&decided.data, &["outcome"]), &Json::text("allowed-once"));
}

/// Asked, turned down and recorded.
#[test]
fn escalation_gate_rejected_flow() {
    let all = run_approval(false, ApprovalInput::Replied(ApprovalOutcome::Rejected));
    assert!(all.contains(&ApprovalAction::LogDecided(ApprovalOutcome::Rejected)));
    assert_eq!(all.last(), Some(&ApprovalAction::Return(ApprovalOutcome::Rejected)));
}

/// Where nothing is ever approved, nobody is asked, and the record still holds
/// both ends.
#[test]
fn escalation_gate_never_rejects_without_asking() {
    let all = run_approval(true, ApprovalInput::Dropped);
    assert!(!all.contains(&ApprovalAction::Ask));
    assert!(all.contains(&ApprovalAction::LogAsked));
    assert!(all.contains(&ApprovalAction::LogDecided(ApprovalOutcome::Rejected)));
    assert_eq!(all.last(), Some(&ApprovalAction::Return(ApprovalOutcome::Rejected)));
}

/// A question whose asker is gone is forgotten, and recorded as cancelled.
#[test]
fn escalation_gate_drop_guard_cleans_up() {
    let all = run_approval(false, ApprovalInput::Dropped);
    assert!(all.contains(&ApprovalAction::Forget));
    assert!(all.contains(&ApprovalAction::LogDecided(ApprovalOutcome::Cancelled)));
}

/// Nothing can be approved while no turn is running.
#[test]
fn idle_session_approves_nothing() {
    let (phase, actions) = approval_step(
        ApprovalPhase::Opening,
        true,
        ApprovalInput::Opened { known: true, running: false, assembled: true },
    );
    assert_eq!(phase, ApprovalPhase::Closed);
    assert_eq!(actions, vec![ApprovalAction::Return(ApprovalOutcome::Unavailable)]);
}

/// A plan is put to the user, approved and recorded.
#[test]
fn plan_question_approve_flow() {
    let q = plan_question("# p");
    assert_eq!(q.detail.as_deref(), Some("# p"));
    assert_eq!(plan_approve_label(), "批准");
    let f = plan_question_frame("s", "rpc", "# p");
    assert_eq!((f.method.as_str(), f.rpc_id.as_str()), ("question/requested", "rpc"));
    let settled = settle_plan("# p", QuestionAnswer::Approve, 9);
    let kinds: Vec<&str> = settled.events.iter().map(|e| e.kind.as_str()).collect();
    assert_eq!(kinds, vec!["plan/approved", "session/mode"]);
    assert_eq!(pick(&settled.events[1].data, &["mode"]), &Json::text("standard"));
    assert_eq!(settled.review, PlanReviewOutcome::Approved);
}

/// A plan that is turned down stays in plan mode; what was said goes on.
#[test]
fn plan_question_decline_flow() {
    let answer = plan_answer(
        &doc(r#"{"answer":{"answers":[{"id":"plan","selected":["拒绝"],"custom":" 改一下 "}]}}"#),
        "批准",
    );
    match &answer {
        QuestionAnswer::Decline { feedback } => assert!(feedback.is_some()),
        other => panic!("{other:?}"),
    }
    let settled = settle_plan("# p", answer, 9);
    assert_eq!(settled.events.len(), 1);
    assert_eq!(settled.events[0].kind, "plan/declined");
    assert!(matches!(settled.review, PlanReviewOutcome::Declined { .. }));
}

/// What was said of a plan becomes a turn of its own.
#[test]
fn plan_decline_feedback_reaches_model_via_guide_turn() {
    let guide = plan_guide(&PlanReviewOutcome::Declined { feedback: Some("改一下".into()) });
    assert!(guide.contains("改一下"));
    let mut q = QueueState { pending: Vec::new(), steer: Vec::new(), running: false };
    let (id, records) = inject_plan_guide_turn(&mut q, &guide);
    assert_eq!(records.len(), 1);
    assert_eq!(q.pending.len() + q.steer.len(), 1);
    assert!(q.pending.iter().any(|p| p.id == id && p.text == guide));
}

/// A review in a turn: recorded, put, answered.
#[test]
fn plan_review_in_turn_approve_arc() {
    let (phase, a) =
        review_step(ReviewPhase::Opening, ReviewInput::Opened { known: true, assembled: true });
    assert_eq!(a, vec![ReviewAction::LogSubmitted]);
    let (phase, a) = review_step(phase, ReviewInput::Submitted { logged: true });
    assert_eq!(a, vec![ReviewAction::Ask]);
    let (phase, a) = review_step(phase, ReviewInput::Answered(ReviewEnd::Approved));
    assert_eq!(phase, ReviewPhase::Closed);
    assert!(a.contains(&ReviewAction::LogEnd(ReviewEnd::Approved)));
    assert_eq!(a.last(), Some(&ReviewAction::Return(ReviewEnd::Approved)));
}

/// A review that is stopped is recorded as cancelled and forgotten.
#[test]
fn plan_review_stop_cancels_open_review() {
    let (_, a) = review_step(ReviewPhase::Asking, ReviewInput::Dropped);
    assert!(a.contains(&ReviewAction::Forget));
    assert!(a.contains(&ReviewAction::LogEnd(ReviewEnd::Cancelled)));
    let (phase, a) =
        review_step(ReviewPhase::Opening, ReviewInput::Opened { known: false, assembled: false });
    assert_eq!(phase, ReviewPhase::Closed);
    assert_eq!(a, vec![ReviewAction::FailUnknown]);
    assert_eq!(review_failure(a[0]).as_deref(), Some("计划评审:会话不存在"));
    assert_eq!(review_failure(ReviewAction::Ask), None);
    assert_eq!(review_end(&PlanReviewOutcome::Cancelled), ReviewEnd::Cancelled);
    assert_eq!(review_decision(PlanReviewOutcome::Cancelled, "gone".into()), Err("gone".into()));
    assert_eq!(
        review_decision(PlanReviewOutcome::Approved, "gone".into()),
        Ok(PlanReviewDecision::Approve)
    );
    let declined = PlanReviewOutcome::Declined { feedback: Some("why".into()) };
    assert_eq!(review_end(&declined), ReviewEnd::Declined);
    assert_eq!(
        review_decision(declined, "gone".into()),
        Ok(PlanReviewDecision::Decline { feedback: Some("why".into()) })
    );
}

/// What is said of the goal without its number holds of the one that is open.
#[test]
fn open_goal_is_paused_and_edited() {
    let mut goals = Vec::new();
    assert_eq!(goal_create(&mut goals, "A"), 1);
    goal_pause_open(&mut goals, true).unwrap();
    assert_eq!((goals[0].id, goals[0].text.as_str()), (1, "A"));
    assert!(goals[0].paused && !goals[0].done && goals.len() == 1);
    goal_pause_open(&mut goals, false).unwrap();
    assert!(!goals[0].paused);
    goal_edit_open(&mut goals, "B").unwrap();
    assert_eq!(goals[0].text, "B");
    goal_complete(&mut goals, 1).unwrap();
    assert_eq!(goal_pause_open(&mut goals, true).unwrap_err().message, "目标不存在");
}

/// Goals are made, changed, and read back from the log.
#[test]
fn goal_rpc_roundtrip() {
    let mut log = EventLog::new();
    let mut goals = goal_current(&log);
    assert!(goals.is_empty());
    let g1 = goal_create(&mut goals, "发布 M2");
    let g2 = goal_create(&mut goals, "检索导出");
    assert_ne!(g1, g2);
    log.append(goal_event(&goals, 1));
    let mut goals = goal_current(&log);
    assert_eq!(goals.len(), 2);

    goal_edit(&mut goals, g1, "发布 M2.1").unwrap();
    goal_complete(&mut goals, g1).unwrap();
    goal_set_paused(&mut goals, g2, true).unwrap();
    log.append(goal_event(&goals, 2));
    let state = goal_state("s", &goal_current(&log));
    let shown = pick(&state, &["goals"]).as_array().unwrap();
    assert_eq!(shown[0].str_at("text"), Some("发布 M2.1"));
    assert_eq!(shown[0].bool_at("done"), Some(true));
    assert_eq!(shown[1].bool_at("paused"), Some(true));

    goal_set_paused(&mut goals, g2, false).unwrap();
    assert!(!goals[1].paused);

    goal_clear(&mut goals);
    log.append(goal_event(&goals, 3));
    assert!(goal_current(&log).is_empty());
    assert!(goal_pause_open(&mut goals, true).is_err());
    assert!(goal_edit_open(&mut goals, "x").is_err());
    assert!(goal_edit(&mut goals, 99, "x").is_err());
    assert!(goal_complete(&mut goals, 99).is_err());
    assert!(goal_set_paused(&mut goals, 99, true).is_err());
    log.append(Event::new("turn/start", 4, Json::object()));
    assert!(goal_current(&log).is_empty());
}

/// A question is withdrawn when the turn is stopped, and only then.
#[test]
fn cancel_session_interrupts_pending_ask() {
    let stopped = settle_ask(AskEnd::Stopped);
    assert!(stopped.withdrawn);
    assert_eq!(stopped.result, Err("ask_user_question 已被取消".to_string()));
    let lost = settle_ask(AskEnd::Lost);
    assert!(!lost.withdrawn);
    assert_eq!(lost.result, Err("ask_user_question 未被应答".to_string()));
    assert_eq!(settle_ask(AskEnd::Answered("a".into())).result, Ok("a".to_string()));
}
