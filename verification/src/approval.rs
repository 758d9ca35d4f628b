//! Approvals: the protocol that a tool call goes through before it may run, and
//! the record that it leaves in the log.
use vstd::prelude::*;
use vstd::string::*;

use crate::events::{Event, fresh_event};
use crate::interact::{ApprovalOutcome, outcome_name, text_view};
use crate::json::{Json, JsonTree, has_entry, render, value_text};
use crate::proto::{Question, QuestionOption, QuestionRequestedFrame};
use crate::text::joined3;

verus! {

/// A request to run a command with more access than the session has.
#[derive(Debug, PartialEq)]
pub struct Escalation {
    pub tool_name: String,
    pub command: Json,
    pub target_mode: String,
    pub justification: String,
}

/// A request to run a tool.
#[derive(Debug, PartialEq)]
pub struct ToolCall {
    pub tool_name: String,
    pub args_summary: String,
    pub reason: String,
}

impl Escalation {
    /// Why access is asked for, as the log has it.
    pub open spec fn reason_view(self) -> Seq<char> {
        "escalate sandbox to "@ + self.target_mode@ + ": "@ + self.justification@
    }

    /// What the log says when access is asked for.
    pub open spec fn asked_tree(self, audit_id: Seq<char>) -> JsonTree {
        JsonTree::object().with("id"@, JsonTree::Text(audit_id)).with(
            "toolName"@,
            JsonTree::Text(self.tool_name@),
        ).with("reason"@, JsonTree::Text(self.reason_view()))
    }

    /// The event that records that access is asked for.
    pub fn asked(&self, audit_id: &str, time: i64) -> (r: Event)
        ensures
            r@ == fresh_event("approval/asked"@, time, self.asked_tree(audit_id@)),
    {
        let mut reason = joined3("escalate sandbox to ", self.target_mode.as_str(), ": ");
        reason.append(self.justification.as_str());
        Event::new(
            "approval/asked",
            time,
            Json::object().with("id", Json::text(audit_id)).with(
                "toolName",
                Json::text(self.tool_name.as_str()),
            ).with("reason", Json::Text(reason)),
        )
    }

    /// The question that the user is asked.
    pub fn question(&self, audit_id: &str, current_mode: &str) -> (r: Question)
        ensures
            r.id@ == audit_id@,
            r.question@ == self.justification@,
            r.header matches Some(h) && h@ == "沙箱升级审批"@,
            r.detail is None,
            r.options is None,
            r.multi_select == Some(false),
            r.intent matches Some(i) && i@ == JsonTree::object().with(
                "kind"@,
                JsonTree::Text("sandbox-escalation"@),
            ),
            r.data matches Some(d) && d@ == JsonTree::object().with(
                "toolName"@,
                JsonTree::Text(self.tool_name@),
            ).with("command"@, self.command@).with(
                "currentMode"@,
                JsonTree::Text(current_mode@),
            ).with("targetMode"@, JsonTree::Text(self.target_mode@)),
    {
        Question {
            id: audit_id.to_owned(),
            question: self.justification.clone(),
            header: Some("沙箱升级审批".to_owned()),
            detail: None,
            options: None,
            multi_select: Some(false),
            intent: Some(Json::object().with("kind", Json::text("sandbox-escalation"))),
            data: Some(
                Json::object().with("toolName", Json::text(self.tool_name.as_str())).with(
                    "command",
                    self.command.copy(),
                ).with("currentMode", Json::text(current_mode)).with(
                    "targetMode",
                    Json::text(self.target_mode.as_str()),
                ),
            ),
        }
    }
}

impl ToolCall {
    /// Why the call needs approval, as the log has it.
    pub open spec fn reason_view(self) -> Seq<char> {
        if self.reason@.len() == 0 {
            "approval required for "@ + self.tool_name@
        } else {
            self.reason@
        }
    }

    /// What the log says when approval is asked for.
    pub open spec fn asked_tree(self, audit_id: Seq<char>) -> JsonTree {
        JsonTree::object().with("id"@, JsonTree::Text(audit_id)).with(
            "kind"@,
            JsonTree::Text("tool"@),
        ).with("toolName"@, JsonTree::Text(self.tool_name@)).with(
            "reason"@,
            JsonTree::Text(self.reason_view()),
        ).with("argsSummary"@, JsonTree::Text(self.args_summary@))
    }

    /// What the user is shown of the arguments.
    pub open spec fn detail_tree(self) -> JsonTree {
        JsonTree::object().with("argsSummary"@, JsonTree::Text(self.args_summary@))
    }

    /// What the user is asked.
    pub open spec fn wording(self) -> Seq<char> {
        if self.reason@.len() == 0 {
            "允许运行 "@ + self.tool_name@ + "?"@
        } else {
            "允许运行 "@ + self.tool_name@ + "?("@ + self.reason@ + ")"@
        }
    }

    /// The event that records that approval is asked for.
    pub fn asked(&self, audit_id: &str, time: i64) -> (r: Event)
        ensures
            r@ == fresh_event("approval/asked"@, time, self.asked_tree(audit_id@)),
    {
        let reason: String = if self.reason.as_str().is_empty() {
            crate::text::joined("approval required for ", self.tool_name.as_str())
        } else {
            self.reason.clone()
        };
        Event::new(
            "approval/asked",
            time,
            Json::object().with("id", Json::text(audit_id)).with("kind", Json::text("tool")).with(
                "toolName",
                Json::text(self.tool_name.as_str()),
            ).with("reason", Json::Text(reason)).with(
                "argsSummary",
                Json::text(self.args_summary.as_str()),
            ),
        )
    }

    /// The question that the user is asked: to allow the call once, or not.
    pub fn question(&self, audit_id: &str) -> (r: Question)
        ensures
            r.id@ == audit_id@,
            r.question@ == self.wording(),
            r.header matches Some(h) && h@ == "工具审批"@,
            r.detail matches Some(d) && d@ == value_text(self.detail_tree()),
            r.options matches Some(o) && o@.len() == 2 && o@[0].label@ == "允许一次"@ && text_view(
                o@[0].description,
            ) == Some("仅本次调用"@) && o@[1].label@ == "拒绝"@ && o@[1].description is None,
            r.multi_select == Some(false),
            r.intent matches Some(i) && i@ == JsonTree::object().with(
                "kind"@,
                JsonTree::Text("tool-approval"@),
            ),
            r.data matches Some(d) && d@ == JsonTree::object().with(
                "toolName"@,
                JsonTree::Text(self.tool_name@),
            ).with("argsSummary"@, JsonTree::Text(self.args_summary@)),
    {
        let mut wording = joined3("允许运行 ", self.tool_name.as_str(), "?");
        if !self.reason.as_str().is_empty() {
            wording.append("(");
            wording.append(self.reason.as_str());
            wording.append(")");
        }
        let detail = Json::object().with("argsSummary", Json::text(self.args_summary.as_str()));
        proof {
            reveal_with_fuel(JsonTree::canonical, 2);
            let entries = self.detail_tree()->Object_0;
            assert(entries.len() == 1);
            assert(entries[0].1.canonical());
            reveal_strlit("?(");
            reveal_strlit("?");
            reveal_strlit("(");
            assert("?("@ =~= "?"@ + "("@);
            assert(self.reason@.len() > 0 ==> wording@ =~= self.wording());
        }
        let mut options: Vec<QuestionOption> = Vec::new();
        options.push(
            QuestionOption {
                label: "允许一次".to_owned(),
                description: Some("仅本次调用".to_owned()),
            },
        );
        options.push(QuestionOption { label: "拒绝".to_owned(), description: None });
        Question {
            id: audit_id.to_owned(),
            question: wording,
            header: Some("工具审批".to_owned()),
            detail: Some(render(&detail)),
            options: Some(options),
            multi_select: Some(false),
            intent: Some(Json::object().with("kind", Json::text("tool-approval"))),
            data: Some(
                Json::object().with("toolName", Json::text(self.tool_name.as_str())).with(
                    "argsSummary",
                    Json::text(self.args_summary.as_str()),
                ),
            ),
        }
    }
}

/// The questions of a session, as one frame's content.
pub fn ask_frame(session_id: &str, question: Question) -> (r: QuestionRequestedFrame)
    ensures
        r.session_id@ == session_id@,
        r.questions@ == seq![question],
{
    let mut questions: Vec<Question> = Vec::new();
    questions.push(question);
    assert(questions@ =~= seq![question]);
    QuestionRequestedFrame { session_id: session_id.to_owned(), questions }
}

/// What the log says when an approval is decided.
pub open spec fn decided_tree(audit_id: Seq<char>, outcome: ApprovalOutcome) -> JsonTree {
    JsonTree::object().with("id"@, JsonTree::Text(audit_id)).with(
        "outcome"@,
        JsonTree::Text(outcome.name_view()),
    )
}

/// The event that records how an approval was decided.
pub fn decided_event(audit_id: &str, outcome: ApprovalOutcome, time: i64) -> (r: Event)
    ensures
        r@ == fresh_event("approval/decided"@, time, decided_tree(audit_id@, outcome)),
{
    Event::new(
        "approval/decided",
        time,
        Json::object().with("id", Json::text(audit_id)).with(
            "outcome",
            Json::text(outcome_name(outcome)),
        ),
    )
}

/// How far an approval has come.
#[derive(Debug, PartialEq, Eq, Clone, Copy, Structural)]
pub enum ApprovalPhase {
    /// Nothing has happened yet.
    Opening,
    /// The request is being recorded.
    Recording,
    /// The user is being asked.
    Asking,
    /// It is over.
    Closed,
}

/// What an approval learns.
#[derive(Debug, PartialEq, Eq, Clone, Copy, Structural)]
pub enum ApprovalInput {
    /// Whether the session is known, is in a turn, and is assembled.
    Opened { known: bool, running: bool, assembled: bool },
    /// Whether the request was recorded, and whether the session's policy is
    /// never to ask.
    Recorded { logged: bool, never: bool },
    /// The user answered, or the question was lost, which counts as cancelled.
    Replied(ApprovalOutcome),
    /// The turn was stopped.
    Stopped,
    /// The one who asked is gone.
    Dropped,
}

/// What an approval has its surroundings do.
#[derive(Debug, PartialEq, Eq, Clone, Copy, Structural)]
pub enum ApprovalAction {
    /// Record the request.
    LogAsked,
    /// Record how it ended.
    LogDecided(ApprovalOutcome),
    /// Ask the user, and let the question wait.
    Ask,
    /// Let the question wait no more.
    Forget,
    /// Tell the client that the question is settled.
    Resolve(ApprovalOutcome),
    /// Answer the one who asked.
    Return(ApprovalOutcome),
}

/// What comes of an input. `announce` says whether the client is told when the
/// user has answered; it is told in any case when the question is withdrawn.
pub open spec fn approval_after(phase: ApprovalPhase, announce: bool, input: ApprovalInput) -> (
    ApprovalPhase,
    Seq<ApprovalAction>,
) {
    match (phase, input) {
        (ApprovalPhase::Opening, ApprovalInput::Opened { known, running, assembled }) => if known
            && running && assembled {
            (ApprovalPhase::Recording, seq![ApprovalAction::LogAsked])
        } else {
            (ApprovalPhase::Closed, seq![ApprovalAction::Return(ApprovalOutcome::Unavailable)])
        },
        (ApprovalPhase::Recording, ApprovalInput::Recorded { logged, never }) => if !logged {
            (ApprovalPhase::Closed, seq![ApprovalAction::Return(ApprovalOutcome::Unavailable)])
        } else if never {
            (
                ApprovalPhase::Closed,
                seq![
                    ApprovalAction::LogDecided(ApprovalOutcome::Rejected),
                    ApprovalAction::Return(ApprovalOutcome::Rejected),
                ],
            )
        } else {
            (ApprovalPhase::Asking, seq![ApprovalAction::Ask])
        },
        (ApprovalPhase::Asking, ApprovalInput::Replied(outcome)) => if announce {
            (
                ApprovalPhase::Closed,
                seq![
                    ApprovalAction::LogDecided(outcome),
                    ApprovalAction::Resolve(outcome),
                    ApprovalAction::Return(outcome),
                ],
            )
        } else {
            (
                ApprovalPhase::Closed,
                seq![ApprovalAction::LogDecided(outcome), ApprovalAction::Return(outcome)],
            )
        },
        (ApprovalPhase::Asking, ApprovalInput::Stopped) => (
            ApprovalPhase::Closed,
            seq![
                ApprovalAction::Forget,
                ApprovalAction::LogDecided(ApprovalOutcome::Cancelled),
                ApprovalAction::Resolve(ApprovalOutcome::Cancelled),
                ApprovalAction::Return(ApprovalOutcome::Cancelled),
            ],
        ),
        (ApprovalPhase::Asking, ApprovalInput::Dropped) => (
            ApprovalPhase::Closed,
            seq![
                ApprovalAction::Forget,
                ApprovalAction::LogDecided(ApprovalOutcome::Cancelled),
                ApprovalAction::Resolve(ApprovalOutcome::Cancelled),
            ],
        ),
        _ => (phase, Seq::empty()),
    }
}

/// Takes an approval one step on.
pub fn approval_step(phase: ApprovalPhase, announce: bool, input: ApprovalInput) -> (r: (
    ApprovalPhase,
    Vec<ApprovalAction>,
))
    ensures
        r.0 == approval_after(phase, announce, input).0,
        r.1@ == approval_after(phase, announce, input).1,
{
    let mut out: Vec<ApprovalAction> = Vec::new();
    let next = match (phase, input) {
        (ApprovalPhase::Opening, ApprovalInput::Opened { known, running, assembled }) => {
            if known && running && assembled {
                out.push(ApprovalAction::LogAsked);
                ApprovalPhase::Recording
            } else {
                out.push(ApprovalAction::Return(ApprovalOutcome::Unavailable));
                ApprovalPhase::Closed
            }
        },
        (ApprovalPhase::Recording, ApprovalInput::Recorded { logged, never }) => {
            if !logged {
                out.push(ApprovalAction::Return(ApprovalOutcome::Unavailable));
                ApprovalPhase::Closed
            } else if never {
                out.push(ApprovalAction::LogDecided(ApprovalOutcome::Rejected));
                out.push(ApprovalAction::Return(ApprovalOutcome::Rejected));
                ApprovalPhase::Closed
            } else {
                out.push(ApprovalAction::Ask);
                ApprovalPhase::Asking
            }
        },
        (ApprovalPhase::Asking, ApprovalInput::Replied(outcome)) => {
            out.push(ApprovalAction::LogDecided(outcome));
            if announce {
                out.push(ApprovalAction::Resolve(outcome));
            }
            out.push(ApprovalAction::Return(outcome));
            ApprovalPhase::Closed
        },
        (ApprovalPhase::Asking, ApprovalInput::Stopped) => {
            out.push(ApprovalAction::Forget);
            out.push(ApprovalAction::LogDecided(ApprovalOutcome::Cancelled));
            out.push(ApprovalAction::Resolve(ApprovalOutcome::Cancelled));
            out.push(ApprovalAction::Return(ApprovalOutcome::Cancelled));
            ApprovalPhase::Closed
        },
        (ApprovalPhase::Asking, ApprovalInput::Dropped) => {
            out.push(ApprovalAction::Forget);
            out.push(ApprovalAction::LogDecided(ApprovalOutcome::Cancelled));
            out.push(ApprovalAction::Resolve(ApprovalOutcome::Cancelled));
            ApprovalPhase::Closed
        },
        _ => phase,
    };
    assert(out@ =~= approval_after(phase, announce, input).1);
    (next, out)
}

/// A run of an approval: where it stands, and all that it has had done.
pub open spec fn approval_run(announce: bool, inputs: Seq<ApprovalInput>) -> (
    ApprovalPhase,
    Seq<ApprovalAction>,
)
    decreases inputs.len(),
{
    if inputs.len() == 0 {
        (ApprovalPhase::Opening, Seq::empty())
    } else {
        let (phase, done) = approval_run(announce, inputs.drop_last());
        let (next, more) = approval_after(phase, announce, inputs.last());
        (next, done + more)
    }
}

/// What can have been done when an approval is over: nothing was asked and
/// nothing is recorded as decided; or the policy was never to ask; or the user
/// was asked, and the outcome stands in the log before anyone is told.
pub open spec fn closed_run(done: Seq<ApprovalAction>) -> bool {
    ||| done == seq![ApprovalAction::Return(ApprovalOutcome::Unavailable)]
    ||| done == seq![
        ApprovalAction::LogAsked,
        ApprovalAction::Return(ApprovalOutcome::Unavailable),
    ]
    ||| done == seq![
        ApprovalAction::LogAsked,
        ApprovalAction::LogDecided(ApprovalOutcome::Rejected),
        ApprovalAction::Return(ApprovalOutcome::Rejected),
    ]
    ||| exists|o: ApprovalOutcome| #[trigger] answered_run(done, o)
    ||| done == seq![ApprovalAction::LogAsked, ApprovalAction::Ask] + seq![
        ApprovalAction::Forget,
        ApprovalAction::LogDecided(ApprovalOutcome::Cancelled),
        ApprovalAction::Resolve(ApprovalOutcome::Cancelled),
        ApprovalAction::Return(ApprovalOutcome::Cancelled),
    ]
    ||| done == seq![ApprovalAction::LogAsked, ApprovalAction::Ask] + seq![
        ApprovalAction::Forget,
        ApprovalAction::LogDecided(ApprovalOutcome::Cancelled),
        ApprovalAction::Resolve(ApprovalOutcome::Cancelled),
    ]
}

/// A run in which the user answered.
pub open spec fn answered_run(done: Seq<ApprovalAction>, o: ApprovalOutcome) -> bool {
    ||| done == seq![ApprovalAction::LogAsked, ApprovalAction::Ask] + seq![
        ApprovalAction::LogDecided(o),
        ApprovalAction::Resolve(o),
        ApprovalAction::Return(o),
    ]
    ||| done == seq![ApprovalAction::LogAsked, ApprovalAction::Ask] + seq![
        ApprovalAction::LogDecided(o),
        ApprovalAction::Return(o),
    ]
}

/// Whatever an approval learns, in whatever order, what it has had done is of
/// one of a few forms. In particular a request that was recorded and asked is
/// recorded as decided exactly once, before anyone is told the outcome.
pub proof fn law_approval_runs(announce: bool, inputs: Seq<ApprovalInput>)
    ensures
        ({
            let (phase, done) = approval_run(announce, inputs);
            match phase {
                ApprovalPhase::Opening => done == Seq::<ApprovalAction>::empty(),
                ApprovalPhase::Recording => done == seq![ApprovalAction::LogAsked],
                ApprovalPhase::Asking => done == seq![
                    ApprovalAction::LogAsked,
                    ApprovalAction::Ask,
                ],
                ApprovalPhase::Closed => closed_run(done),
            }
        }),
    decreases inputs.len(),
{
    if inputs.len() > 0 {
        law_approval_runs(announce, inputs.drop_last());
        let (phase, done) = approval_run(announce, inputs.drop_last());
        let (next, more) = approval_after(phase, announce, inputs.last());
        let all = done + more;
        match (phase, inputs.last()) {
            (ApprovalPhase::Opening, ApprovalInput::Opened { known, running, assembled }) => {
                assert(all =~= more);
            },
            (ApprovalPhase::Recording, ApprovalInput::Recorded { logged, never }) => {
                if !logged {
                    assert(all =~= seq![
                        ApprovalAction::LogAsked,
                        ApprovalAction::Return(ApprovalOutcome::Unavailable),
                    ]);
                } else if never {
                    assert(all =~= seq![
                        ApprovalAction::LogAsked,
                        ApprovalAction::LogDecided(ApprovalOutcome::Rejected),
                        ApprovalAction::Return(ApprovalOutcome::Rejected),
                    ]);
                } else {
                    assert(all =~= seq![ApprovalAction::LogAsked, ApprovalAction::Ask]);
                }
            },
            (ApprovalPhase::Asking, ApprovalInput::Replied(o)) => {
                assert(answered_run(all, o));
            },
            (ApprovalPhase::Asking, ApprovalInput::Stopped) => {},
            (ApprovalPhase::Asking, ApprovalInput::Dropped) => {},
            _ => {
                assert(all =~= done);
            },
        }
    }
}

/// A session whose policy is never to ask does not ask: the request is recorded
/// and refused.
pub proof fn law_never_policy_never_asks(announce: bool)
    ensures
        approval_run(
            announce,
            seq![
                ApprovalInput::Opened { known: true, running: true, assembled: true },
                ApprovalInput::Recorded { logged: true, never: true },
            ],
        ) == (
            ApprovalPhase::Closed,
            seq![
                ApprovalAction::LogAsked,
                ApprovalAction::LogDecided(ApprovalOutcome::Rejected),
                ApprovalAction::Return(ApprovalOutcome::Rejected),
            ],
        ),
{
    let a = ApprovalInput::Opened { known: true, running: true, assembled: true };
    let b = ApprovalInput::Recorded { logged: true, never: true };
    reveal_with_fuel(approval_run, 3);
    assert(seq![a, b].drop_last() =~= seq![a]);
    assert(seq![a].drop_last() =~= Seq::empty());
    assert(approval_run(announce, seq![a]).1 =~= seq![ApprovalAction::LogAsked]);
    assert(approval_run(announce, seq![a, b]).1 =~= seq![
        ApprovalAction::LogAsked,
        ApprovalAction::LogDecided(ApprovalOutcome::Rejected),
        ApprovalAction::Return(ApprovalOutcome::Rejected),
    ]);
}

/// How an approval goes. It is asked for only of a session that is known, is in a turn and
/// is assembled, and only after the request was recorded; a session that is never to ask
/// has it rejected. What the user says is recorded and returned as it was said; a turn
/// that is stopped, and one who asked that is gone, count as cancelled, and the question
/// waits no more.
pub proof fn law_approval_returns_what_was_said(
    announce: bool,
    o: ApprovalOutcome,
    known: bool,
    running: bool,
    assembled: bool,
    logged: bool,
    never: bool,
)
    ensures
        approval_after(
            ApprovalPhase::Opening,
            announce,
            ApprovalInput::Opened { known, running, assembled },
        ).1.contains(ApprovalAction::LogAsked) <==> known && running && assembled,
        !(known && running && assembled) ==> approval_after(
            ApprovalPhase::Opening,
            announce,
            ApprovalInput::Opened { known, running, assembled },
        ).1 == seq![ApprovalAction::Return(ApprovalOutcome::Unavailable)],
        approval_after(
            ApprovalPhase::Recording,
            announce,
            ApprovalInput::Recorded { logged, never },
        ).1.contains(ApprovalAction::Ask) <==> logged && !never,
        ({
            let (next, acts) = approval_after(
                ApprovalPhase::Asking,
                announce,
                ApprovalInput::Replied(o),
            );
            &&& next is Closed
            &&& acts[0] == ApprovalAction::LogDecided(o)
            &&& acts.last() == ApprovalAction::Return(o)
            &&& acts.contains(ApprovalAction::Resolve(o)) <==> announce
        }),
        ({
            let (next, acts) = approval_after(
                ApprovalPhase::Asking,
                announce,
                ApprovalInput::Stopped,
            );
            &&& next is Closed && acts[0] is Forget
            &&& acts.contains(ApprovalAction::LogDecided(ApprovalOutcome::Cancelled))
            &&& acts.contains(ApprovalAction::Resolve(ApprovalOutcome::Cancelled))
            &&& acts.last() == ApprovalAction::Return(ApprovalOutcome::Cancelled)
        }),
        ({
            let (next, acts) = approval_after(
                ApprovalPhase::Asking,
                announce,
                ApprovalInput::Dropped,
            );
            &&& next is Closed && acts[0] is Forget
            &&& acts.contains(ApprovalAction::LogDecided(ApprovalOutcome::Cancelled))
            &&& acts.contains(ApprovalAction::Resolve(ApprovalOutcome::Cancelled))
        }),
{
    let a = approval_after(
        ApprovalPhase::Opening,
        announce,
        ApprovalInput::Opened { known, running, assembled },
    ).1;
    assert(a.len() == 1);
    assert(a[0] is LogAsked <==> known && running && assembled);
    let b = approval_after(
        ApprovalPhase::Recording,
        announce,
        ApprovalInput::Recorded { logged, never },
    ).1;
    assert(b[0] is Ask <==> logged && !never);
    let c = approval_after(ApprovalPhase::Asking, announce, ApprovalInput::Replied(o)).1;
    if announce {
        assert(c[1] == ApprovalAction::Resolve(o));
    }
    let d = approval_after(ApprovalPhase::Asking, announce, ApprovalInput::Stopped).1;
    assert(d[1] == ApprovalAction::LogDecided(ApprovalOutcome::Cancelled));
    assert(d[2] == ApprovalAction::Resolve(ApprovalOutcome::Cancelled));
    let e = approval_after(ApprovalPhase::Asking, announce, ApprovalInput::Dropped).1;
    assert(e[1] == ApprovalAction::LogDecided(ApprovalOutcome::Cancelled));
    assert(e[2] == ApprovalAction::Resolve(ApprovalOutcome::Cancelled));
}

/// What the log says of an approval: who asks for what and why, under an id, and how it was
/// decided, under the same id.
pub proof fn law_approvals_are_on_record(
    access: Escalation,
    call: ToolCall,
    audit: Seq<char>,
    o: ApprovalOutcome,
)
    ensures
        has_entry(access.asked_tree(audit), "id"@, JsonTree::Text(audit)),
        has_entry(access.asked_tree(audit), "toolName"@, JsonTree::Text(access.tool_name@)),
        has_entry(
            access.asked_tree(audit),
            "reason"@,
            JsonTree::Text(
                "escalate sandbox to "@ + access.target_mode@ + ": "@ + access.justification@,
            ),
        ),
        has_entry(call.asked_tree(audit), "id"@, JsonTree::Text(audit)),
        has_entry(call.asked_tree(audit), "kind"@, JsonTree::Text("tool"@)),
        has_entry(call.asked_tree(audit), "toolName"@, JsonTree::Text(call.tool_name@)),
        has_entry(call.asked_tree(audit), "argsSummary"@, JsonTree::Text(call.args_summary@)),
        call.reason@.len() > 0 ==> has_entry(
            call.asked_tree(audit),
            "reason"@,
            JsonTree::Text(call.reason@),
        ),
        has_entry(decided_tree(audit, o), "id"@, JsonTree::Text(audit)),
        o is AllowedOnce ==> has_entry(
            decided_tree(audit, o),
            "outcome"@,
            JsonTree::Text("allowed-once"@),
        ),
        o is Rejected ==> has_entry(
            decided_tree(audit, o),
            "outcome"@,
            JsonTree::Text("rejected"@),
        ),
        o is Cancelled ==> has_entry(
            decided_tree(audit, o),
            "outcome"@,
            JsonTree::Text("cancelled"@),
        ),
        o is Unavailable ==> has_entry(
            decided_tree(audit, o),
            "outcome"@,
            JsonTree::Text("unavailable"@),
        ),
        call.reason@.len() == 0 ==> call.wording() == "允许运行 "@ + call.tool_name@ + "?"@,
        call.reason@.len() > 0 ==> call.wording() == "允许运行 "@ + call.tool_name@ + "?("@
            + call.reason@ + ")"@,
{
    let a = access.asked_tree(audit)->Object_0;
    assert(a[0].0 == "id"@ && a[1].0 == "toolName"@ && a[2].0 == "reason"@);
    let c = call.asked_tree(audit)->Object_0;
    assert(c[0].0 == "id"@ && c[1].0 == "kind"@ && c[2].0 == "toolName"@ && c[3].0 == "reason"@
        && c[4].0 == "argsSummary"@);
    let d = decided_tree(audit, o)->Object_0;
    assert(d[0].0 == "id"@ && d[1].0 == "outcome"@);
}

/// What is said where a tool call gives no reason, and what is shown of its arguments: all
/// that the call says of them.
pub proof fn law_call_is_shown(call: ToolCall, audit: Seq<char>)
    ensures
        call.reason@.len() == 0 ==> has_entry(
            call.asked_tree(audit),
            "reason"@,
            JsonTree::Text("approval required for "@ + call.tool_name@),
        ),
        call.detail_tree() == JsonTree::Object(
            seq![("argsSummary"@, JsonTree::Text(call.args_summary@))],
        ),
{
    let c = call.asked_tree(audit)->Object_0;
    assert(c[3].0 == "reason"@);
    assert(call.detail_tree()->Object_0 =~= seq![
        ("argsSummary"@, JsonTree::Text(call.args_summary@)),
    ]);
}

} // verus!
