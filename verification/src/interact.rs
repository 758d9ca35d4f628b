//! What a session asks its user, and what becomes of the answer.
//!
//! A question waits under a token until it is answered. Three kinds of question
//! wait: plain questions of the model, approvals, and the review of a plan.
use vstd::prelude::*;
use vstd::string::*;

use crate::json::{
    Json, JsonTree, ascending, lemma_with, lemma_with_some, member, parse, parsed_value, read_ok, render, says,
    trees, value_text,
};
use crate::proto::{RespondReceipt, RpcResult};
use crate::strmap::StrMap;
use crate::text::{blank, is_blank, same, text_before};

verus! {

/// The texts among some values.
pub open spec fn texts(all: Seq<JsonTree>) -> Seq<JsonTree>
    decreases all.len(),
{
    if all.len() == 0 {
        Seq::empty()
    } else if all.last() is Text {
        texts(all.drop_last()).push(all.last())
    } else {
        texts(all.drop_last())
    }
}

/// Whether an answer both selects a label and gives a text of its own.
pub open spec fn both_given(labels: Seq<JsonTree>, custom: Option<Seq<char>>) -> bool {
    custom matches Some(c) && labels.len() > 0 && (c.len() > 0 || labels.contains(
        JsonTree::Text(Seq::empty()),
    ))
}

/// An answer as the model is given it, or why it is refused.
pub open spec fn answer_item(a: JsonTree) -> Result<JsonTree, Seq<char>> {
    if !(a.at("id"@) is Text) {
        Err("answer 需要 id"@)
    } else if !(a.at("selected"@) is Array) {
        Err("answer 需要 selected 数组"@)
    } else if a.at("selected"@)->Array_0.len() > 1 {
        Err("单选 selected 不能超过 1 项"@)
    } else {
        let labels = texts(a.at("selected"@)->Array_0);
        let custom = a.at("custom"@).as_text();
        if both_given(labels, custom) {
            Err("selected 与 custom 互斥"@)
        } else {
            Ok(
                JsonTree::object().with_some(
                    "custom"@,
                    match custom {
                        Some(c) => if c.len() > 0 {
                            Some(JsonTree::Text(c))
                        } else {
                            None
                        },
                        None => None,
                    },
                ).with("id"@, a.at("id"@)).with("selected"@, JsonTree::Array(labels)),
            )
        }
    }
}

/// Answers as the model is given them, or why the first bad one is refused.
pub open spec fn answer_items(all: Seq<JsonTree>) -> Result<Seq<JsonTree>, Seq<char>>
    decreases all.len(),
{
    if all.len() == 0 {
        Ok(Seq::empty())
    } else {
        match answer_items(all.drop_last()) {
            Err(e) => Err(e),
            Ok(done) => match answer_item(all.last()) {
                Err(e) => Err(e),
                Ok(item) => Ok(done.push(item)),
            },
        }
    }
}

/// What the model is given of a reply, or why the reply is refused.
pub open spec fn encoded_answers(value: JsonTree) -> Result<JsonTree, Seq<char>> {
    match value.at("answer"@).at("answers"@).as_items() {
        None => Err("缺少 answer.answers 数组"@),
        Some(all) => match answer_items(all) {
            Err(e) => Err(e),
            Ok(items) => Ok(JsonTree::object().with("answers"@, JsonTree::Array(items))),
        },
    }
}

proof fn lemma_texts_are_texts(all: Seq<JsonTree>)
    ensures
        forall|i: int| 0 <= i < texts(all).len() ==> #[trigger] texts(all)[i] is Text,
        texts(all).len() <= all.len(),
    decreases all.len(),
{
    if all.len() > 0 {
        lemma_texts_are_texts(all.drop_last());
    }
}

/// An answer is written in one way only, and is shallow.
proof fn lemma_answer_item_plain(a: JsonTree)
    requires
        answer_item(a) is Ok,
    ensures
        answer_item(a)->Ok_0.canonical(),
        answer_item(a)->Ok_0.plain_within(2),
{
    reveal_strlit("custom");
    reveal_strlit("id");
    reveal_strlit("selected");
    reveal_with_fuel(JsonTree::canonical, 3);
    reveal_with_fuel(JsonTree::plain_within, 3);
    reveal_with_fuel(text_before, 2);
    assert("custom"@[0] == 'c' && "id"@[0] == 'i' && "selected"@[0] == 's');
    assert("custom"@.len() > 0 && "id"@.len() > 0 && "selected"@.len() > 0);
    let labels = texts(a.at("selected"@)->Array_0);
    lemma_texts_are_texts(a.at("selected"@)->Array_0);
    let t = answer_item(a)->Ok_0;
    assert(JsonTree::Array(labels).canonical());
    assert(JsonTree::Array(labels).plain_within(1));
    assert(a.at("id"@).canonical());
    let s = t->Object_0;
    assert(s.len() <= 3);
    assert(ascending(s));
    assert forall|i: int| 0 <= i < s.len() implies (#[trigger] s[i]).1.canonical() by {}
    assert forall|i: int| 0 <= i < s.len() implies (#[trigger] s[i]).1.plain_within(1) by {}
}

proof fn lemma_answer_items_plain(all: Seq<JsonTree>)
    requires
        answer_items(all) is Ok,
    ensures
        forall|i: int|
            0 <= i < answer_items(all)->Ok_0.len() ==> (#[trigger] answer_items(
                all,
            )->Ok_0[i]).canonical() && answer_items(all)->Ok_0[i].plain_within(2),
    decreases all.len(),
{
    if all.len() > 0 {
        lemma_answer_items_plain(all.drop_last());
        lemma_answer_item_plain(all.last());
    }
}

proof fn lemma_encoded_plain(value: JsonTree)
    requires
        encoded_answers(value) is Ok,
    ensures
        encoded_answers(value)->Ok_0.canonical(),
        encoded_answers(value)->Ok_0.plain_within(127),
{
    let all = value.at("answer"@).at("answers"@)->Array_0;
    lemma_answer_items_plain(all);
    let items = answer_items(all)->Ok_0;
    assert forall|i: int| 0 <= i < items.len() implies (#[trigger] items[i]).plain_within(125) by {
        lemma_plain_more(items[i], 2, 125);
    }
    assert(JsonTree::Array(items).canonical());
    assert(JsonTree::Array(items).plain_within(126));
    let t = encoded_answers(value)->Ok_0;
    assert(t->Object_0 =~= seq![("answers"@, JsonTree::Array(items))]);
    assert(ascending(t->Object_0));
}

/// What is shallow is shallow by a greater measure too.
proof fn lemma_plain_more(t: JsonTree, n: nat, m: nat)
    requires
        t.plain_within(n),
        n <= m,
    ensures
        t.plain_within(m),
    decreases t,
{
    match t {
        JsonTree::Array(s) => {
            assert forall|i: int| 0 <= i < s.len() implies (#[trigger] s[i]).plain_within(
                (m - 1) as nat,
            ) by {
                lemma_plain_more(s[i], (n - 1) as nat, (m - 1) as nat);
            }
        },
        JsonTree::Object(s) => {
            assert forall|i: int| 0 <= i < s.len() implies (#[trigger] s[i]).1.plain_within(
                (m - 1) as nat,
            ) by {
                assert(decreases_to!(s => s[i]));
                lemma_plain_more(s[i].1, (n - 1) as nat, (m - 1) as nat);
            }
        },
        _ => {},
    }
}

fn copy_texts(v: &Vec<Json>) -> (r: Vec<Json>)
    ensures
        trees(r@) == texts(trees(v@)),
{
    let ghost all = trees(v@);
    let mut out: Vec<Json> = Vec::new();
    let mut i: usize = 0;
    assert(trees(out@) =~= Seq::empty());
    assert(all.take(0) =~= Seq::empty());
    while i < v.len()
        invariant
            i <= v.len(),
            all == trees(v@),
            trees(out@) == texts(all.take(i as int)),
        decreases v.len() - i,
    {
        proof {
            assert(all.take(i + 1).drop_last() =~= all.take(i as int));
            assert(all.take(i + 1).last() == v@[i as int]@);
        }
        if let Some(s) = v[i].as_str() {
            let item = Json::text(s);
            assert(trees(out@.push(item)) =~= trees(out@).push(item@));
            out.push(item);
        }
        i = i + 1;
    }
    assert(all.take(all.len() as int) =~= all);
    out
}

/// One answer as the model is given it.
fn encode_answer(a: &Json) -> (r: Result<Json, String>)
    ensures
        match answer_item(a@) {
            Ok(t) => r is Ok && r->Ok_0@ == t,
            Err(e) => r is Err && r->Err_0@ == e,
        },
{
    let id = match a.str_at("id") {
        Some(s) => s,
        None => {
            return Err("answer 需要 id".to_owned());
        },
    };
    let selected_json = member(a, "selected");
    let selected = match selected_json.as_array() {
        Some(v) => v,
        None => {
            return Err("answer 需要 selected 数组".to_owned());
        },
    };
    if selected.len() > 1 {
        return Err("单选 selected 不能超过 1 项".to_owned());
    }
    let labels = copy_texts(selected);
    proof {
        lemma_texts_are_texts(trees(selected@));
    }
    let mut custom_json: Option<Json> = None;
    if let Some(c) = a.str_at("custom") {
        if labels.len() > 0 {
            let empty_label = match labels[0].as_str() {
                Some(s) => s.is_empty(),
                None => false,
            };
            proof {
                let l = trees(labels@);
                assert(l.len() == 1);
                assert(l[0] == labels@[0]@);
                assert(empty_label == (l[0] == JsonTree::Text(Seq::empty()))) by {
                    if empty_label {
                        assert(l[0]->Text_0 =~= Seq::empty());
                    }
                }
                assert(l.contains(JsonTree::Text(Seq::empty())) == empty_label);
            }
            if !c.is_empty() || empty_label {
                return Err("selected 与 custom 互斥".to_owned());
            }
        }
        if !c.is_empty() {
            custom_json = Some(Json::text(c));
        }
    }
    Ok(
        Json::object().with_some("custom", custom_json).with("id", Json::text(id)).with(
            "selected",
            Json::array(labels),
        ),
    )
}

/// Checks a reply to questions and writes it as the model is given it. The text
/// reads back as the answers.
pub fn encode_answers(value: &Json) -> (r: Result<String, String>)
    ensures
        match encoded_answers(value@) {
            Ok(t) => r is Ok && r->Ok_0@ == value_text(t) && parsed_value(r->Ok_0@) == read_ok(t),
            Err(e) => r is Err && r->Err_0@ == e,
        },
{
    let answers_json = member(&member(value, "answer"), "answers");
    let answers = match answers_json.as_array() {
        Some(v) => v,
        None => {
            return Err("缺少 answer.answers 数组".to_owned());
        },
    };
    let ghost all = trees(answers@);
    let mut items: Vec<Json> = Vec::new();
    let mut i: usize = 0;
    assert(trees(items@) =~= Seq::empty());
    assert(all.take(0) =~= Seq::empty());
    while i < answers.len()
        invariant
            i <= answers.len(),
            all == trees(answers@),
            value@.at("answer"@).at("answers"@) == JsonTree::Array(all),
            answer_items(all.take(i as int)) == Ok::<Seq<JsonTree>, Seq<char>>(trees(items@)),
        decreases answers.len() - i,
    {
        proof {
            assert(all.take(i + 1).drop_last() =~= all.take(i as int));
            assert(all.take(i + 1).last() == answers@[i as int]@);
        }
        match encode_answer(&answers[i]) {
            Ok(item) => {
                assert(trees(items@.push(item)) =~= trees(items@).push(item@));
                items.push(item);
            },
            Err(e) => {
                proof {
                    lemma_first_fault(all, i + 1, e@);
                }
                return Err(e);
            },
        }
        i = i + 1;
    }
    assert(all.take(all.len() as int) =~= all);
    let doc = Json::object().with("answers", Json::array(items));
    proof {
        lemma_encoded_plain(value@);
    }
    Ok(render(&doc))
}

/// What is wrong with the first answers is wrong with all of them.
proof fn lemma_first_fault(all: Seq<JsonTree>, n: int, e: Seq<char>)
    requires
        0 <= n <= all.len(),
        answer_items(all.take(n)) == Err::<Seq<JsonTree>, Seq<char>>(e),
    ensures
        answer_items(all) == Err::<Seq<JsonTree>, Seq<char>>(e),
    decreases all.len() - n,
{
    if n < all.len() {
        assert(all.take(n + 1).drop_last() =~= all.take(n));
        lemma_first_fault(all, n + 1, e);
    } else {
        assert(all.take(n) =~= all);
    }
}

// Replies to waiting questions.

/// How an approval ends.
#[derive(Debug, PartialEq, Eq, Clone, Copy, Structural)]
pub enum ApprovalOutcome {
    AllowedOnce,
    Rejected,
    Cancelled,
    Unavailable,
}

impl ApprovalOutcome {
    /// The name under which the log and the client know an outcome.
    pub open spec fn name_view(self) -> Seq<char> {
        match self {
            ApprovalOutcome::AllowedOnce => "allowed-once"@,
            ApprovalOutcome::Rejected => "rejected"@,
            ApprovalOutcome::Cancelled => "cancelled"@,
            ApprovalOutcome::Unavailable => "unavailable"@,
        }
    }
}

/// The name under which the log and the client know an outcome.
pub fn outcome_name(outcome: ApprovalOutcome) -> (r: &'static str)
    ensures
        r@ == outcome.name_view(),
{
    match outcome {
        ApprovalOutcome::AllowedOnce => "allowed-once",
        ApprovalOutcome::Rejected => "rejected",
        ApprovalOutcome::Cancelled => "cancelled",
        ApprovalOutcome::Unavailable => "unavailable",
    }
}

/// What is said of a plan.
#[derive(Debug, PartialEq)]
pub enum QuestionAnswer {
    Approve,
    /// Not as it is; with what should be otherwise, where that was said.
    Decline { feedback: Option<String> },
    Cancel,
}

/// The model of what is said of a plan.
pub enum AnswerView {
    Approve,
    Decline { feedback: Option<Seq<char>> },
    Cancel,
}

/// The model of a text that may be missing.
pub open spec fn text_view(s: Option<String>) -> Option<Seq<char>> {
    match s {
        Some(s) => Some(s@),
        None => None,
    }
}

/// The model of a text that may be missing.
pub open spec fn str_view(s: Option<&str>) -> Option<Seq<char>> {
    match s {
        Some(s) => Some(s@),
        None => None,
    }
}

impl View for QuestionAnswer {
    type V = AnswerView;

    open spec fn view(&self) -> AnswerView {
        match self {
            QuestionAnswer::Approve => AnswerView::Approve,
            QuestionAnswer::Decline { feedback } => AnswerView::Decline {
                feedback: text_view(*feedback),
            },
            QuestionAnswer::Cancel => AnswerView::Cancel,
        }
    }
}

/// What kind of question waits.
#[derive(Debug, PartialEq)]
pub enum PendingKind {
    /// The review of a plan; selecting the label approves it.
    Plan { approve_label: String },
    /// Questions of the model.
    Ask,
    /// An approval.
    Approval,
}

/// What is handed to the one who asked.
#[derive(Debug, PartialEq)]
pub enum Delivery {
    /// The answers, as text.
    Ask(String),
    Approval(ApprovalOutcome),
    Plan(QuestionAnswer),
}

/// What comes of a reply.
#[derive(Debug, PartialEq)]
pub enum Routed {
    /// It is refused.
    Refused(RespondReceipt),
    /// Something is handed to the one who asked.
    Deliver(Delivery),
}

/// Whether some answer selects the label.
pub open spec fn selects(answers: Seq<JsonTree>, label: Seq<char>) -> bool {
    exists|i: int|
        0 <= i < answers.len() && (#[trigger] answers[i]).at("selected"@) is Array && answers[i].at(
            "selected"@,
        )->Array_0.contains(JsonTree::Text(label))
}

/// The text of the first answer that gives one of its own.
pub open spec fn first_custom(answers: Seq<JsonTree>) -> Option<Seq<char>>
    decreases answers.len(),
{
    if answers.len() == 0 {
        None
    } else if answers[0].at("custom"@) is Text {
        Some(answers[0].at("custom"@)->Text_0)
    } else {
        first_custom(answers.drop_first())
    }
}

/// A text, unless it is blank.
pub open spec fn unless_blank(s: Option<Seq<char>>) -> Option<Seq<char>> {
    match s {
        Some(t) => if is_blank(t) {
            None
        } else {
            Some(t)
        },
        None => None,
    }
}

/// What a reply says of a plan.
pub open spec fn plan_answer_view(value: JsonTree, label: Seq<char>) -> AnswerView {
    let answers = match value.at("answer"@).at("answers"@) {
        JsonTree::Array(s) => s,
        _ => Seq::empty(),
    };
    if selects(answers, label) {
        AnswerView::Approve
    } else {
        AnswerView::Decline { feedback: unless_blank(first_custom(answers)) }
    }
}

/// How a reply settles an approval.
pub open spec fn approval_view(value: JsonTree) -> ApprovalOutcome {
    if value.at("answer"@).at("approved"@) == JsonTree::Bool(true) {
        ApprovalOutcome::AllowedOnce
    } else {
        ApprovalOutcome::Rejected
    }
}

/// Whether a receipt refuses for a reason.
pub open spec fn refuses(r: RespondReceipt, reason: Seq<char>) -> bool {
    !r.accepted && text_view(r.reason) == Some(reason)
}

impl Routed {
    /// Whether this is what comes of a reply to a question of a kind.
    pub open spec fn answers(self, kind: PendingKind, result: RpcResult) -> bool {
        match kind {
            PendingKind::Ask => match result {
                RpcResult::Success(value) => match encoded_answers(value@) {
                    Ok(t) => self matches Routed::Deliver(Delivery::Ask(text)) && text@
                        == value_text(t) && parsed_value(text@) == read_ok(t),
                    Err(e) => self matches Routed::Refused(r) && refuses(r, e),
                },
                RpcResult::Failure(_) => self matches Routed::Refused(r) && refuses(r, "cancelled"@),
            },
            PendingKind::Approval => self matches Routed::Deliver(Delivery::Approval(outcome))
                && outcome == (match result {
                RpcResult::Success(value) => approval_view(value@),
                RpcResult::Failure(_) => ApprovalOutcome::Cancelled,
            }),
            PendingKind::Plan { approve_label } => self matches Routed::Deliver(
                Delivery::Plan(answer),
            ) && answer@ == (match result {
                RpcResult::Success(value) => plan_answer_view(value@, approve_label@),
                RpcResult::Failure(_) => AnswerView::Cancel,
            }),
        }
    }
}

fn refused(reason: &str) -> (r: Routed)
    ensures
        r matches Routed::Refused(receipt) && refuses(receipt, reason@),
{
    Routed::Refused(RespondReceipt { accepted: false, reason: Some(reason.to_owned()) })
}

fn has_label(labels: &Vec<Json>, label: &str) -> (r: bool)
    ensures
        r == trees(labels@).contains(JsonTree::Text(label@)),
{
    let ghost all = trees(labels@);
    let mut i: usize = 0;
    while i < labels.len()
        invariant
            i <= labels.len(),
            all == trees(labels@),
            forall|k: int| 0 <= k < i ==> all[k] != JsonTree::Text(label@),
        decreases labels.len() - i,
    {
        assert(all[i as int] == labels@[i as int]@);
        if let Some(s) = labels[i].as_str() {
            if same(s, label) {
                return true;
            }
        }
        i = i + 1;
    }
    false
}

/// Reads what a reply says of a plan.
pub fn plan_answer(value: &Json, label: &str) -> (r: QuestionAnswer)
    ensures
        r@ == plan_answer_view(value@, label@),
{
    let none: Vec<Json> = Vec::new();
    let reply = member(value, "answer");
    let answers = crate::json::items_of(&reply, "answers", &none);
    let ghost all = trees(answers@);
    let mut i: usize = 0;
    while i < answers.len()
        invariant
            i <= answers.len(),
            all == trees(answers@),
            all == crate::json::items_at(value@.at("answer"@), "answers"@),
            forall|k: int|
                0 <= k < i ==> !((#[trigger] all[k]).at("selected"@) is Array && all[k].at(
                    "selected"@,
                )->Array_0.contains(JsonTree::Text(label@))),
        decreases answers.len() - i,
    {
        assert(all[i as int] == answers@[i as int]@);
        if let Some(selected) = answers[i].get("selected") {
            if let Some(labels) = selected.as_array() {
                if has_label(labels, label) {
                    return QuestionAnswer::Approve;
                }
            }
        }
        i = i + 1;
    }
    assert(!selects(all, label@));
    let mut k: usize = 0;
    assert(all.skip(0) =~= all);
    while k < answers.len()
        invariant
            k <= answers.len(),
            all == trees(answers@),
            all == crate::json::items_at(value@.at("answer"@), "answers"@),
            !selects(all, label@),
            first_custom(all) == first_custom(all.skip(k as int)),
        decreases answers.len() - k,
    {
        assert(all.skip(k as int)[0] == answers@[k as int]@);
        assert(all.skip(k as int).drop_first() =~= all.skip(k + 1));
        if let Some(s) = answers[k].str_at("custom") {
            return QuestionAnswer::Decline {
                feedback: if blank(s) {
                    None
                } else {
                    Some(s.to_owned())
                },
            };
        }
        k = k + 1;
    }
    QuestionAnswer::Decline { feedback: None }
}

/// Works out what a reply to a question of a kind hands over.
pub fn route(kind: &PendingKind, result: &RpcResult) -> (r: Routed)
    ensures
        r.answers(*kind, *result),
{
    match kind {
        PendingKind::Ask => match result {
            RpcResult::Success(value) => match encode_answers(value) {
                Ok(text) => Routed::Deliver(Delivery::Ask(text)),
                Err(e) => refused(e.as_str()),
            },
            RpcResult::Failure(_) => refused("cancelled"),
        },
        PendingKind::Approval => match result {
            RpcResult::Success(value) => {
                let allowed = match member(value, "answer").bool_at("approved") {
                    Some(b) => b,
                    None => false,
                };
                if allowed {
                    Routed::Deliver(Delivery::Approval(ApprovalOutcome::AllowedOnce))
                } else {
                    Routed::Deliver(Delivery::Approval(ApprovalOutcome::Rejected))
                }
            },
            RpcResult::Failure(_) => Routed::Deliver(
                Delivery::Approval(ApprovalOutcome::Cancelled),
            ),
        },
        PendingKind::Plan { approve_label } => match result {
            RpcResult::Success(value) => Routed::Deliver(
                Delivery::Plan(plan_answer(value, approve_label.as_str())),
            ),
            RpcResult::Failure(_) => Routed::Deliver(Delivery::Plan(QuestionAnswer::Cancel)),
        },
    }
}

/// A question that waits, with the frame that asked it.
#[derive(Debug)]
pub struct PendingInteraction {
    pub kind: PendingKind,
    pub frame: crate::proto::ServerRequest,
}

/// Whether a reply is treated as it should be: the question under its token waits
/// no more, whatever the reply says; a reply to nothing is refused.
pub open spec fn replied(
    before: Map<Seq<char>, PendingInteraction>,
    after: Map<Seq<char>, PendingInteraction>,
    rpc_id: Seq<char>,
    result: RpcResult,
    r: Routed,
) -> bool {
    &&& after == before.remove(rpc_id)
    &&& if before.dom().contains(rpc_id) {
        r.answers(before[rpc_id].kind, result)
    } else {
        is_not_pending(r)
    }
}

/// The answer to a reply that nothing waits for.
pub open spec fn is_not_pending(r: Routed) -> bool {
    r matches Routed::Refused(receipt) && refuses(receipt, "not-pending"@)
}

/// Takes a reply to the question under a token.
pub fn respond(
    pending: &mut StrMap<PendingInteraction>,
    rpc_id: &str,
    result: &RpcResult,
) -> (r: Routed)
    requires
        old(pending).wf(),
    ensures
        final(pending).wf(),
        replied(old(pending)@, final(pending)@, rpc_id@, *result, r),
{
    match pending.remove(rpc_id) {
        None => refused("not-pending"),
        Some(p) => route(&p.kind, result),
    }
}

/// What the client is told once something was handed over, or could not be
/// because the one who asked is gone.
pub fn delivery_receipt(taken: bool) -> (r: RespondReceipt)
    ensures
        r.accepted == taken,
        text_view(r.reason) == (if taken {
            None
        } else {
            Some("bad-response"@)
        }),
{
    if taken {
        RespondReceipt { accepted: true, reason: None }
    } else {
        RespondReceipt { accepted: false, reason: Some("bad-response".to_owned()) }
    }
}

/// A question is answered once: a second reply under its token is refused.
pub proof fn law_answered_once(
    before: Map<Seq<char>, PendingInteraction>,
    between: Map<Seq<char>, PendingInteraction>,
    after: Map<Seq<char>, PendingInteraction>,
    rpc_id: Seq<char>,
    first: RpcResult,
    second: RpcResult,
    r1: Routed,
    r2: Routed,
)
    requires
        replied(before, between, rpc_id, first, r1),
        replied(between, after, rpc_id, second, r2),
    ensures
        is_not_pending(r2),
        after == between,
{
    assert(between.remove(rpc_id) =~= between);
}

// Approvals of single tool calls.

/// Whether answers allow a call.
pub open spec fn allows(answers: JsonTree) -> bool {
    match answers.at("answers"@) {
        JsonTree::Array(items) => items.len() > 0 && items[0].at("selected"@) is Array
            && items[0].at("selected"@)->Array_0.contains(JsonTree::Text("允许一次"@)),
        _ => false,
    }
}

/// Whether answers allow a call.
pub fn tool_allowed(answers: &Json) -> (r: bool)
    ensures
        r == allows(answers@),
{
    let items_json = member(answers, "answers");
    match items_json.as_array() {
        Some(items) => {
            if items.len() == 0 {
                return false;
            }
            assert(trees(items@)[0] == items@[0]@);
            match items[0].get("selected") {
                Some(selected) => match selected.as_array() {
                    Some(labels) => has_label(labels, "允许一次"),
                    None => false,
                },
                None => false,
            }
        },
        None => false,
    }
}

/// How an approval of a tool call ends: with what the answers, given as text,
/// say, or cancelled where none came.
pub fn tool_outcome(answer: Option<&str>) -> (r: ApprovalOutcome)
    ensures
        r == (match answer {
            None => ApprovalOutcome::Cancelled,
            Some(text) => match parsed_value(text@) {
                Ok(t) => if allows(t) {
                    ApprovalOutcome::AllowedOnce
                } else {
                    ApprovalOutcome::Rejected
                },
                Err(_) => ApprovalOutcome::Rejected,
            },
        }),
{
    match answer {
        None => ApprovalOutcome::Cancelled,
        Some(text) => match parse(text) {
            Ok(answers) => if tool_allowed(&answers) {
                ApprovalOutcome::AllowedOnce
            } else {
                ApprovalOutcome::Rejected
            },
            Err(_) => ApprovalOutcome::Rejected,
        },
    }
}

/// What a user answers is what a tool call gets: a reply whose only answer
/// selects the label that allows comes out allowed after it was written down as
/// text.
pub proof fn law_allowed_reply_allows(value: JsonTree, id: Seq<char>)
    requires
        value.at("answer"@).at("answers"@) == JsonTree::Array(
            seq![
                JsonTree::object().with("id"@, JsonTree::Text(id)).with(
                    "selected"@,
                    JsonTree::Array(seq![JsonTree::Text("允许一次"@)]),
                ),
            ],
        ),
    ensures
        encoded_answers(value) is Ok,
        allows(encoded_answers(value)->Ok_0),
{
    reveal_strlit("id");
    reveal_strlit("selected");
    reveal_strlit("custom");
    reveal_strlit("answers");
    assert("id"@.len() == 2 && "selected"@.len() == 8 && "custom"@.len() == 6);
    let label = JsonTree::Text("允许一次"@);
    let picked = JsonTree::Array(seq![label]);
    let t0 = JsonTree::object();
    let t1 = t0.with("id"@, JsonTree::Text(id));
    let a = t1.with("selected"@, picked);
    lemma_with(t0, "id"@, JsonTree::Text(id));
    lemma_with(t1, "selected"@, picked);
    assert(a.get("id"@) == Some(JsonTree::Text(id)));
    assert(a.get("selected"@) == Some(picked));
    assert(a.get("custom"@) is None);
    reveal_with_fuel(texts, 2);
    assert(seq![label].drop_last() =~= Seq::empty());
    assert(texts(seq![label]) =~= seq![label]);
    let item = answer_item(a)->Ok_0;
    lemma_with(t0, "id"@, a.at("id"@));
    lemma_with(t0.with("id"@, a.at("id"@)), "selected"@, JsonTree::Array(seq![label]));
    assert(item == t0.with("id"@, a.at("id"@)).with("selected"@, JsonTree::Array(seq![label])));
    assert(item.get("selected"@) == Some(JsonTree::Array(seq![label])));
    reveal_with_fuel(answer_items, 2);
    assert(seq![a].drop_last() =~= Seq::empty());
    assert(answer_items(seq![a])->Ok_0 =~= seq![item]);
    let doc = encoded_answers(value)->Ok_0;
    lemma_with(t0, "answers"@, JsonTree::Array(seq![item]));
    assert(doc.get("answers"@) == Some(JsonTree::Array(seq![item])));
    assert(seq![label][0] == label);
}

/// The label that an answer selects: the only text of a selection of one.
pub open spec fn picked(a: JsonTree) -> Option<Seq<char>> {
    match a.at("selected"@) {
        JsonTree::Array(s) => if s.len() == 1 && s[0] is Text {
            Some(s[0]->Text_0)
        } else {
            None
        },
        _ => None,
    }
}

/// The text of its own that an answer gives, unless it is empty.
pub open spec fn own_text(a: JsonTree) -> Option<Seq<char>> {
    match a.at("custom"@) {
        JsonTree::Text(c) => if c.len() > 0 {
            Some(c)
        } else {
            None
        },
        _ => None,
    }
}

/// Whether an answer can be taken: it says what it answers, selects at most one, and
/// does not both select and give a text of its own.
pub open spec fn is_usable(a: JsonTree) -> bool {
    &&& a.at("id"@) is Text
    &&& a.at("selected"@) is Array && a.at("selected"@)->Array_0.len() <= 1
    &&& !(picked(a) is Some && a.at("custom"@) is Text && (own_text(a) is Some || picked(a)->0.len()
        == 0))
}

proof fn lemma_answer_keeps(a: JsonTree)
    ensures
        answer_item(a) is Ok <==> is_usable(a),
        answer_item(a) matches Ok(item) ==> item.at("id"@) == a.at("id"@) && picked(item) == picked(
            a,
        ) && item.at("selected"@) is Array && (picked(a) is None ==> item.at(
            "selected"@,
        )->Array_0.len() == 0) && own_text(item) == own_text(a),
{
    reveal_strlit("custom");
    reveal_strlit("id");
    reveal_strlit("selected");
    assert("custom"@.len() == 6 && "id"@.len() == 2 && "selected"@.len() == 8);
    reveal_with_fuel(texts, 3);
    if a.at("id"@) is Text && a.at("selected"@) is Array && a.at("selected"@)->Array_0.len() <= 1 {
        let s = a.at("selected"@)->Array_0;
        let labels = texts(s);
        let custom = a.at("custom"@).as_text();
        if s.len() == 1 {
            assert(s.drop_last() =~= Seq::empty());
            assert(s.last() == s[0]);
            if s[0] is Text {
                assert(labels =~= seq![s[0]]);
                assert(labels[0] == s[0]);
                if s[0]->Text_0.len() == 0 {
                    assert(s[0]->Text_0 =~= Seq::empty());
                }
                assert(labels.contains(JsonTree::Text(Seq::empty())) == (s[0]->Text_0.len() == 0));
            } else {
                assert(labels =~= Seq::empty());
            }
        } else {
            assert(labels =~= Seq::empty());
        }
        if answer_item(a) is Ok {
            let given = match custom {
                Some(c) => if c.len() > 0 {
                    Some(JsonTree::Text(c))
                } else {
                    None
                },
                None => None,
            };
            let t0 = JsonTree::object();
            let t1 = t0.with_some("custom"@, given);
            let t2 = t1.with("id"@, a.at("id"@));
            let t3 = t2.with("selected"@, JsonTree::Array(labels));
            lemma_with_some(t0, "custom"@, given);
            lemma_with(t1, "id"@, a.at("id"@));
            lemma_with(t2, "selected"@, JsonTree::Array(labels));
            assert(t3.get("custom"@) == given);
            assert(t3.get("id"@) == Some(a.at("id"@)));
            assert(t3.get("selected"@) == Some(JsonTree::Array(labels)));
            assert(answer_item(a)->Ok_0 == t3);
        }
    }
}

proof fn lemma_answers_keep(all: Seq<JsonTree>)
    ensures
        answer_items(all) is Ok <==> forall|i: int|
            0 <= i < all.len() ==> is_usable(#[trigger] all[i]),
        answer_items(all) matches Ok(items) ==> items.len() == all.len() && forall|i: int|
            0 <= i < all.len() ==> answer_item(all[i]) == Ok::<JsonTree, Seq<char>>(
                #[trigger] items[i],
            ),
    decreases all.len(),
{
    if all.len() > 0 {
        let rest = all.drop_last();
        lemma_answers_keep(rest);
        lemma_answer_keeps(all.last());
        assert forall|i: int| 0 <= i < rest.len() implies rest[i] == #[trigger] all[i] by {}
        assert(all[all.len() - 1] == all.last());
        if answer_items(rest) is Err {
            let k = choose|k: int| 0 <= k < rest.len() && !is_usable(#[trigger] rest[k]);
            assert(!is_usable(all[k]));
        } else if answer_items(all) is Ok {
            let done = answer_items(rest)->Ok_0;
            let items = answer_items(all)->Ok_0;
            assert forall|i: int| 0 <= i < all.len() implies is_usable(#[trigger] all[i]) by {
                if i < rest.len() {
                    assert(is_usable(rest[i]));
                }
            }
            assert forall|i: int| 0 <= i < all.len() implies answer_item(all[i]) == Ok::<
                JsonTree,
                Seq<char>,
            >(#[trigger] items[i]) by {
                if i < rest.len() {
                    assert(items[i] == done[i]);
                }
            }
        } else {
            assert(!is_usable(all[all.len() - 1]));
        }
    }
}

/// A reply is taken where all its answers can be. The model is then given as many
/// answers as the user gave, in their order, and each has the id, the label and the own
/// text of the answer that it comes from.
pub proof fn law_answers_are_handed_over(value: JsonTree)
    ensures
        encoded_answers(value) is Ok <==> value.at("answer"@).at("answers"@) is Array && forall|
            i: int,
        |
            0 <= i < value.at("answer"@).at("answers"@)->Array_0.len() ==> is_usable(
                #[trigger] value.at("answer"@).at("answers"@)->Array_0[i],
            ),
        encoded_answers(value) matches Ok(given) ==> {
            let all = value.at("answer"@).at("answers"@)->Array_0;
            let out = given.at("answers"@)->Array_0;
            &&& given.at("answers"@) is Array
            &&& out.len() == all.len()
            &&& forall|i: int|
                0 <= i < all.len() ==> (#[trigger] out[i]).at("id"@) == all[i].at("id"@) && picked(
                    out[i],
                ) == picked(all[i]) && own_text(out[i]) == own_text(all[i])
            &&& forall|i: int|
                0 <= i < all.len() ==> (#[trigger] out[i]).at("selected"@) is Array && (picked(
                    all[i],
                ) is None ==> out[i].at("selected"@)->Array_0.len() == 0)
        },
{
    if value.at("answer"@).at("answers"@) is Array {
        let all = value.at("answer"@).at("answers"@)->Array_0;
        lemma_answers_keep(all);
        if answer_items(all) is Ok {
            let items = answer_items(all)->Ok_0;
            let t0 = JsonTree::object();
            lemma_with(t0, "answers"@, JsonTree::Array(items));
            assert(encoded_answers(value)->Ok_0.get("answers"@) == Some(JsonTree::Array(items)));
            assert forall|i: int| 0 <= i < all.len() implies (#[trigger] items[i]).at("id"@)
                == all[i].at("id"@) && picked(items[i]) == picked(all[i]) && own_text(items[i])
                == own_text(all[i]) && items[i].at("selected"@) is Array && (picked(all[i]) is None
                ==> items[i].at("selected"@)->Array_0.len() == 0) by {
                lemma_answer_keeps(all[i]);
            }
        }
    }
}

proof fn lemma_first_custom(answers: Seq<JsonTree>) -> (i: int)
    ensures
        match first_custom(answers) {
            Some(t) => 0 <= i < answers.len() && answers[i].at("custom"@) == JsonTree::Text(t)
                && forall|k: int| 0 <= k < i ==> !((#[trigger] answers[k]).at("custom"@) is Text),
            None => forall|k: int|
                0 <= k < answers.len() ==> !((#[trigger] answers[k]).at("custom"@) is Text),
        },
    decreases answers.len(),
{
    if answers.len() == 0 || answers[0].at("custom"@) is Text {
        0
    } else {
        let rest = answers.drop_first();
        let i = lemma_first_custom(rest);
        assert forall|k: int| 0 < k < answers.len() && (first_custom(rest) is Some ==> k < i
            + 1) implies !((#[trigger] answers[k]).at("custom"@) is Text) by {
            assert(rest[k - 1] == answers[k]);
        }
        i + 1
    }
}

/// A reply approves a plan exactly where some answer selects the label. Otherwise the
/// plan is declined, with the own text of the first answer that has one, unless that is
/// blank.
pub proof fn law_plan_is_approved_by_label(value: JsonTree, label: Seq<char>, answers: Seq<JsonTree>)
    requires
        value.at("answer"@).at("answers"@) == JsonTree::Array(answers),
    ensures
        plan_answer_view(value, label) is Approve <==> exists|i: int, j: int|
            0 <= i < answers.len() && answers[i].at("selected"@) is Array && 0 <= j
                < answers[i].at("selected"@)->Array_0.len() && #[trigger] answers[i].at(
                "selected"@,
            )->Array_0[j] == JsonTree::Text(label),
        !(plan_answer_view(value, label) is Cancel),
        forall|i: int|
            0 <= i < answers.len() && answers[i].at("custom"@) is Text && (forall|k: int|
                0 <= k < i ==> !((#[trigger] answers[k]).at("custom"@) is Text)) && plan_answer_view(
                value,
                label,
            ) is Decline ==> plan_answer_view(value, label)->feedback == if is_blank(
                (#[trigger] answers[i]).at("custom"@)->Text_0,
            ) {
                None
            } else {
                Some(answers[i].at("custom"@)->Text_0)
            },
        (forall|k: int| 0 <= k < answers.len() ==> !((#[trigger] answers[k]).at("custom"@) is Text))
            && plan_answer_view(value, label) is Decline ==> plan_answer_view(
            value,
            label,
        )->feedback is None,
{
    if selects(answers, label) {
        let i = choose|i: int|
            0 <= i < answers.len() && (#[trigger] answers[i]).at("selected"@) is Array
                && answers[i].at("selected"@)->Array_0.contains(JsonTree::Text(label));
        let s = answers[i].at("selected"@)->Array_0;
        let j = choose|j: int| 0 <= j < s.len() && s[j] == JsonTree::Text(label);
        assert(answers[i].at("selected"@)->Array_0[j] == JsonTree::Text(label));
    } else {
        assert forall|i: int, j: int|
            0 <= i < answers.len() && answers[i].at("selected"@) is Array && 0 <= j
                < answers[i].at("selected"@)->Array_0.len() implies #[trigger] answers[i].at(
            "selected"@,
        )->Array_0[j] != JsonTree::Text(label) by {
            if answers[i].at("selected"@)->Array_0[j] == JsonTree::Text(label) {
                assert(answers[i].at("selected"@)->Array_0.contains(JsonTree::Text(label)));
            }
        }
    }
    let f = lemma_first_custom(answers);
    assert forall|i: int|
        0 <= i < answers.len() && answers[i].at("custom"@) is Text && (forall|k: int|
            0 <= k < i ==> !((#[trigger] answers[k]).at("custom"@) is Text)) implies first_custom(
        answers,
    ) == Some((#[trigger] answers[i]).at("custom"@)->Text_0) by {
        assert(i == f || i < f || f < i);
    }
}

/// What a reply to a waiting question comes to. An approval is allowed exactly where
/// the reply says so. A failed reply is no answer: questions are refused as cancelled,
/// an approval and a plan are cancelled.
pub proof fn law_replies_settle(kind: PendingKind, result: RpcResult, r: Routed)
    requires
        r.answers(kind, result),
    ensures
        kind is Approval ==> (r matches Routed::Deliver(Delivery::Approval(o)) && (o is AllowedOnce
            <==> result is Success && result->Success_0@.at("answer"@).at("approved"@)
            == JsonTree::Bool(true)) && (o is Cancelled <==> result is Failure)),
        kind is Plan && result is Failure ==> (r matches Routed::Deliver(Delivery::Plan(a)) && a
            is Cancel),
        kind is Plan && result is Success ==> (r matches Routed::Deliver(Delivery::Plan(a)) && !(a
            is Cancel)),
        kind is Ask && result is Failure ==> (r matches Routed::Refused(receipt)
            && !receipt.accepted),
        kind is Ask && result is Success ==> (r is Deliver <==> encoded_answers(
            result->Success_0@,
        ) is Ok),
        kind is Ask && r is Deliver ==> (r matches Routed::Deliver(Delivery::Ask(text))
            && parsed_value(text@) == encoded_answers(result->Success_0@)),
{
}

/// A reply to a question that does not wait is refused, and told so.
pub proof fn law_late_replies_are_refused(r: Routed)
    ensures
        is_not_pending(r) <==> (r matches Routed::Refused(receipt) && !receipt.accepted
            && receipt.reason is Some && receipt.reason->0@ == "not-pending"@),
{
}

} // verus!
