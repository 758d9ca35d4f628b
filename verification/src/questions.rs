//! Questions of the model, as it hands them over.
use vstd::prelude::*;
use vstd::string::*;

use crate::interact::text_view;
use crate::json::{Json, JsonTree, items_at, items_of, trees};
use crate::proto::{Question, QuestionOption};

verus! {

/// What is wrong with the answers to choose from.
pub open spec fn options_fault(all: Seq<JsonTree>) -> Option<Seq<char>> {
    if exists|i: int| 0 <= i < all.len() && !((#[trigger] all[i]).at("label"@) is Text) {
        Some("options[].label 必填"@)
    } else {
        None
    }
}

/// What is wrong with a question.
pub open spec fn question_fault(q: JsonTree) -> Option<Seq<char>> {
    if !(q.at("id"@) is Text) {
        Some("questions[].id 必填"@)
    } else if !(q.at("question"@) is Text) {
        Some("questions[].question 必填"@)
    } else {
        options_fault(items_at(q, "options"@))
    }
}

/// Whether an answer to choose is what a value says.
pub open spec fn offers(t: JsonTree, o: QuestionOption) -> bool {
    t.at("label"@) == JsonTree::Text(o.label@) && text_view(o.description) == t.at(
        "description"@,
    ).as_text()
}

/// Whether a question is what a value says.
pub open spec fn asks(t: JsonTree, q: Question) -> bool {
    &&& t.at("id"@) == JsonTree::Text(q.id@)
    &&& t.at("question"@) == JsonTree::Text(q.question@)
    &&& text_view(q.header) == t.at("header"@).as_text()
    &&& q.detail is None
    &&& q.options is Some
    &&& q.options->0@.len() == items_at(t, "options"@).len()
    &&& forall|i: int|
        0 <= i < q.options->0@.len() ==> offers(
            items_at(t, "options"@)[i],
            #[trigger] q.options->0@[i],
        )
    &&& q.multi_select == Some(t.at("multi_select"@) == JsonTree::Bool(true))
    &&& q.intent is None
    &&& q.data is None
}

fn owned(s: Option<&str>) -> (r: Option<String>)
    ensures
        text_view(r) == crate::interact::str_view(s),
{
    match s {
        Some(s) => Some(s.to_owned()),
        None => None,
    }
}

/// Reads a question.
pub fn parse_question(q: &Json) -> (r: Result<Question, String>)
    ensures
        match question_fault(q@) {
            Some(e) => r is Err && r->Err_0@ == e,
            None => r is Ok && asks(q@, r->Ok_0),
        },
{
    let id = match q.str_at("id") {
        Some(s) => s.to_owned(),
        None => {
            return Err("questions[].id 必填".to_owned());
        },
    };
    let question = match q.str_at("question") {
        Some(s) => s.to_owned(),
        None => {
            return Err("questions[].question 必填".to_owned());
        },
    };
    let none: Vec<Json> = Vec::new();
    let items = items_of(q, "options", &none);
    let ghost all = trees(items@);
    let mut options: Vec<QuestionOption> = Vec::new();
    let mut i: usize = 0;
    while i < items.len()
        invariant
            i <= items.len(),
            all == trees(items@),
            all == items_at(q@, "options"@),
            q@.at("id"@) is Text && q@.at("question"@) is Text,
            options@.len() == i,
            forall|k: int| 0 <= k < i ==> (#[trigger] all[k]).at("label"@) is Text,
            forall|k: int| 0 <= k < i ==> offers(all[k], #[trigger] options@[k]),
        decreases items.len() - i,
    {
        assert(all[i as int] == items@[i as int]@);
        match items[i].str_at("label") {
            Some(label) => {
                options.push(
                    QuestionOption {
                        label: label.to_owned(),
                        description: owned(items[i].str_at("description")),
                    },
                );
            },
            None => {
                assert(!(all[i as int].at("label"@) is Text));
                return Err("options[].label 必填".to_owned());
            },
        }
        i = i + 1;
    }
    let multi = match q.bool_at("multi_select") {
        Some(b) => b,
        None => false,
    };
    Ok(
        Question {
            id,
            question,
            header: owned(q.str_at("header")),
            detail: None,
            options: Some(options),
            multi_select: Some(multi),
            intent: None,
            data: None,
        },
    )
}

/// What is wrong with the first bad one of some questions.
pub open spec fn questions_fault(all: Seq<JsonTree>) -> Option<Seq<char>>
    decreases all.len(),
{
    if all.len() == 0 {
        None
    } else {
        match question_fault(all[0]) {
            Some(e) => Some(e),
            None => questions_fault(all.drop_first()),
        }
    }
}

/// Reads questions: all of them, or what is wrong with the first bad one.
pub fn parse_questions(v: &Vec<Json>) -> (r: Result<Vec<Question>, String>)
    ensures
        match questions_fault(trees(v@)) {
            Some(e) => r is Err && r->Err_0@ == e,
            None => r is Ok && r->Ok_0@.len() == v@.len() && forall|i: int|
                0 <= i < v@.len() ==> asks(v@[i]@, #[trigger] r->Ok_0@[i]),
        },
{
    let ghost all = trees(v@);
    let mut out: Vec<Question> = Vec::new();
    let mut i: usize = 0;
    assert(all.skip(0) =~= all);
    while i < v.len()
        invariant
            i <= v.len(),
            all == trees(v@),
            questions_fault(all) == questions_fault(all.skip(i as int)),
            out@.len() == i,
            forall|k: int| 0 <= k < i ==> asks(v@[k]@, #[trigger] out@[k]),
        decreases v.len() - i,
    {
        assert(all.skip(i as int)[0] == v@[i as int]@);
        assert(all.skip(i as int).drop_first() =~= all.skip(i + 1));
        match parse_question(&v[i]) {
            Ok(q) => {
                out.push(q);
            },
            Err(e) => {
                return Err(e);
            },
        }
        i = i + 1;
    }
    Ok(out)
}

/// How a question of the model ended.
#[derive(Debug, PartialEq)]
pub enum AskEnd {
    /// It was answered.
    Answered(String),
    /// No answer can come any more.
    Lost,
    /// The turn was stopped.
    Stopped,
}

/// What comes of a question of the model.
#[derive(Debug, PartialEq)]
pub struct AskSettlement {
    /// What the model is told.
    pub result: Result<String, String>,
    /// Whether the question is withdrawn: it waits no more, and the client is
    /// told that it was cancelled.
    pub withdrawn: bool,
}

/// Settles a question of the model. A question that was answered was taken off
/// the screen by the client itself.
pub fn settle_ask(end: AskEnd) -> (r: AskSettlement)
    ensures
        r.withdrawn == (end is Stopped),
        match end {
            AskEnd::Answered(text) => r.result == Ok::<String, String>(text),
            AskEnd::Lost => r.result matches Err(e) && e@ == "ask_user_question 未被应答"@,
            AskEnd::Stopped => r.result matches Err(e) && e@ == "ask_user_question 已被取消"@,
        },
{
    match end {
        AskEnd::Answered(text) => AskSettlement { result: Ok(text), withdrawn: false },
        AskEnd::Lost => AskSettlement {
            result: Err("ask_user_question 未被应答".to_owned()),
            withdrawn: false,
        },
        AskEnd::Stopped => AskSettlement {
            result: Err("ask_user_question 已被取消".to_owned()),
            withdrawn: true,
        },
    }
}

/// Questions are taken exactly where each has an id, a text, and a label for each answer
/// to choose.
pub proof fn law_good_questions_are_taken(all: Seq<JsonTree>)
    ensures
        questions_fault(all) is None <==> forall|i: int|
            0 <= i < all.len() ==> is_askable(#[trigger] all[i]),
    decreases all.len(),
{
    if all.len() > 0 {
        let rest = all.drop_first();
        law_good_questions_are_taken(rest);
        lemma_askable(all[0]);
        assert forall|i: int| 0 <= i < rest.len() implies #[trigger] rest[i] == all[i + 1] by {}
        if question_fault(all[0]) is None && questions_fault(rest) is Some {
            let k = choose|k: int| 0 <= k < rest.len() && !is_askable(#[trigger] rest[k]);
            assert(!is_askable(all[k + 1]));
        }
        if questions_fault(all) is None {
            assert forall|i: int| 0 <= i < all.len() implies is_askable(#[trigger] all[i]) by {
                if i > 0 {
                    assert(is_askable(rest[i - 1]));
                }
            }
        }
    }
}

/// Whether a question can be asked.
pub open spec fn is_askable(q: JsonTree) -> bool {
    &&& q.at("id"@) is Text && q.at("question"@) is Text
    &&& q.at("options"@) is Array ==> forall|k: int|
        0 <= k < q.at("options"@)->Array_0.len() ==> (#[trigger] q.at("options"@)->Array_0[k]).at(
            "label"@,
        ) is Text
}

proof fn lemma_askable(q: JsonTree)
    ensures
        question_fault(q) is None <==> is_askable(q),
{
    let all = items_at(q, "options"@);
    if q.at("options"@) is Array {
        assert(all == q.at("options"@)->Array_0);
        if options_fault(all) is Some {
            let i = choose|i: int| 0 <= i < all.len() && !((#[trigger] all[i]).at("label"@) is Text);
            assert(!(q.at("options"@)->Array_0[i].at("label"@) is Text));
        }
    }
}

/// A question that is asked is the one that was given: its id, its text and its header,
/// as many answers to choose as were given, each with its label, and whether more than
/// one may be chosen.
pub proof fn law_asked_question_is_as_given(t: JsonTree, q: Question)
    requires
        asks(t, q),
    ensures
        t.at("id"@) == JsonTree::Text(q.id@),
        t.at("question"@) == JsonTree::Text(q.question@),
        t.at("header"@) is Text ==> text_view(q.header) == Some(t.at("header"@)->Text_0),
        q.options is Some,
        t.at("options"@) is Array ==> q.options->0@.len() == t.at("options"@)->Array_0.len(),
        t.at("options"@) is Array ==> forall|i: int|
            0 <= i < q.options->0@.len() ==> t.at("options"@)->Array_0[i].at("label"@)
                == JsonTree::Text((#[trigger] q.options->0@[i]).label@) && text_view(
                q.options->0@[i].description,
            ) == t.at("options"@)->Array_0[i].at("description"@).as_text(),
        q.multi_select == Some(t.at("multi_select"@) == JsonTree::Bool(true)),
{
}

} // verus!
