//! What becomes of a prompt, and what a command is answered with.
use vstd::prelude::*;
use vstd::string::*;

use crate::attachments::{Admitted, admitted, base64_encoded, read_content, to_base64};
use crate::commands::{
    PromptRoute, is_command_line, mode_from, parse_prompt_mode, prompt_fault,
    route_prompt,
};
use crate::ids::{is_hyphenated_uuid, timed_id};
use crate::json::{Json, JsonTree, Num, lemma_with, trees};
use crate::proto::{RpcError, reasoned_view};
use crate::pump::{Job, PromptMode};
use crate::text::{joined, trimmed};

verus! {

/// Reads a prompt: how it is to be submitted, and what its blocks hold. A mode
/// that is not known is refused before anything else.
pub fn open_prompt(content: &Vec<Json>, mode: &str) -> (r: Result<(PromptMode, Admitted), RpcError>)
    ensures
        match mode_from(mode@) {
            Err(e) => r is Err && r->Err_0@ == e,
            Ok(m) => match admitted(trees(content@)) {
                Err(e) => r is Err && r->Err_0@ == e,
                Ok(a) => r matches Ok((kind, held)) && kind == m && held@ == a,
            },
        },
{
    let kind = match parse_prompt_mode(mode) {
        Ok(m) => m,
        Err(e) => {
            return Err(e);
        },
    };
    match read_content(content) {
        Ok(a) => Ok((kind, a)),
        Err(e) => Err(e),
    }
}

/// The error for an image that could not be stored, or for a file.
pub fn upload_refused(image: bool, error: &str, reason: &str) -> (r: RpcError)
    ensures
        r@ == reasoned_view(
            "attachment-error"@,
            (if image {
                "图片附件被拒:"@
            } else {
                "文件附件被拒:"@
            }) + error@,
            reason@,
        ),
{
    let message = if image {
        joined("图片附件被拒:", error)
    } else {
        joined("文件附件被拒:", error)
    };
    RpcError::reasoned("attachment-error", message.as_str(), reason)
}

/// What a prompt comes to.
#[derive(Debug, PartialEq)]
pub enum PromptEnd {
    /// The line is carried out as a command.
    Command(String),
    /// The job goes to the session.
    Submit(Job),
}

/// Ends a prompt, once what came with it is stored under the references given.
pub fn finish_prompt(
    text: String,
    images: Vec<Json>,
    files: Vec<Json>,
    mode: PromptMode,
    contexts: Vec<Json>,
) -> (r: Result<PromptEnd, RpcError>)
    ensures
        match prompt_fault(text@, images@.len() > 0, files@.len() > 0) {
            Some(e) => r is Err && r->Err_0@ == e,
            None => if is_command_line(text@) {
                r matches Ok(PromptEnd::Command(line)) && line@ == trimmed(text@)
            } else {
                r is Ok && r->Ok_0 is Submit && submits(
                    r->Ok_0->Submit_0,
                    text,
                    images,
                    files,
                    mode,
                    contexts,
                )
            },
        },
{
    match route_prompt(text.as_str(), images.len() > 0, files.len() > 0) {
        Err(e) => Err(e),
        Ok(PromptRoute::Command(line)) => Ok(PromptEnd::Command(line)),
        Ok(PromptRoute::Submit) => Ok(
            PromptEnd::Submit(Job::Prompt { id: timed_id(), text, images, files, mode, contexts }),
        ),
    }
}

/// Whether a job submits a prompt, under an id of its own.
pub open spec fn submits(
    job: Job,
    text: String,
    images: Vec<Json>,
    files: Vec<Json>,
    mode: PromptMode,
    contexts: Vec<Json>,
) -> bool {
    match job {
        Job::Prompt { id, text: t, images: i, files: f, mode: m, contexts: c } => {
            &&& is_hyphenated_uuid(id@)
            &&& t == text
            &&& i == images
            &&& f == files
            &&& m == mode
            &&& c == contexts
        },
        _ => false,
    }
}

/// What was done for a command.
#[derive(Debug, PartialEq)]
pub enum CommandDone {
    /// The session has another mode.
    Mode { plan: bool },
    /// The session was packed up.
    Exported(Vec<u8>),
    /// The model of the session is this one.
    Model(String),
    /// The session has this model now.
    ModelSet(String),
    /// A goal was set, under this id.
    GoalSet(u64),
    /// The conversation is going to be compacted.
    Compacting,
    /// It was taken up.
    Accepted,
}

/// What a command is answered with.
pub open spec fn done_tree(done: CommandDone) -> JsonTree {
    match done {
        CommandDone::Mode { plan } => JsonTree::object().with("accepted"@, JsonTree::Bool(true)).with(
            "mode"@,
            JsonTree::Text(
                if plan {
                    "plan"@
                } else {
                    "standard"@
                },
            ),
        ),
        CommandDone::Exported(bytes) => JsonTree::object().with(
            "kind"@,
            JsonTree::Text("export"@),
        ).with("data"@, JsonTree::Text(base64_encoded(bytes@))),
        CommandDone::Model(m) => JsonTree::object().with("kind"@, JsonTree::Text("model"@)).with(
            "model"@,
            JsonTree::Text(m@),
        ),
        CommandDone::ModelSet(m) => JsonTree::object().with("accepted"@, JsonTree::Bool(true)).with(
            "model"@,
            JsonTree::Text(m@),
        ),
        CommandDone::GoalSet(id) => JsonTree::object().with(
            "id"@,
            JsonTree::Number(Num::Unsigned(id)),
        ),
        CommandDone::Compacting => JsonTree::object().with("accepted"@, JsonTree::Bool(true)).with(
            "kind"@,
            JsonTree::Text("compact"@),
        ),
        CommandDone::Accepted => JsonTree::object().with("accepted"@, JsonTree::Bool(true)),
    }
}

/// Answers a command.
pub fn command_reply(done: &CommandDone) -> (r: Json)
    requires
        done matches CommandDone::Exported(bytes) ==> bytes@.len() <= usize::MAX / 4,
    ensures
        r@ == done_tree(*done),
{
    match done {
        CommandDone::Mode { plan } => Json::object().with("accepted", Json::Bool(true)).with(
            "mode",
            Json::text(
                if *plan {
                    "plan"
                } else {
                    "standard"
                },
            ),
        ),
        CommandDone::Exported(bytes) => {
            let data = to_base64(bytes);
            Json::object().with("kind", Json::text("export")).with(
                "data",
                Json::text(data.as_str()),
            )
        },
        CommandDone::Model(m) => Json::object().with("kind", Json::text("model")).with(
            "model",
            Json::text(m.as_str()),
        ),
        CommandDone::ModelSet(m) => Json::object().with("accepted", Json::Bool(true)).with(
            "model",
            Json::text(m.as_str()),
        ),
        CommandDone::GoalSet(id) => Json::object().with("id", Json::number(*id)),
        CommandDone::Compacting => Json::object().with("accepted", Json::Bool(true)).with(
            "kind",
            Json::text("compact"),
        ),
        CommandDone::Accepted => Json::object().with("accepted", Json::Bool(true)),
    }
}

/// A prompt that is submitted is the job that its parts make: its text, what is stored
/// with it, how it is to be submitted, and its contexts.
pub proof fn law_submitted_prompt_is_whole(
    job: Job,
    text: String,
    images: Vec<Json>,
    files: Vec<Json>,
    mode: PromptMode,
    contexts: Vec<Json>,
)
    requires
        submits(job, text, images, files, mode, contexts),
    ensures
        job is Prompt,
        job->Prompt_text == text,
        job->Prompt_images == images,
        job->Prompt_files == files,
        job->Prompt_mode == mode,
        job->Prompt_contexts == contexts,
{
}

/// What a command is answered with says what it did.
pub proof fn law_command_replies(done: CommandDone)
    ensures
        done matches CommandDone::Mode { plan } ==> done_tree(done).at("accepted"@)
            == JsonTree::Bool(true) && done_tree(done).at("mode"@) == JsonTree::Text(
            if plan {
                "plan"@
            } else {
                "standard"@
            },
        ),
        done matches CommandDone::Exported(bytes) ==> done_tree(done).at("kind"@) == JsonTree::Text(
            "export"@,
        ) && done_tree(done).at("data"@) == JsonTree::Text(base64_encoded(bytes@)),
        done matches CommandDone::Model(m) ==> done_tree(done).at("kind"@) == JsonTree::Text(
            "model"@,
        ) && done_tree(done).at("model"@) == JsonTree::Text(m@),
        done matches CommandDone::ModelSet(m) ==> done_tree(done).at("accepted"@)
            == JsonTree::Bool(true) && done_tree(done).at("model"@) == JsonTree::Text(m@),
        done matches CommandDone::GoalSet(id) ==> done_tree(done).at("id"@).as_nat() == Some(id),
        done is Compacting ==> done_tree(done).at("accepted"@) == JsonTree::Bool(true) && done_tree(
            done,
        ).at("kind"@) == JsonTree::Text("compact"@),
        done is Accepted ==> done_tree(done).at("accepted"@) == JsonTree::Bool(true),
{
    reveal_strlit("accepted");
    reveal_strlit("mode");
    reveal_strlit("kind");
    reveal_strlit("data");
    reveal_strlit("model");
    reveal_strlit("id");
    assert("accepted"@.len() == 8 && "mode"@.len() == 4 && "kind"@.len() == 4 && "data"@.len() == 4
        && "model"@.len() == 5 && "id"@.len() == 2);
    assert("kind"@[0] == 'k' && "data"@[0] == 'd');
    let t0 = JsonTree::object();
    let yes = JsonTree::Bool(true);
    match done {
        CommandDone::Mode { plan } => {
            let m = JsonTree::Text(
                if plan {
                    "plan"@
                } else {
                    "standard"@
                },
            );
            lemma_two(t0, "accepted"@, yes, "mode"@, m);
        },
        CommandDone::Exported(bytes) => {
            lemma_two(
                t0,
                "kind"@,
                JsonTree::Text("export"@),
                "data"@,
                JsonTree::Text(base64_encoded(bytes@)),
            );
        },
        CommandDone::Model(m) => {
            lemma_two(t0, "kind"@, JsonTree::Text("model"@), "model"@, JsonTree::Text(m@));
        },
        CommandDone::ModelSet(m) => {
            lemma_two(t0, "accepted"@, yes, "model"@, JsonTree::Text(m@));
        },
        CommandDone::GoalSet(id) => {
            lemma_with(t0, "id"@, JsonTree::Number(Num::Unsigned(id)));
            assert(done_tree(done).get("id"@) == Some(JsonTree::Number(Num::Unsigned(id))));
        },
        CommandDone::Compacting => {
            lemma_two(t0, "accepted"@, yes, "kind"@, JsonTree::Text("compact"@));
        },
        CommandDone::Accepted => {
            lemma_with(t0, "accepted"@, yes);
            assert(done_tree(done).get("accepted"@) == Some(yes));
        },
    }
}

proof fn lemma_two(t0: JsonTree, a: Seq<char>, x: JsonTree, b: Seq<char>, y: JsonTree)
    requires
        t0 == JsonTree::object(),
        a != b,
    ensures
        t0.with(a, x).with(b, y).at(a) == x,
        t0.with(a, x).with(b, y).at(b) == y,
{
    lemma_with(t0, a, x);
    lemma_with(t0.with(a, x), b, y);
    assert(t0.with(a, x).with(b, y).get(a) == Some(x));
    assert(t0.with(a, x).with(b, y).get(b) == Some(y));
}

} // verus!
