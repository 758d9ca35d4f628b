//! Titles that a model makes for sessions.
use vstd::prelude::*;
use vstd::string::*;

use crate::json::{Json, JsonTree, ascending, render, trees, value_text};
use crate::strmap::StrMap;
use crate::text::joined;

verus! {

/// What the model is told about titles.
pub fn title_system_prompt() -> (r: &'static str)
    ensures
        r@
            == "Create a concise title for an AI coding-assistant session from the supplied human messages.\nReturn only the title on one line, **in plain text of natural language**, with no quotes, prefix, explanation, Markdown, XML, or terminal control codes. No code is allowed.\nUse the language of the messages.\nAim for about 5 words in non-CJK languages or 10 CJK characters."@,
{
    "Create a concise title for an AI coding-assistant session from the supplied human messages.\nReturn only the title on one line, **in plain text of natural language**, with no quotes, prefix, explanation, Markdown, XML, or terminal control codes. No code is allowed.\nUse the language of the messages.\nAim for about 5 words in non-CJK languages or 10 CJK characters."
}

/// The messages of the user that a title is made from.
pub open spec fn title_array(first: Seq<char>) -> JsonTree {
    JsonTree::Array(seq![JsonTree::object().with("text"@, JsonTree::Text(first))])
}

/// What the model is asked.
pub open spec fn title_request(first: Seq<char>) -> JsonTree {
    let framed = "Generate the session title from this JSON array of human messages:\n"@
        + value_text(title_array(first));
    JsonTree::Array(
        seq![
            JsonTree::object().with("role"@, JsonTree::Text("user"@)).with(
                "content"@,
                JsonTree::Array(
                    seq![
                        JsonTree::object().with("type"@, JsonTree::Text("text"@)).with(
                            "text"@,
                            JsonTree::Text(framed),
                        ),
                    ],
                ),
            ),
        ],
    )
}

fn one(j: Json) -> (r: Json)
    ensures
        r@ == JsonTree::Array(seq![j@]),
{
    let mut v: Vec<Json> = Vec::new();
    v.push(j);
    assert(trees(v@) =~= seq![j@]);
    Json::array(v)
}

/// What the model is asked, given the text of the messages.
pub fn frame_title_text(array: &str) -> (r: Json)
    ensures
        r@ == JsonTree::Array(
            seq![
                JsonTree::object().with("role"@, JsonTree::Text("user"@)).with(
                    "content"@,
                    JsonTree::Array(
                        seq![
                            JsonTree::object().with("type"@, JsonTree::Text("text"@)).with(
                                "text"@,
                                JsonTree::Text(
                                    "Generate the session title from this JSON array of human messages:\n"@
                                        + array@,
                                ),
                            ),
                        ],
                    ),
                ),
            ],
        ),
{
    let framed = joined(
        "Generate the session title from this JSON array of human messages:\n",
        array,
    );
    let block = Json::object().with("type", Json::text("text")).with("text", Json::Text(framed));
    one(Json::object().with("role", Json::text("user")).with("content", one(block)))
}

/// What the model is asked for the title of a session that begins with a text.
pub fn frame_title_messages(first_text: &str) -> (r: Json)
    ensures
        r@ == title_request(first_text@),
{
    let item = Json::object().with("text", Json::text(first_text));
    let doc = one(item);
    proof {
        let entries = item@->Object_0;
        assert(entries =~= seq![("text"@, JsonTree::Text(first_text@))]);
        assert(ascending(entries));
        assert(entries[0].1.canonical());
        assert forall|i: int| 0 <= i < entries.len() implies (#[trigger] entries[i]).1.canonical() by {}
        assert(item@.canonical());
        assert(doc@->Array_0[0] == item@);
        assert(doc@.canonical());
    }
    let array = render(&doc);
    frame_title_text(array.as_str())
}

/// What a model says, bit by bit.
#[derive(Debug, PartialEq)]
pub enum StreamPart {
    /// Some more text.
    Chunk(String),
    /// Anything else, such as the message as a whole, which repeats the text.
    Other,
}

/// What a model has said: its pieces of text behind one another.
pub open spec fn said_text(parts: Seq<StreamPart>) -> Seq<char>
    decreases parts.len(),
{
    if parts.len() == 0 {
        Seq::empty()
    } else {
        said_text(parts.drop_last()) + (match parts.last() {
            StreamPart::Chunk(s) => s@,
            StreamPart::Other => Seq::empty(),
        })
    }
}

/// Puts together what a model has said.
pub fn stream_text(parts: &Vec<StreamPart>) -> (r: String)
    ensures
        r@ == said_text(parts@),
{
    let mut out = String::new();
    let mut i: usize = 0;
    assert(parts@.take(0) =~= Seq::empty());
    while i < parts.len()
        invariant
            i <= parts.len(),
            out@ == said_text(parts@.take(i as int)),
        decreases parts.len() - i,
    {
        let ghost before = out@;
        proof {
            assert(parts@.take(i + 1).drop_last() =~= parts@.take(i as int));
            assert(parts@.take(i + 1).last() == parts@[i as int]);
        }
        match &parts[i] {
            StreamPart::Chunk(s) => {
                out.append(s.as_str());
            },
            StreamPart::Other => {
                assert(before + Seq::<char>::empty() =~= before);
            },
        }
        i = i + 1;
    }
    assert(parts@.take(parts@.len() as int) =~= parts@);
    out
}

/// Whether a name can be taken up, and what is taken then.
pub open spec fn claimed(taken: Map<Seq<char>, bool>, id: Seq<char>) -> (
    bool,
    Map<Seq<char>, bool>,
) {
    if taken.dom().contains(id) {
        (false, taken)
    } else {
        (true, taken.insert(id, true))
    }
}

/// Takes a name up, unless it is taken.
pub fn claim_once(taken: &mut StrMap<bool>, id: &str) -> (r: bool)
    requires
        old(taken).wf(),
    ensures
        final(taken).wf(),
        (r, final(taken)@) == claimed(old(taken)@, id@),
{
    if taken.contains(id) {
        return false;
    }
    taken.insert(id.to_owned(), true);
    true
}

/// Lets a name go.
pub fn release(taken: &mut StrMap<bool>, id: &str)
    requires
        old(taken).wf(),
    ensures
        final(taken).wf(),
        final(taken)@ == old(taken)@.remove(id@),
{
    let gone = taken.remove(id);
}

/// A name can be taken up again once it was let go, and not before.
pub proof fn law_claimed_once(taken: Map<Seq<char>, bool>, id: Seq<char>)
    ensures
        !claimed(claimed(taken, id).1, id).0,
        claimed(claimed(taken, id).1.remove(id), id).0,
{
}

/// How a title is come by.
#[derive(Debug, PartialEq)]
pub enum TitleStep {
    /// There is nothing to do.
    Skip,
    /// The title is this one.
    Apply(String),
    /// The model is asked, with this key.
    Ask(String),
    /// It cannot be come by.
    Fail(String),
}

/// How the title of a session is come by: a session that has one needs none; a
/// host without providers takes the one that it was given; any other asks the
/// model, for which it needs a key.
pub fn title_step(titled: bool, fake: bool, given: &str, key: Option<&str>) -> (r: TitleStep)
    ensures
        match r {
            TitleStep::Skip => titled || (fake && given@.len() == 0),
            TitleStep::Apply(t) => !titled && fake && given@.len() > 0 && t@ == given@,
            TitleStep::Ask(k) => !titled && !fake && crate::interact::str_view(key) == Some(k@),
            TitleStep::Fail(e) => !titled && !fake && key is None && e@ == "provider 凭据缺席"@,
        },
{
    if titled {
        return TitleStep::Skip;
    }
    if fake {
        if given.is_empty() {
            return TitleStep::Skip;
        }
        return TitleStep::Apply(given.to_owned());
    }
    match key {
        Some(k) => TitleStep::Ask(k.to_owned()),
        None => TitleStep::Fail("provider 凭据缺席".to_owned()),
    }
}

/// What comes of what the model made, which may be nothing.
pub fn made_title(title: &str) -> (r: TitleStep)
    ensures
        match r {
            TitleStep::Apply(t) => title@.len() > 0 && t@ == title@,
            TitleStep::Fail(e) => title@.len() == 0 && e@ == "title 模型未产出文本"@,
            _ => false,
        },
{
    if title.is_empty() {
        TitleStep::Fail("title 模型未产出文本".to_owned())
    } else {
        TitleStep::Apply(title.to_owned())
    }
}

/// What a model has said is what it said first and then what it said later; a piece of
/// text says itself, and nothing else says anything.
pub proof fn law_said_text_follows(a: Seq<StreamPart>, b: Seq<StreamPart>, part: StreamPart)
    ensures
        said_text(a + b) == said_text(a) + said_text(b),
        part matches StreamPart::Chunk(s) ==> said_text(seq![part]) == s@,
        part is Other ==> said_text(seq![part]).len() == 0,
    decreases b.len(),
{
    reveal_with_fuel(said_text, 2);
    assert(seq![part].drop_last() =~= Seq::empty());
    match part {
        StreamPart::Chunk(s) => {
            assert(Seq::<char>::empty() + s@ =~= s@);
        },
        StreamPart::Other => {},
    }
    if b.len() == 0 {
        assert(a + b =~= a);
        assert(said_text(a) + said_text(b) =~= said_text(a));
    } else {
        law_said_text_follows(a, b.drop_last(), part);
        assert((a + b).drop_last() =~= a + b.drop_last());
        assert((a + b).last() == b.last());
        let last = match b.last() {
            StreamPart::Chunk(s) => s@,
            StreamPart::Other => Seq::empty(),
        };
        assert(said_text(a) + (said_text(b.drop_last()) + last) =~= said_text(a) + said_text(
            b.drop_last(),
        ) + last);
    }
}

/// Taking a name up succeeds exactly where it is not taken, and touches no other.
pub proof fn law_claim_takes_only_the_name(
    taken: Map<Seq<char>, bool>,
    id: Seq<char>,
    other: Seq<char>,
)
    ensures
        claimed(taken, id).0 <==> !taken.dom().contains(id),
        claimed(taken, id).1.dom().contains(id),
        other != id ==> claimed(taken, id).1.dom().contains(other) == taken.dom().contains(other),
{
}

/// The model is asked for a title with one message of the user, whose text hands it the
/// first message as JSON.
pub proof fn law_title_is_asked_for(first: Seq<char>)
    ensures
        ({
            let all = title_request(first);
            let message = all->Array_0[0];
            let block = message->Object_0[1].1->Array_0[0];
            &&& all is Array && all->Array_0.len() == 1
            &&& message->Object_0[0] == ("role"@, JsonTree::Text("user"@))
            &&& message->Object_0[1].0 == "content"@ && message->Object_0[1].1->Array_0.len() == 1
            &&& block->Object_0[0] == ("type"@, JsonTree::Text("text"@))
            &&& block->Object_0[1].0 == "text"@
            &&& exists|lead: Seq<char>|
                block->Object_0[1].1 == JsonTree::Text(
                    #[trigger] (lead + value_text(
                        JsonTree::Array(
                            seq![JsonTree::Object(seq![("text"@, JsonTree::Text(first))])],
                        ),
                    )),
                )
        }),
{
    let lead = "Generate the session title from this JSON array of human messages:\n"@;
    assert(Seq::<(Seq<char>, JsonTree)>::empty().push(("text"@, JsonTree::Text(first))) =~= seq![
        ("text"@, JsonTree::Text(first)),
    ]);
    let block = title_request(first)->Array_0[0]->Object_0[1].1->Array_0[0];
    assert(block->Object_0[1].1 == JsonTree::Text(
        lead + value_text(
            JsonTree::Array(seq![JsonTree::Object(seq![("text"@, JsonTree::Text(first))])]),
        ),
    ));
}

} // verus!
