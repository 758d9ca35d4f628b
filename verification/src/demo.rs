//! What a host without providers answers with.
use vstd::prelude::*;
use vstd::string::*;

use crate::json::{Json, JsonTree, Num};

verus! {

/// A part of an answer.
#[derive(Debug, PartialEq)]
pub enum AnswerPart {
    /// Some more text.
    Chunk(String),
    /// The whole message.
    Message(Json),
    /// What it took.
    Usage(Json),
    /// The end.
    Done,
}

/// The model of a part of an answer.
pub enum PartView {
    Chunk(Seq<char>),
    Message(JsonTree),
    Usage(JsonTree),
    Done,
}

impl View for AnswerPart {
    type V = PartView;

    open spec fn view(&self) -> PartView {
        match *self {
            AnswerPart::Chunk(s) => PartView::Chunk(s@),
            AnswerPart::Message(j) => PartView::Message(j@),
            AnswerPart::Usage(j) => PartView::Usage(j@),
            AnswerPart::Done => PartView::Done,
        }
    }
}

pub open spec fn part_views(v: Seq<AnswerPart>) -> Seq<PartView> {
    v.map_values(|p: AnswerPart| p@)
}

/// A message of a text.
pub open spec fn message_tree(content: Seq<char>) -> JsonTree {
    JsonTree::object().with("content"@, JsonTree::Text(content))
}

/// What a made-up answer is said to have taken.
pub open spec fn usage_tree() -> JsonTree {
    JsonTree::object().with("input_tokens"@, JsonTree::Number(Num::Unsigned(1200))).with(
        "output_tokens"@,
        JsonTree::Number(Num::Unsigned(300)),
    ).with("cached_tokens"@, JsonTree::Number(Num::Unsigned(900))).with(
        "ttftMs"@,
        JsonTree::Number(Num::Unsigned(150)),
    )
}

fn demo_usage() -> (r: Json)
    ensures
        r@ == usage_tree(),
{
    Json::object().with("input_tokens", Json::number(1200)).with(
        "output_tokens",
        Json::number(300),
    ).with("cached_tokens", Json::number(900)).with("ttftMs", Json::number(150))
}

/// The answer to most turns.
pub open spec fn echo_parts() -> Seq<PartView> {
    seq![
        PartView::Chunk("(fake echo) "@),
        PartView::Message(message_tree("(fake echo) 已收到;真实模式请去掉 --fake。"@)),
        PartView::Usage(usage_tree()),
        PartView::Done,
    ]
}

/// The answer to most turns.
pub fn echo_segment() -> (r: Vec<AnswerPart>)
    ensures
        part_views(r@) == echo_parts(),
{
    let mut v: Vec<AnswerPart> = Vec::new();
    v.push(AnswerPart::Chunk("(fake echo) ".to_owned()));
    v.push(
        AnswerPart::Message(
            Json::object().with(
                "content",
                Json::text("(fake echo) 已收到;真实模式请去掉 --fake。"),
            ),
        ),
    );
    v.push(AnswerPart::Usage(demo_usage()));
    v.push(AnswerPart::Done);
    assert(part_views(v@) =~= echo_parts());
    v
}

/// The pieces of the first answer: one diagram, one that cannot be drawn, and
/// one that is wide.
pub open spec fn diagram_chunks() -> Seq<Seq<char>> {
    seq![
        "这是 mermaid 渲染演示:中文窄图 / 失败回退 / 超宽横向滚动。"@,
        "\n\n```mermaid\nflowchart LR\n    A[阅读设计文档] --> B{方案可行?}\n    B -->|是| C1[多会话装配层]\n    B -->|否| C2[回退测试]\n    C1 & C2 --> D[WASM 组件]\n"@,
        "```\n"@,
        "\n```mermaid\nclassDiagram\n    class\n```\n"@,
        "\n```mermaid\nflowchart LR\n    N0[0] --> N1[1] --> N2[2] --> N3[3] --> N4[4] --> N5[5] --> N6[6] --> N7[7] --> N8[8] --> N9[9] --> N10[10] --> N11[11] --> N12[12] --> N13[13]\n```\n"@,
        "\n演示结束;真实模式请去掉 --fake。\n"@,
    ]
}

/// Texts behind one another.
pub open spec fn all_together(v: Seq<Seq<char>>) -> Seq<char>
    decreases v.len(),
{
    if v.len() == 0 {
        Seq::empty()
    } else {
        all_together(v.drop_last()) + v.last()
    }
}

/// The answer to the first turn: its message is its pieces behind one another.
pub open spec fn diagram_parts() -> Seq<PartView> {
    diagram_chunks().map_values(|c: Seq<char>| PartView::Chunk(c)) + seq![
        PartView::Message(message_tree(all_together(diagram_chunks()))),
        PartView::Usage(usage_tree()),
        PartView::Done,
    ]
}

fn write_diagram_chunks() -> (r: Vec<&'static str>)
    ensures
        r@.map_values(|s: &'static str| s@) == diagram_chunks(),
{
    let mut v: Vec<&'static str> = Vec::new();
    v.push("这是 mermaid 渲染演示:中文窄图 / 失败回退 / 超宽横向滚动。");
    v.push(
        "\n\n```mermaid\nflowchart LR\n    A[阅读设计文档] --> B{方案可行?}\n    B -->|是| C1[多会话装配层]\n    B -->|否| C2[回退测试]\n    C1 & C2 --> D[WASM 组件]\n",
    );
    v.push("```\n");
    v.push("\n```mermaid\nclassDiagram\n    class\n```\n");
    v.push(
        "\n```mermaid\nflowchart LR\n    N0[0] --> N1[1] --> N2[2] --> N3[3] --> N4[4] --> N5[5] --> N6[6] --> N7[7] --> N8[8] --> N9[9] --> N10[10] --> N11[11] --> N12[12] --> N13[13]\n```\n",
    );
    v.push("\n演示结束;真实模式请去掉 --fake。\n");
    assert(v@.map_values(|s: &'static str| s@) =~= diagram_chunks());
    v
}

/// The answer to the first turn.
pub fn mermaid_demo_segment() -> (r: Vec<AnswerPart>)
    ensures
        part_views(r@) == diagram_parts(),
{
    let chunks = write_diagram_chunks();
    let ghost all = diagram_chunks();
    let ghost said = all.map_values(|c: Seq<char>| PartView::Chunk(c));
    let mut full = String::new();
    let mut v: Vec<AnswerPart> = Vec::new();
    let mut i: usize = 0;
    assert(all.take(0) =~= Seq::empty());
    while i < chunks.len()
        invariant
            i <= chunks.len(),
            all == chunks@.map_values(|s: &'static str| s@),
            said == all.map_values(|c: Seq<char>| PartView::Chunk(c)),
            full@ == all_together(all.take(i as int)),
            part_views(v@) == said.take(i as int),
        decreases chunks.len() - i,
    {
        let part = AnswerPart::Chunk(chunks[i].to_owned());
        proof {
            assert(all[i as int] == chunks@[i as int]@);
            assert(all.take(i + 1).drop_last() =~= all.take(i as int));
            assert(part_views(v@.push(part)) =~= part_views(v@).push(part@));
            assert(said.take(i + 1) =~= said.take(i as int).push(said[i as int]));
        }
        full.append(chunks[i]);
        v.push(part);
        i = i + 1;
    }
    proof {
        assert(all.take(all.len() as int) =~= all);
        assert(said.take(said.len() as int) =~= said);
    }
    let ghost head = v@;
    v.push(AnswerPart::Message(Json::object().with("content", Json::text(full.as_str()))));
    v.push(AnswerPart::Usage(demo_usage()));
    v.push(AnswerPart::Done);
    assert(part_views(v@) =~= diagram_parts());
    v
}

/// The answers of a host without providers, turn by turn: the first shows
/// diagrams, the others are alike.
pub fn demo_fake_segments() -> (r: Vec<Vec<AnswerPart>>)
    ensures
        r@.len() == 20,
        part_views(r@[0]@) == diagram_parts(),
        forall|i: int| 1 <= i < 20 ==> part_views((#[trigger] r@[i])@) == echo_parts(),
{
    let mut out: Vec<Vec<AnswerPart>> = Vec::new();
    out.push(mermaid_demo_segment());
    let mut i: usize = 1;
    while i < 20
        invariant
            1 <= i <= 20,
            out@.len() == i,
            part_views(out@[0]@) == diagram_parts(),
            forall|k: int| 1 <= k < i ==> part_views((#[trigger] out@[k])@) == echo_parts(),
        decreases 20 - i,
    {
        out.push(echo_segment());
        i = i + 1;
    }
    out
}

/// What a made-up answer says at its end is what its chunks said, one behind the other.
pub proof fn law_chunks_make_the_answer(a: Seq<Seq<char>>, b: Seq<Seq<char>>)
    ensures
        all_together(a + b) == all_together(a) + all_together(b),
        all_together(Seq::empty()) == Seq::<char>::empty(),
        a.len() == 1 ==> all_together(a) == a[0],
        diagram_parts().len() == diagram_chunks().len() + 3,
        diagram_parts()[diagram_chunks().len() as int] == PartView::Message(
            JsonTree::object().with("content"@, JsonTree::Text(all_together(diagram_chunks()))),
        ),
    decreases a.len() + b.len(),
{
    reveal_with_fuel(all_together, 2);
    if b.len() > 0 {
        law_chunks_make_the_answer(a, b.drop_last());
        assert((a + b).drop_last() =~= a + b.drop_last());
        assert((a + b).last() == b.last());
        assert(all_together(a) + (all_together(b.drop_last()) + b.last()) =~= all_together(a)
            + all_together(b.drop_last()) + b.last());
    } else {
        assert(a + b =~= a);
        assert(all_together(a) + all_together(b) =~= all_together(a));
    }
    if a.len() == 1 {
        assert(a.drop_last() =~= Seq::empty());
        assert(Seq::<char>::empty() + a[0] =~= a[0]);
    }
}

} // verus!
