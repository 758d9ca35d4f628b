//! The pump: what comes into a session's queue, and what the client is shown
//! of it.
use vstd::prelude::*;
use vstd::string::*;

use crate::events::EventView;
use crate::ids::{is_hyphenated_uuid, random_id};
use crate::json::{Json, JsonTree, copy_all, has_entry, trees};
use crate::proto::{ErrorView, RpcError, ServerRequest, error_view};
use crate::queue::{
    ItemView, PendingItem, PendingView, QueueAction, QueueState, QueueView, RecordView, SpliceItem,
    SpliceRecord, SteerInput, Target, accepted, apply_queue_action, can_steer, claimed_last,
    gives_back, inbox_after_all, law_action_comes_back, law_action_is_durable,
    lemma_restored_pending, lemma_steered_comes_back, lemma_turn_splices_come_back, one_item,
    one_record, parse_queue_action, parsed_action, pending_ids, pending_items, pending_views,
    queue_after, record_views, spliced, steer_views, writes,
};

verus! {

/// How a prompt is submitted.
#[derive(Debug, PartialEq, Eq, Clone, Copy, Structural)]
pub enum PromptMode {
    /// To start a turn of its own.
    Queue,
    /// To be fed to the running turn.
    Steer,
}

/// What comes into a session.
#[derive(Debug, PartialEq)]
pub enum Job {
    /// A prompt, with the references of what was stored with it.
    Prompt {
        id: String,
        text: String,
        images: Vec<Json>,
        files: Vec<Json>,
        mode: PromptMode,
        contexts: Vec<Json>,
    },
    /// An action on a queued item; it is answered.
    UpdateQueue { item_id: String, action: QueueAction },
    /// A notice of the host's own.
    Notice { id: String, text: String, source: Json },
    SetMode(String),
    SetPermission(String),
    SetApproval(String),
    Compact,
}

/// What the driver is told between turns.
#[derive(Debug, PartialEq)]
pub enum DriverCmd {
    SetMode(String),
    SetPermission(String),
    SetApproval(String),
    Compact,
}

/// The model of what the driver is told.
pub enum CmdView {
    SetMode(Seq<char>),
    SetPermission(Seq<char>),
    SetApproval(Seq<char>),
    Compact,
}

impl View for DriverCmd {
    type V = CmdView;

    open spec fn view(&self) -> CmdView {
        match self {
            DriverCmd::SetMode(s) => CmdView::SetMode(s@),
            DriverCmd::SetPermission(s) => CmdView::SetPermission(s@),
            DriverCmd::SetApproval(s) => CmdView::SetApproval(s@),
            DriverCmd::Compact => CmdView::Compact,
        }
    }
}

/// What a job leaves to be done.
#[derive(Debug)]
pub struct PumpEffect {
    /// The splices to be written to the log, in this order.
    pub records: Vec<SpliceRecord>,
    /// Whether the driver is to be woken.
    pub wake: bool,
    /// Whether the client is to be shown the queue.
    pub show_queue: bool,
    /// What the driver is to be told.
    pub command: Option<DriverCmd>,
    /// What the job is to be answered.
    pub reply: Option<Result<Json, RpcError>>,
}

/// The model of what comes of a job.
pub struct PumpView {
    pub queue: QueueView,
    pub records: Seq<RecordView>,
    pub wake: bool,
    pub show_queue: bool,
    pub command: Option<CmdView>,
    pub reply: Option<Result<JsonTree, ErrorView>>,
}

/// The model of an answer.
pub open spec fn reply_view(r: Option<Result<Json, RpcError>>) -> Option<
    Result<JsonTree, ErrorView>,
> {
    match r {
        Some(Ok(j)) => Some(Ok(j@)),
        Some(Err(e)) => Some(Err(e@)),
        None => None,
    }
}

impl PumpEffect {
    /// Whether the effect, with the queue after it, is what the model says.
    pub open spec fn is(self, queue: QueueView, v: PumpView) -> bool {
        &&& queue == v.queue
        &&& record_views(self.records@) == v.records
        &&& self.wake == v.wake
        &&& self.show_queue == v.show_queue
        &&& (match self.command {
            Some(c) => v.command == Some(c@),
            None => v.command is None,
        })
        &&& reply_view(self.reply) == v.reply
    }
}

/// A splice that puts one item behind the others.
pub open spec fn pushed(target: Target, at: nat, item: ItemView) -> Seq<RecordView> {
    seq![RecordView { target, start: at, removed: 0, inserted: seq![item] }]
}

/// An item that comes to wait for a turn.
pub open spec fn queued(q: QueueView, item: ItemView, contexts: Seq<JsonTree>) -> QueueView {
    QueueView { pending: q.pending.push(PendingView { item, contexts }), ..q }
}

/// An item that comes to wait for the running turn.
pub open spec fn steered(q: QueueView, item: ItemView) -> QueueView {
    QueueView { steer: q.steer.push(item), ..q }
}

/// What comes of a job that only passes something on to the driver.
pub open spec fn told(q: QueueView, command: CmdView) -> PumpView {
    PumpView {
        queue: q,
        records: Seq::empty(),
        wake: false,
        show_queue: false,
        command: Some(command),
        reply: None,
    }
}

/// What comes of a job. A prompt is shown in the queue only while a turn runs:
/// otherwise it is taken up at once.
pub open spec fn pumped(q: QueueView, job: Job) -> PumpView {
    match job {
        Job::Prompt { id, text, images, files, mode, contexts } => {
            let item = ItemView {
                id: id@,
                text: text@,
                images: trees(images@),
                files: trees(files@),
                source: None,
            };
            PumpView {
                queue: match mode {
                    PromptMode::Queue => queued(q, item, trees(contexts@)),
                    PromptMode::Steer => steered(q, item),
                },
                records: match mode {
                    PromptMode::Queue => pushed(Target::NextTurn, q.pending.len(), item),
                    PromptMode::Steer => pushed(Target::NextStep, q.steer.len(), item),
                },
                wake: true,
                show_queue: q.running,
                command: None,
                reply: None,
            }
        },
        Job::UpdateQueue { item_id, action } => match queue_after(q, item_id@, action@) {
            Ok((after, records)) => PumpView {
                queue: after,
                records,
                wake: action is Steer,
                show_queue: true,
                command: None,
                reply: Some(Ok(accepted())),
            },
            Err(e) => PumpView {
                queue: q,
                records: Seq::empty(),
                wake: false,
                show_queue: true,
                command: None,
                reply: Some(Err(e)),
            },
        },
        Job::Notice { id, text, source } => {
            let item = ItemView {
                id: id@,
                text: text@,
                images: Seq::empty(),
                files: Seq::empty(),
                source: Some(source@),
            };
            PumpView {
                queue: steered(q, item),
                records: pushed(Target::NextStep, q.steer.len(), item),
                wake: true,
                show_queue: true,
                command: None,
                reply: None,
            }
        },
        Job::SetMode(s) => told(q, CmdView::SetMode(s@)),
        Job::SetPermission(s) => told(q, CmdView::SetPermission(s@)),
        Job::SetApproval(s) => told(q, CmdView::SetApproval(s@)),
        Job::Compact => told(q, CmdView::Compact),
    }
}

/// Puts an item behind those that wait for a turn, and says so.
pub fn enqueue(q: &mut QueueState, item: PendingItem) -> (r: Vec<SpliceRecord>)
    ensures
        final(q)@ == queued(old(q)@, item@.item, item@.contexts),
        record_views(r@) == pushed(Target::NextTurn, old(q)@.pending.len(), item@.item),
{
    let ghost before = q@;
    let at: usize = q.pending.len();
    let copy = SpliceItem {
        id: item.id.clone(),
        text: item.text.clone(),
        images: copy_all(&item.images),
        files: copy_all(&item.files),
        source: None,
    };
    let records = one_record(
        SpliceRecord { target: Target::NextTurn, start: at, removed: 0, inserted: one_item(copy) },
    );
    q.pending.push(item);
    proof {
        assert(pending_views(q.pending@) =~= before.pending.push(item@));
        assert(item@ == (PendingView { item: item@.item, contexts: item@.contexts }));
    }
    records
}

/// Puts an item behind those that wait for the running turn, and says so.
fn steer(q: &mut QueueState, item: SteerInput) -> (r: Vec<SpliceRecord>)
    ensures
        final(q)@ == steered(old(q)@, item@),
        record_views(r@) == pushed(Target::NextStep, old(q)@.steer.len(), item@),
{
    let ghost before = q@;
    let at: usize = q.steer.len();
    let source: Option<Json> = match &item.source {
        Some(s) => Some(s.copy()),
        None => None,
    };
    let copy = SpliceItem {
        id: item.id.clone(),
        text: item.text.clone(),
        images: copy_all(&item.images),
        files: copy_all(&item.files),
        source,
    };
    let records = one_record(
        SpliceRecord { target: Target::NextStep, start: at, removed: 0, inserted: one_item(copy) },
    );
    q.steer.push(item);
    proof {
        assert(steer_views(q.steer@) =~= before.steer.push(item@));
    }
    records
}

fn tell(command: DriverCmd) -> (r: PumpEffect)
    ensures
        forall|q: QueueView| r.is(q, told(q, command@)),
{
    let records: Vec<SpliceRecord> = Vec::new();
    assert(record_views(records@) =~= Seq::empty());
    PumpEffect { records, wake: false, show_queue: false, command: Some(command), reply: None }
}

/// Takes one job in. A session that is closed takes none: the pump stops, and
/// the queue stays as it is.
pub fn pump_step(q: &mut QueueState, closed: bool, job: Job) -> (r: Option<PumpEffect>)
    ensures
        match r {
            None => closed && final(q)@ == old(q)@,
            Some(effect) => !closed && effect.is(final(q)@, pumped(old(q)@, job)),
        },
{
    if closed {
        return None;
    }
    let ghost before = q@;
    let effect = match job {
        Job::Prompt { id, text, images, files, mode, contexts } => {
            let was_running = q.running;
            let records = match mode {
                PromptMode::Queue => enqueue(q, PendingItem { id, text, images, files, contexts }),
                PromptMode::Steer => steer(q, SteerInput { id, text, images, files, source: None }),
            };
            PumpEffect { records, wake: true, show_queue: was_running, command: None, reply: None }
        },
        Job::UpdateQueue { item_id, action } => match apply_queue_action(
            q,
            item_id.as_str(),
            action,
        ) {
            Ok(change) => PumpEffect {
                records: change.records,
                wake: change.wake,
                show_queue: true,
                command: None,
                reply: Some(Ok(change.reply)),
            },
            Err(e) => {
                let records: Vec<SpliceRecord> = Vec::new();
                assert(record_views(records@) =~= Seq::empty());
                PumpEffect {
                    records,
                    wake: false,
                    show_queue: true,
                    command: None,
                    reply: Some(Err(e)),
                }
            },
        },
        Job::Notice { id, text, source } => {
            let images: Vec<Json> = Vec::new();
            let files: Vec<Json> = Vec::new();
            proof {
                assert(trees(images@) =~= Seq::empty());
                assert(trees(files@) =~= Seq::empty());
            }
            let records = steer(q, SteerInput { id, text, images, files, source: Some(source) });
            PumpEffect { records, wake: true, show_queue: true, command: None, reply: None }
        },
        Job::SetMode(s) => tell(DriverCmd::SetMode(s)),
        Job::SetPermission(s) => tell(DriverCmd::SetPermission(s)),
        Job::SetApproval(s) => tell(DriverCmd::SetApproval(s)),
        Job::Compact => tell(DriverCmd::Compact),
    };
    Some(effect)
}

/// Whatever comes in, what is written to the log says what became of the
/// queue: a log that folded into the queue before folds into the queue after.
pub proof fn law_pump_is_durable(q: QueueView, job: Job)
    requires
        forall|i: int| 0 <= i < q.pending.len() ==> (#[trigger] q.pending[i]).item.source is None,
    ensures
        inbox_after_all(q.inbox(), pumped(q, job).records) == pumped(q, job).queue.inbox(),
{
    reveal_with_fuel(inbox_after_all, 2);
    let after = pumped(q, job);
    match job {
        Job::Prompt { id, text, images, files, mode, contexts } => {
            let item = after.records[0].inserted[0];
            assert(after.records.drop_last() =~= Seq::empty());
            match mode {
                PromptMode::Queue => {
                    assert(spliced(pending_items(q.pending), q.pending.len(), 0, seq![item])
                        =~= pending_items(after.queue.pending));
                },
                PromptMode::Steer => {
                    assert(spliced(q.steer, q.steer.len(), 0, seq![item]) =~= after.queue.steer);
                },
            }
        },
        Job::UpdateQueue { item_id, action } => {
            if queue_after(q, item_id@, action@) is Ok {
                law_action_is_durable(q, item_id@, action@);
            }
        },
        Job::Notice { id, text, source } => {
            let item = after.records[0].inserted[0];
            assert(after.records.drop_last() =~= Seq::empty());
            assert(spliced(q.steer, q.steer.len(), 0, seq![item]) =~= after.queue.steer);
        },
        _ => {},
    }
}

/// The id of the item that a job feeds to the running turn.
pub open spec fn fed_id(job: Job) -> Option<Seq<char>> {
    match job {
        Job::Prompt { id, mode: PromptMode::Steer, .. } => Some(id@),
        Job::UpdateQueue { item_id, action: QueueAction::Steer } => Some(item_id@),
        Job::Notice { id, .. } => Some(id@),
        _ => None,
    }
}

/// Whatever comes in, with what is written replaying the log stays true: where the log
/// gave the queue back before, it gives the queue back as it is after. What is refused
/// writes nothing and leaves the queue as it is.
pub proof fn law_pump_comes_back(
    log: Seq<EventView>,
    more: Seq<EventView>,
    q: QueueView,
    job: Job,
)
    requires
        writes(more, pumped(q, job).records),
        forall|i: int| 0 <= i < q.pending.len() ==> (#[trigger] q.pending[i]).item.source is None,
        q.pending.len() <= u64::MAX,
        q.steer.len() <= u64::MAX,
        gives_back(log, q),
        fed_id(job) matches Some(id) ==> can_steer(log, id),
    ensures
        gives_back(log + more, pumped(q, job).queue),
        claimed_last(log) ==> claimed_last(log + more),
        pumped(q, job).reply matches Some(Err(e)) ==> more.len() == 0 && pumped(q, job).queue == q,
{
    let after = pumped(q, job);
    let recs = after.records;
    law_pump_is_durable(q, job);
    match job {
        Job::Prompt { id, text, images, files, mode, contexts } => match mode {
            PromptMode::Queue => {
                lemma_turn_splices_come_back(log, more, recs, q, after.queue);
            },
            PromptMode::Steer => {
                let item = recs[0].inserted[0];
                assert(log + more =~= log.push(more[0]));
                lemma_steered_comes_back(log, more[0], q.steer, item);
                lemma_restored_pending(log);
                lemma_restored_pending(log + more);
            },
        },
        Job::UpdateQueue { item_id, action } => {
            if queue_after(q, item_id@, action@) is Ok {
                law_action_comes_back(log, more, q, item_id@, action@);
            } else {
                assert(log + more =~= log);
            }
        },
        Job::Notice { id, text, source } => {
            let item = recs[0].inserted[0];
            assert(log + more =~= log.push(more[0]));
            lemma_steered_comes_back(log, more[0], q.steer, item);
            lemma_restored_pending(log);
            lemma_restored_pending(log + more);
        },
        _ => {
            assert(log + more =~= log);
        },
    }
}

/// Pending items come from the user, whatever comes in.
pub proof fn law_pending_items_have_no_source(q: QueueView, job: Job)
    requires
        forall|i: int| 0 <= i < q.pending.len() ==> (#[trigger] q.pending[i]).item.source is None,
    ensures
        forall|i: int|
            0 <= i < pumped(q, job).queue.pending.len() ==> (#[trigger] pumped(
                q,
                job,
            ).queue.pending[i]).item.source is None,
{
    let after = pumped(q, job).queue.pending;
    match job {
        Job::UpdateQueue { item_id, action } => {
            crate::text::lemma_position(pending_ids(q.pending), item_id@);
        },
        _ => {},
    }
}

/// The job that a request to change a queued item makes; a session that is not
/// assembled has no queue.
pub fn update_queue(assembled: bool, item_id: &str, action: &Json) -> (r: Result<Job, RpcError>)
    ensures
        match parsed_action(action@) {
            Err(e) => r is Err && r->Err_0@ == e,
            Ok(a) => if assembled {
                r matches Ok(Job::UpdateQueue { item_id: id, action: done }) && id@ == item_id@
                    && done@ == a
            } else {
                r is Err && r->Err_0@ == error_view(
                    "queue-item-not-found"@,
                    "queued item is no longer pending"@,
                )
            },
        },
{
    match parse_queue_action(action) {
        Err(e) => Err(e),
        Ok(a) => if assembled {
            Ok(Job::UpdateQueue { item_id: item_id.to_owned(), action: a })
        } else {
            Err(RpcError::plain("queue-item-not-found", "queued item is no longer pending"))
        },
    }
}

// What the client is shown.

/// A block of text.
pub open spec fn text_block(text: Seq<char>) -> JsonTree {
    JsonTree::object().with("type"@, JsonTree::Text("text"@)).with("text"@, JsonTree::Text(text))
}

/// A block that stands for something stored.
pub open spec fn stored_block(kind: Seq<char>, reference: JsonTree) -> JsonTree {
    JsonTree::object().with("type"@, JsonTree::Text(kind)).with("attachment"@, reference)
}

/// The blocks of a run of references.
pub open spec fn stored_blocks(kind: Seq<char>, references: Seq<JsonTree>) -> Seq<JsonTree> {
    references.map_values(|r: JsonTree| stored_block(kind, r))
}

/// The blocks of an item: what is stored, and the text behind it. An item with
/// nothing stored has a text block even where its text is empty.
pub open spec fn content_blocks(
    text: Seq<char>,
    images: Seq<JsonTree>,
    files: Seq<JsonTree>,
) -> Seq<JsonTree> {
    if images.len() + files.len() > 0 && text.len() == 0 {
        stored_blocks("image"@, images) + stored_blocks("file"@, files)
    } else {
        stored_blocks("image"@, images) + stored_blocks("file"@, files) + seq![text_block(text)]
    }
}

/// An item as the client sees it.
pub open spec fn shown_item(item: ItemView, placement: Seq<char>) -> JsonTree {
    JsonTree::object().with("id"@, JsonTree::Text(item.id)).with(
        "placement"@,
        JsonTree::Text(placement),
    ).with(
        "message"@,
        JsonTree::object().with("id"@, JsonTree::Text(item.id)).with(
            "role"@,
            JsonTree::Text("user"@),
        ).with(
            "content"@,
            JsonTree::Array(content_blocks(item.text, item.images, item.files)),
        ).with("source"@, JsonTree::object().with("kind"@, JsonTree::Text("user"@))),
    )
}

/// A notice that a subagent has come to its end; the queue does not show it.
pub open spec fn is_settled_notice(item: ItemView) -> bool {
    item.source matches Some(s) && s.at("kind"@).as_text() == Some("subagent-settled"@)
}

/// The items for the running turn that are shown.
pub open spec fn shown_steer(steer: Seq<ItemView>) -> Seq<JsonTree>
    decreases steer.len(),
{
    if steer.len() == 0 {
        Seq::empty()
    } else if is_settled_notice(steer.last()) {
        shown_steer(steer.drop_last())
    } else {
        shown_steer(steer.drop_last()).push(shown_item(steer.last(), "steering"@))
    }
}

/// The queue as the client sees it.
pub open spec fn shown_queue(q: QueueView) -> Seq<JsonTree> {
    q.pending.map_values(|p: PendingView| shown_item(p.item, "queued"@)) + shown_steer(q.steer)
}

fn push_stored(out: &mut Vec<Json>, kind: &str, references: &Vec<Json>)
    ensures
        trees(final(out)@) == trees(old(out)@) + stored_blocks(kind@, trees(references@)),
{
    let ghost before = trees(out@);
    let ghost wanted = stored_blocks(kind@, trees(references@));
    let mut i: usize = 0;
    assert(before + wanted.take(0) =~= before);
    while i < references.len()
        invariant
            i <= references.len(),
            wanted == stored_blocks(kind@, trees(references@)),
            trees(out@) == before + wanted.take(i as int),
        decreases references.len() - i,
    {
        let block = Json::object().with("type", Json::text(kind)).with(
            "attachment",
            references[i].copy(),
        );
        proof {
            assert(wanted[i as int] == block@);
            assert(trees(out@.push(block)) =~= trees(out@).push(block@));
            assert(before + wanted.take(i + 1) =~= (before + wanted.take(i as int)).push(block@));
        }
        out.push(block);
        i = i + 1;
    }
    assert(wanted.take(wanted.len() as int) =~= wanted);
}

/// The content of a message: what is stored, and the text behind it.
pub fn message_content(text: &str, images: &Vec<Json>, files: &Vec<Json>) -> (r: Json)
    ensures
        r@ == JsonTree::Array(content_blocks(text@, trees(images@), trees(files@))),
{
    let mut out: Vec<Json> = Vec::new();
    push_stored(&mut out, "image", images);
    push_stored(&mut out, "file", files);
    proof {
        assert(Seq::<JsonTree>::empty() + stored_blocks("image"@, trees(images@)) =~= stored_blocks(
            "image"@,
            trees(images@),
        ));
        assert(trees(Seq::<Json>::empty()) =~= Seq::<JsonTree>::empty());
    }
    let nothing_stored = images.len() == 0 && files.len() == 0;
    if nothing_stored || !text.is_empty() {
        let ghost before = out@;
        let block = Json::object().with("type", Json::text("text")).with("text", Json::text(text));
        out.push(block);
        proof {
            assert(trees(out@) =~= trees(before) + seq![block@]);
        }
    }
    Json::array(out)
}

fn show_item(id: &str, text: &str, images: &Vec<Json>, files: &Vec<Json>, placement: &str) -> (r:
    Json)
    ensures
        forall|item: ItemView|
            item.id == id@ && item.text == text@ && item.images == trees(images@) && item.files
                == trees(files@) ==> r@ == #[trigger] shown_item(item, placement@),
{
    Json::object().with("id", Json::text(id)).with("placement", Json::text(placement)).with(
        "message",
        Json::object().with("id", Json::text(id)).with("role", Json::text("user")).with(
            "content",
            message_content(text, images, files),
        ).with("source", Json::object().with("kind", Json::text("user"))),
    )
}

/// The queue as the client sees it.
pub fn queue_items(q: &QueueState) -> (r: Vec<Json>)
    ensures
        trees(r@) == shown_queue(q@),
{
    let ghost first = q@.pending.map_values(|p: PendingView| shown_item(p.item, "queued"@));
    let mut out: Vec<Json> = Vec::new();
    let mut i: usize = 0;
    assert(trees(out@) =~= first.take(0));
    while i < q.pending.len()
        invariant
            i <= q.pending.len(),
            first == q@.pending.map_values(|p: PendingView| shown_item(p.item, "queued"@)),
            trees(out@) == first.take(i as int),
        decreases q.pending.len() - i,
    {
        let p = &q.pending[i];
        let shown = show_item(p.id.as_str(), p.text.as_str(), &p.images, &p.files, "queued");
        proof {
            assert(q@.pending[i as int] == p@);
            assert(shown@ == shown_item(p@.item, "queued"@));
            assert(trees(out@.push(shown)) =~= trees(out@).push(shown@));
            assert(first.take(i + 1) =~= first.take(i as int).push(shown@));
        }
        out.push(shown);
        i = i + 1;
    }
    proof {
        assert(first.take(first.len() as int) =~= first);
        assert(first + shown_steer(q@.steer.take(0)) =~= first) by {
            assert(q@.steer.take(0) =~= Seq::empty());
        }
    }
    let mut k: usize = 0;
    while k < q.steer.len()
        invariant
            k <= q.steer.len(),
            trees(out@) == first + shown_steer(q@.steer.take(k as int)),
        decreases q.steer.len() - k,
    {
        let s = &q.steer[k];
        proof {
            assert(q@.steer[k as int] == s@);
            assert(q@.steer.take(k + 1).drop_last() =~= q@.steer.take(k as int));
            assert(q@.steer.take(k + 1).last() == s@);
        }
        let hidden = match &s.source {
            Some(source) => crate::json::says(source, "kind", "subagent-settled"),
            None => false,
        };
        if !hidden {
            let shown = show_item(s.id.as_str(), s.text.as_str(), &s.images, &s.files, "steering");
            proof {
                assert(shown@ == shown_item(s@, "steering"@));
                assert(trees(out@.push(shown)) =~= trees(out@).push(shown@));
                assert((first + shown_steer(q@.steer.take(k as int))).push(shown@) =~= first
                    + shown_steer(q@.steer.take(k as int)).push(shown@));
            }
            out.push(shown);
        }
        k = k + 1;
    }
    assert(q@.steer.take(q@.steer.len() as int) =~= q@.steer);
    out
}

/// A frame to be pushed, under a fresh token.
pub fn frame(method: &str, payload: Json) -> (r: ServerRequest)
    ensures
        r.ty@ == "server-request"@,
        r.method@ == method@,
        r.payload == payload,
        is_hyphenated_uuid(r.rpc_id@),
{
    ServerRequest {
        ty: "server-request".to_owned(),
        rpc_id: random_id(),
        method: method.to_owned(),
        payload,
    }
}

/// The frame that shows a client the queue.
pub fn queue_frame(session_id: &str, q: &QueueState) -> (r: ServerRequest)
    ensures
        r.ty@ == "server-request"@,
        r.method@ == "session/queue"@,
        r.payload@ == JsonTree::object().with("sessionId"@, JsonTree::Text(session_id@)).with(
            "items"@,
            JsonTree::Array(shown_queue(q@)),
        ),
        is_hyphenated_uuid(r.rpc_id@),
{
    frame(
        "session/queue",
        Json::object().with("sessionId", Json::text(session_id)).with(
            "items",
            Json::array(queue_items(q)),
        ),
    )
}

/// A message is shown with all that is in it: each image and each file as a block of its
/// own, in order, and its text behind them; only a message with something stored and no
/// text has no text block.
pub proof fn law_content_shows_all(text: Seq<char>, images: Seq<JsonTree>, files: Seq<JsonTree>)
    ensures
        ({
            let all = content_blocks(text, images, files);
            let n = images.len() as int;
            let m = files.len() as int;
            &&& all.len() == n + m + (if n + m > 0 && text.len() == 0 {
                0int
            } else {
                1
            })
            &&& forall|i: int|
                0 <= i < n ==> has_entry(#[trigger] all[i], "type"@, JsonTree::Text("image"@))
                    && has_entry(all[i], "attachment"@, images[i])
            &&& forall|i: int|
                n <= i < n + m ==> has_entry(#[trigger] all[i], "type"@, JsonTree::Text("file"@))
                    && has_entry(all[i], "attachment"@, files[i - n])
            &&& all.len() > n + m ==> has_entry(all[n + m], "type"@, JsonTree::Text("text"@))
                && has_entry(all[n + m], "text"@, JsonTree::Text(text))
        }),
{
    let all = content_blocks(text, images, files);
    let n = images.len() as int;
    let m = files.len() as int;
    assert forall|i: int| 0 <= i < n implies has_entry(
        #[trigger] all[i],
        "type"@,
        JsonTree::Text("image"@),
    ) && has_entry(all[i], "attachment"@, images[i]) by {
        lemma_stored_block("image"@, images[i]);
        assert(all[i] == stored_block("image"@, images[i]));
    }
    assert forall|i: int| n <= i < n + m implies has_entry(
        #[trigger] all[i],
        "type"@,
        JsonTree::Text("file"@),
    ) && has_entry(all[i], "attachment"@, files[i - n]) by {
        lemma_stored_block("file"@, files[i - n]);
        assert(all[i] == stored_block("file"@, files[i - n]));
    }
    let t = text_block(text)->Object_0;
    assert(t[0] == ("type"@, JsonTree::Text("text"@)));
    assert(t[1] == ("text"@, JsonTree::Text(text)));
    if all.len() > n + m {
        assert(all[n + m] == text_block(text));
    }
}

proof fn lemma_stored_block(kind: Seq<char>, r: JsonTree)
    ensures
        has_entry(stored_block(kind, r), "type"@, JsonTree::Text(kind)),
        has_entry(stored_block(kind, r), "attachment"@, r),
{
    let a = stored_block(kind, r)->Object_0;
    assert(a[0] == ("type"@, JsonTree::Text(kind)));
    assert(a[1] == ("attachment"@, r));
}

/// An item is shown under its id, with where it waits and its message.
pub proof fn law_item_is_shown(item: ItemView, placement: Seq<char>)
    ensures
        has_entry(shown_item(item, placement), "id"@, JsonTree::Text(item.id)),
        has_entry(shown_item(item, placement), "placement"@, JsonTree::Text(placement)),
        exists|m: JsonTree| #[trigger]
            has_entry(shown_item(item, placement), "message"@, m) && has_entry(
                m,
                "id"@,
                JsonTree::Text(item.id),
            ) && has_entry(m, "role"@, JsonTree::Text("user"@)) && has_entry(
                m,
                "content"@,
                JsonTree::Array(content_blocks(item.text, item.images, item.files)),
            ),
{
    let a = shown_item(item, placement)->Object_0;
    assert(a[0].0 == "id"@ && a[1].0 == "placement"@ && a[2].0 == "message"@);
    let m = a[2].1;
    let b = m->Object_0;
    assert(b[0].0 == "id"@ && b[1].0 == "role"@ && b[2].0 == "content"@);
    assert(has_entry(shown_item(item, placement), "message"@, m));
}

/// The items for the running turn that a client sees: all but the notices that work done
/// by another is settled.
pub open spec fn seen(steer: Seq<ItemView>) -> Seq<ItemView> {
    steer.filter(
        |i: ItemView|
            !(i.source is Some && i.source->0.at("kind"@) == JsonTree::Text("subagent-settled"@)),
    )
}

/// The queue is shown whole: what waits for a turn first, as queued, then what is meant for
/// the running turn, as steering, each in order; only notices of settled work are not
/// shown.
pub proof fn law_queue_is_shown_whole(q: QueueView)
    ensures
        shown_queue(q).len() == q.pending.len() + seen(q.steer).len(),
        forall|i: int|
            0 <= i < q.pending.len() ==> #[trigger] shown_queue(q)[i] == shown_item(
                q.pending[i].item,
                "queued"@,
            ),
        forall|i: int|
            0 <= i < seen(q.steer).len() ==> #[trigger] shown_queue(q)[q.pending.len() + i]
                == shown_item(seen(q.steer)[i], "steering"@),
{
    lemma_shown_steer(
        q.steer,
        |i: ItemView|
            !(i.source is Some && i.source->0.at("kind"@) == JsonTree::Text("subagent-settled"@)),
    );
}

proof fn lemma_shown_steer(steer: Seq<ItemView>, keep: spec_fn(ItemView) -> bool)
    requires
        forall|i: ItemView| #[trigger]
            keep(i) == !(i.source is Some && i.source->0.at("kind"@) == JsonTree::Text(
                "subagent-settled"@,
            )),
    ensures
        shown_steer(steer).len() == steer.filter(keep).len(),
        forall|i: int|
            0 <= i < shown_steer(steer).len() ==> #[trigger] shown_steer(steer)[i] == shown_item(
                steer.filter(keep)[i],
                "steering"@,
            ),
    decreases steer.len(),
{
    reveal(Seq::filter);
    if steer.len() > 0 {
        lemma_shown_steer(steer.drop_last(), keep);
        assert(keep(steer.last()) == !is_settled_notice(steer.last()));
    }
}

/// What a job does to the queue. A prompt comes last in the list that its mode names, with
/// all that is in it; a notice comes last of what is meant for the running turn, with where
/// it comes from. The driver is woken. Commands go to the driver and leave the queue alone.
pub proof fn law_jobs_do_as_they_say(
    q: QueueView,
    id: String,
    text: String,
    images: Vec<Json>,
    files: Vec<Json>,
    contexts: Vec<Json>,
    source: Json,
)
    ensures
        ({
            let after = pumped(
                q,
                Job::Prompt { id, text, images, files, mode: PromptMode::Queue, contexts },
            );
            &&& after.wake && after.show_queue == q.running && after.command is None
            &&& after.queue.steer == q.steer && after.queue.pending.drop_last() == q.pending
            &&& after.queue.pending.last().item.id == id@ && after.queue.pending.last().item.text
                == text@ && after.queue.pending.last().item.images == trees(images@)
                && after.queue.pending.last().item.files == trees(files@)
                && after.queue.pending.last().contexts == trees(contexts@)
        }),
        ({
            let after = pumped(
                q,
                Job::Prompt { id, text, images, files, mode: PromptMode::Steer, contexts },
            );
            &&& after.wake && after.show_queue == q.running
            &&& after.queue.pending == q.pending && after.queue.steer.drop_last() == q.steer
            &&& after.queue.steer.last().id == id@ && after.queue.steer.last().text == text@
                && after.queue.steer.last().images == trees(images@)
                && after.queue.steer.last().files == trees(files@)
        }),
        ({
            let after = pumped(q, Job::Notice { id, text, source });
            &&& after.wake && after.show_queue
            &&& after.queue.pending == q.pending && after.queue.steer.drop_last() == q.steer
            &&& after.queue.steer.last().id == id@ && after.queue.steer.last().text == text@
                && after.queue.steer.last().source == Some(source@)
        }),
        pumped(q, Job::SetMode(text)).command == Some(CmdView::SetMode(text@)),
        pumped(q, Job::SetPermission(text)).command == Some(CmdView::SetPermission(text@)),
        pumped(q, Job::SetApproval(text)).command == Some(CmdView::SetApproval(text@)),
        pumped(q, Job::Compact).command == Some(CmdView::Compact),
        pumped(q, Job::Compact).queue == q,
        pumped(q, Job::SetMode(text)).queue == q,
{
    let a = pumped(
        q,
        Job::Prompt { id, text, images, files, mode: PromptMode::Queue, contexts },
    ).queue;
    assert(a.pending.drop_last() =~= q.pending);
    let b = pumped(
        q,
        Job::Prompt { id, text, images, files, mode: PromptMode::Steer, contexts },
    ).queue;
    assert(b.steer.drop_last() =~= q.steer);
    let c = pumped(q, Job::Notice { id, text, source }).queue;
    assert(c.steer.drop_last() =~= q.steer);
}

} // verus!
