//! The input queue of a session, and its durable form.
//!
//! A queue holds what is to start the next turn (`pending`) and what is to be
//! fed to the running one (`steer`). Every change is also written to the log as
//! a splice of one of the two lists, so that the queue can be folded back out of
//! the log after a restart.
use vstd::prelude::*;
use vstd::string::*;

use crate::events::{Event, EventLog, EventView, fresh_event};
use crate::json::{
    Json, JsonTree, Num, copy_all, copy_option, has_entry, items_at, items_of, json_option,
    lemma_with, lemma_with_some, nat_at, says, text_at, text_of, trees,
};
use crate::proto::{ErrorView, RpcError, error_view, reasoned_view};
use crate::text::{lemma_position, lemma_position_at, lemma_position_none, position, same};

verus! {

/// The model of an item as the log knows it.
pub struct ItemView {
    pub id: Seq<char>,
    pub text: Seq<char>,
    pub images: Seq<JsonTree>,
    pub files: Seq<JsonTree>,
    pub source: Option<JsonTree>,
}

/// The model of a pending item: what the log knows, and what it does not.
pub struct PendingView {
    pub item: ItemView,
    pub contexts: Seq<JsonTree>,
}

/// The model of a queue.
pub struct QueueView {
    pub pending: Seq<PendingView>,
    pub steer: Seq<ItemView>,
    pub running: bool,
}

/// An item that waits to start a turn.
#[derive(Debug, PartialEq)]
pub struct PendingItem {
    pub id: String,
    pub text: String,
    /// References to stored images; an item that has any is not edited.
    pub images: Vec<Json>,
    /// References to stored files.
    pub files: Vec<Json>,
    /// Context to be put in beside the item; it is not written to the log.
    pub contexts: Vec<Json>,
}

/// An item to be fed to the running turn.
#[derive(Debug, PartialEq)]
pub struct SteerInput {
    pub id: String,
    pub text: String,
    pub images: Vec<Json>,
    pub files: Vec<Json>,
    /// Where the item comes from; `None` where the user typed it.
    pub source: Option<Json>,
}

/// An item as a splice puts it in.
#[derive(Debug, PartialEq)]
pub struct SpliceItem {
    pub id: String,
    pub text: String,
    pub images: Vec<Json>,
    pub files: Vec<Json>,
    pub source: Option<Json>,
}

/// A queue.
#[derive(Debug, PartialEq)]
pub struct QueueState {
    pub pending: Vec<PendingItem>,
    pub steer: Vec<SteerInput>,
    /// Whether a turn is running.
    pub running: bool,
}

/// The list that a splice changes.
#[derive(Debug, PartialEq, Eq, Clone, Copy, Structural)]
pub enum Target {
    NextTurn,
    NextStep,
}

/// A splice: at `start`, `removed` items go and `inserted` ones come.
#[derive(Debug, PartialEq)]
pub struct SpliceRecord {
    pub target: Target,
    pub start: usize,
    pub removed: usize,
    pub inserted: Vec<SpliceItem>,
}

/// The model of a splice.
pub struct RecordView {
    pub target: Target,
    pub start: nat,
    pub removed: nat,
    pub inserted: Seq<ItemView>,
}

/// The two lists that a log folds into.
pub struct InboxView {
    pub next_turn: Seq<ItemView>,
    pub next_step: Seq<ItemView>,
}

/// What is asked of a queued item.
#[derive(Debug, PartialEq)]
pub enum QueueAction {
    /// Put another text in its place.
    Edit(String),
    /// Take it out.
    Remove,
    /// Take it out and feed it to the running turn.
    Steer,
}

/// The model of what is asked of a queued item.
pub enum ActionView {
    Edit(Seq<char>),
    Remove,
    Steer,
}

/// What a change of the queue leaves to be done.
#[derive(Debug, PartialEq)]
pub struct QueueChange {
    pub reply: Json,
    /// The splices to be written to the log, in this order.
    pub records: Vec<SpliceRecord>,
    /// Whether the driver is to be woken.
    pub wake: bool,
}

impl View for PendingItem {
    type V = PendingView;

    open spec fn view(&self) -> PendingView {
        PendingView {
            item: ItemView {
                id: self.id@,
                text: self.text@,
                images: trees(self.images@),
                files: trees(self.files@),
                source: None,
            },
            contexts: trees(self.contexts@),
        }
    }
}

impl View for SteerInput {
    type V = ItemView;

    open spec fn view(&self) -> ItemView {
        ItemView {
            id: self.id@,
            text: self.text@,
            images: trees(self.images@),
            files: trees(self.files@),
            source: json_option(self.source),
        }
    }
}

impl View for SpliceItem {
    type V = ItemView;

    open spec fn view(&self) -> ItemView {
        ItemView {
            id: self.id@,
            text: self.text@,
            images: trees(self.images@),
            files: trees(self.files@),
            source: json_option(self.source),
        }
    }
}

pub open spec fn pending_views(v: Seq<PendingItem>) -> Seq<PendingView> {
    v.map_values(|p: PendingItem| p@)
}

pub open spec fn steer_views(v: Seq<SteerInput>) -> Seq<ItemView> {
    v.map_values(|s: SteerInput| s@)
}

pub open spec fn splice_views(v: Seq<SpliceItem>) -> Seq<ItemView> {
    v.map_values(|s: SpliceItem| s@)
}

impl View for QueueState {
    type V = QueueView;

    open spec fn view(&self) -> QueueView {
        QueueView {
            pending: pending_views(self.pending@),
            steer: steer_views(self.steer@),
            running: self.running,
        }
    }
}

impl View for SpliceRecord {
    type V = RecordView;

    open spec fn view(&self) -> RecordView {
        RecordView {
            target: self.target,
            start: self.start as nat,
            removed: self.removed as nat,
            inserted: splice_views(self.inserted@),
        }
    }
}

pub open spec fn record_views(v: Seq<SpliceRecord>) -> Seq<RecordView> {
    v.map_values(|s: SpliceRecord| s@)
}

impl View for QueueAction {
    type V = ActionView;

    open spec fn view(&self) -> ActionView {
        match self {
            QueueAction::Edit(t) => ActionView::Edit(t@),
            QueueAction::Remove => ActionView::Remove,
            QueueAction::Steer => ActionView::Steer,
        }
    }
}

/// The ids of the pending items.
pub open spec fn pending_ids(pending: Seq<PendingView>) -> Seq<Seq<char>> {
    pending.map_values(|p: PendingView| p.item.id)
}

/// The items that the log knows of a queue's pending ones.
pub open spec fn pending_items(pending: Seq<PendingView>) -> Seq<ItemView> {
    pending.map_values(|p: PendingView| p.item)
}

impl QueueView {
    /// What the log is to fold into for this queue.
    pub open spec fn inbox(self) -> InboxView {
        InboxView { next_turn: pending_items(self.pending), next_step: self.steer }
    }
}

/// The smaller of two numbers.
pub open spec fn least(a: nat, b: nat) -> nat {
    if a <= b {
        a
    } else {
        b
    }
}

/// A list after a splice; what reaches beyond its end is cut off there.
pub open spec fn spliced(
    list: Seq<ItemView>,
    start: nat,
    removed: nat,
    inserted: Seq<ItemView>,
) -> Seq<ItemView> {
    let from = least(start, list.len());
    let to = least(from + removed, list.len());
    list.take(from as int) + inserted + list.skip(to as int)
}

/// The two lists after a splice.
pub open spec fn inbox_after(inbox: InboxView, rec: RecordView) -> InboxView {
    match rec.target {
        Target::NextTurn => InboxView {
            next_turn: spliced(inbox.next_turn, rec.start, rec.removed, rec.inserted),
            ..inbox
        },
        Target::NextStep => InboxView {
            next_step: spliced(inbox.next_step, rec.start, rec.removed, rec.inserted),
            ..inbox
        },
    }
}

/// The two lists after a run of splices.
pub open spec fn inbox_after_all(inbox: InboxView, recs: Seq<RecordView>) -> InboxView
    decreases recs.len(),
{
    if recs.len() == 0 {
        inbox
    } else {
        inbox_after(inbox_after_all(inbox, recs.drop_last()), recs.last())
    }
}

/// The answer that a change is accepted.
pub open spec fn accepted() -> JsonTree {
    JsonTree::object().with("accepted"@, JsonTree::Bool(true))
}

/// What comes of an action on a queued item: the queue after it with the
/// splices that say so, or the error, with the queue as it was.
pub open spec fn queue_after(q: QueueView, id: Seq<char>, action: ActionView) -> Result<
    (QueueView, Seq<RecordView>),
    ErrorView,
> {
    match position(pending_ids(q.pending), id) {
        None => Err(error_view("queue-item-not-found"@, "queued item is no longer pending"@)),
        Some(k) => {
            let hit = q.pending[k];
            match action {
                ActionView::Edit(text) => if hit.item.images.len() > 0 || hit.item.files.len() > 0 {
                    Err(
                        reasoned_view(
                            "attachment-error"@,
                            "queue edits accept text content only"@,
                            "QUEUE_EDIT_NON_TEXT"@,
                        ),
                    )
                } else {
                    let edited = PendingView { item: ItemView { text, ..hit.item }, ..hit };
                    Ok(
                        (
                            QueueView { pending: q.pending.update(k, edited), ..q },
                            seq![
                                RecordView {
                                    target: Target::NextTurn,
                                    start: k as nat,
                                    removed: 1,
                                    inserted: seq![
                                        ItemView {
                                            id,
                                            text,
                                            images: Seq::empty(),
                                            files: Seq::empty(),
                                            source: None,
                                        },
                                    ],
                                },
                            ],
                        ),
                    )
                },
                ActionView::Remove => Ok(
                    (
                        QueueView { pending: q.pending.remove(k), ..q },
                        seq![
                            RecordView {
                                target: Target::NextTurn,
                                start: k as nat,
                                removed: 1,
                                inserted: Seq::empty(),
                            },
                        ],
                    ),
                ),
                ActionView::Steer => if !q.running {
                    Err(
                        error_view(
                            "steer-unavailable"@,
                            "current turn no longer accepts steering"@,
                        ),
                    )
                } else {
                    Ok(
                        (
                            QueueView {
                                pending: q.pending.remove(k),
                                steer: q.steer.push(hit.item),
                                ..q
                            },
                            seq![
                                RecordView {
                                    target: Target::NextTurn,
                                    start: k as nat,
                                    removed: 1,
                                    inserted: Seq::empty(),
                                },
                                RecordView {
                                    target: Target::NextStep,
                                    start: q.steer.len(),
                                    removed: 0,
                                    inserted: seq![hit.item],
                                },
                            ],
                        ),
                    )
                },
            }
        },
    }
}

/// Where the item with an id waits.
fn find_pending(pending: &Vec<PendingItem>, id: &str) -> (r: Option<usize>)
    ensures
        match r {
            Some(k) => position(pending_ids(pending_views(pending@)), id@) == Some(k as int) && k
                < pending.len(),
            None => position(pending_ids(pending_views(pending@)), id@) is None,
        },
{
    let ghost ids = pending_ids(pending_views(pending@));
    let mut i: usize = 0;
    while i < pending.len()
        invariant
            i <= pending.len(),
            ids == pending_ids(pending_views(pending@)),
            forall|j: int| 0 <= j < i ==> ids[j] != id@,
        decreases pending.len() - i,
    {
        assert(ids[i as int] == pending@[i as int].id@);
        if same(pending[i].id.as_str(), id) {
            proof {
                lemma_position_at(ids, id@, i as int);
            }
            return Some(i);
        }
        i = i + 1;
    }
    proof {
        lemma_position_none(ids, id@);
    }
    None
}

fn accepted_reply() -> (r: Json)
    ensures
        r@ == accepted(),
{
    Json::object().with("accepted", Json::Bool(true))
}

pub(crate) fn no_items() -> (r: Vec<SpliceItem>)
    ensures
        splice_views(r@) == Seq::<ItemView>::empty(),
{
    let v: Vec<SpliceItem> = Vec::new();
    assert(splice_views(v@) =~= Seq::<ItemView>::empty());
    v
}

pub(crate) fn one_item(item: SpliceItem) -> (r: Vec<SpliceItem>)
    ensures
        splice_views(r@) == seq![item@],
{
    let mut v: Vec<SpliceItem> = Vec::new();
    v.push(item);
    assert(splice_views(v@) =~= seq![item@]);
    v
}

pub(crate) fn one_record(rec: SpliceRecord) -> (r: Vec<SpliceRecord>)
    ensures
        record_views(r@) == seq![rec@],
{
    let mut v: Vec<SpliceRecord> = Vec::new();
    v.push(rec);
    assert(record_views(v@) =~= seq![rec@]);
    v
}

/// Carries out an action on a queued item.
pub fn apply_queue_action(q: &mut QueueState, item_id: &str, action: QueueAction) -> (r: Result<
    QueueChange,
    RpcError,
>)
    ensures
        match queue_after(old(q)@, item_id@, action@) {
            Ok((after, recs)) => {
                &&& r is Ok
                &&& final(q)@ == after
                &&& record_views(r->Ok_0.records@) == recs
                &&& r->Ok_0.reply@ == accepted()
                &&& r->Ok_0.wake == (action is Steer)
            },
            Err(e) => r is Err && r->Err_0@ == e && final(q)@ == old(q)@,
        },
{
    let ghost start = q@;
    let k: usize = match find_pending(&q.pending, item_id) {
        Some(k) => k,
        None => {
            return Err(RpcError::plain("queue-item-not-found", "queued item is no longer pending"));
        },
    };
    match action {
        QueueAction::Edit(text) => {
            if q.pending[k].images.len() > 0 || q.pending[k].files.len() > 0 {
                return Err(
                    RpcError::reasoned(
                        "attachment-error",
                        "queue edits accept text content only",
                        "QUEUE_EDIT_NON_TEXT",
                    ),
                );
            }
            let old_item = q.pending.remove(k);
            let edited = PendingItem { text: text.clone(), ..old_item };
            q.pending.insert(k, edited);
            proof {
                let hit = start.pending[k as int];
                assert(pending_views(q.pending@) =~= start.pending.update(k as int, edited@));
                assert(edited@.item == (ItemView { text: text@, ..hit.item }));
            }
            let item = SpliceItem {
                id: item_id.to_owned(),
                text,
                images: Vec::new(),
                files: Vec::new(),
                source: None,
            };
            proof {
                assert(item@.images =~= Seq::empty());
                assert(item@.files =~= Seq::empty());
            }
            let records = one_record(
                SpliceRecord {
                    target: Target::NextTurn,
                    start: k,
                    removed: 1,
                    inserted: one_item(item),
                },
            );
            Ok(QueueChange { reply: accepted_reply(), records, wake: false })
        },
        QueueAction::Remove => {
            let gone = q.pending.remove(k);
            proof {
                assert(pending_views(q.pending@) =~= start.pending.remove(k as int));
            }
            let records = one_record(
                SpliceRecord {
                    target: Target::NextTurn,
                    start: k,
                    removed: 1,
                    inserted: no_items(),
                },
            );
            Ok(QueueChange { reply: accepted_reply(), records, wake: false })
        },
        QueueAction::Steer => {
            if !q.running {
                return Err(
                    RpcError::plain("steer-unavailable", "current turn no longer accepts steering"),
                );
            }
            let item = q.pending.remove(k);
            let ghost hit = start.pending[k as int];
            assert(item@ == hit);
            let at: usize = q.steer.len();
            q.steer.push(
                SteerInput {
                    id: item.id.clone(),
                    text: item.text.clone(),
                    images: copy_all(&item.images),
                    files: copy_all(&item.files),
                    source: None,
                },
            );
            proof {
                assert(pending_views(q.pending@) =~= start.pending.remove(k as int));
                assert(steer_views(q.steer@) =~= start.steer.push(hit.item));
            }
            let mut records = one_record(
                SpliceRecord {
                    target: Target::NextTurn,
                    start: k,
                    removed: 1,
                    inserted: no_items(),
                },
            );
            let ghost first = records@;
            let moved = SpliceItem {
                id: item.id,
                text: item.text,
                images: item.images,
                files: item.files,
                source: None,
            };
            let second = SpliceRecord {
                target: Target::NextStep,
                start: at,
                removed: 0,
                inserted: one_item(moved),
            };
            records.push(second);
            proof {
                assert(record_views(records@) =~= record_views(first).push(second@));
                assert(record_views(records@) =~= seq![record_views(first)[0], second@]);
            }
            Ok(QueueChange { reply: accepted_reply(), records, wake: true })
        },
    }
}

/// Whether a content block is text.
pub open spec fn is_text_block(block: JsonTree) -> bool {
    block.at("type"@).as_text() == Some("text"@)
}

/// The text of content blocks, one after another.
pub open spec fn joined_text(blocks: Seq<JsonTree>) -> Seq<char>
    decreases blocks.len(),
{
    if blocks.len() == 0 {
        Seq::empty()
    } else {
        joined_text(blocks.drop_last()) + text_at(blocks.last(), "text"@)
    }
}

/// What a request asks of a queued item.
pub open spec fn parsed_action(action: JsonTree) -> Result<ActionView, ErrorView> {
    let kind = action.at("kind"@).as_text();
    if kind == Some("edit"@) {
        let blocks = items_at(action, "content"@);
        if exists|i: int| 0 <= i < blocks.len() && !is_text_block(#[trigger] blocks[i]) {
            Err(
                reasoned_view(
                    "queue-edit-non-text"@,
                    "queue edits accept text content only"@,
                    "QUEUE_EDIT_NON_TEXT"@,
                ),
            )
        } else {
            Ok(ActionView::Edit(joined_text(blocks)))
        }
    } else if kind == Some("remove"@) {
        Ok(ActionView::Remove)
    } else if kind == Some("steer"@) {
        Ok(ActionView::Steer)
    } else {
        Err(error_view("bad-request"@, "action.kind 必须为 edit / remove / steer"@))
    }
}

/// Reads what a request asks of a queued item.
pub fn parse_queue_action(action: &Json) -> (r: Result<QueueAction, RpcError>)
    ensures
        match parsed_action(action@) {
            Ok(a) => r is Ok && r->Ok_0@ == a,
            Err(e) => r is Err && r->Err_0@ == e,
        },
{
    proof {
        reveal_strlit("edit");
        reveal_strlit("remove");
        reveal_strlit("steer");
        assert("edit"@[0] == 'e' && "remove"@[0] == 'r' && "steer"@[0] == 's');
    }
    if says(action, "kind", "edit") {
        let none: Vec<Json> = Vec::new();
        let blocks = items_of(action, "content", &none);
        let ghost all = trees(blocks@);
        let mut text = String::new();
        let mut i: usize = 0;
        assert(all.take(0) =~= Seq::empty());
        while i < blocks.len()
            invariant
                i <= blocks.len(),
                all == trees(blocks@),
                all == items_at(action@, "content"@),
                action@.at("kind"@).as_text() == Some("edit"@),
                text@ == joined_text(all.take(i as int)),
                forall|k: int| 0 <= k < i ==> is_text_block(#[trigger] all[k]),
            decreases blocks.len() - i,
        {
            let block = &blocks[i];
            assert(all[i as int] == block@);
            if !says(block, "type", "text") {
                return Err(
                    RpcError::reasoned(
                        "queue-edit-non-text",
                        "queue edits accept text content only",
                        "QUEUE_EDIT_NON_TEXT",
                    ),
                );
            }
            let part = text_of(block, "text");
            text.append(part.as_str());
            proof {
                assert(all.take(i + 1).drop_last() =~= all.take(i as int));
                assert(all.take(i + 1).last() == block@);
            }
            i = i + 1;
        }
        assert(all.take(all.len() as int) =~= all);
        return Ok(QueueAction::Edit(text));
    }
    if says(action, "kind", "remove") {
        return Ok(QueueAction::Remove);
    }
    if says(action, "kind", "steer") {
        return Ok(QueueAction::Steer);
    }
    Err(RpcError::bad_request("action.kind 必须为 edit / remove / steer"))
}

// The durable form.

/// A reference to something stored: an object that names it.
pub open spec fn is_reference(t: JsonTree) -> bool {
    t is Object && t.at("attachmentId"@) is Text
}

/// The references among some values.
pub open spec fn references(all: Seq<JsonTree>) -> Seq<JsonTree>
    decreases all.len(),
{
    if all.len() == 0 {
        Seq::empty()
    } else if is_reference(all.last()) {
        references(all.drop_last()).push(all.last())
    } else {
        references(all.drop_last())
    }
}

impl ItemView {
    /// Its references are references, and its source is an object.
    pub open spec fn sound(self) -> bool {
        &&& forall|i: int| 0 <= i < self.images.len() ==> is_reference(#[trigger] self.images[i])
        &&& forall|i: int| 0 <= i < self.files.len() ==> is_reference(#[trigger] self.files[i])
        &&& self.source matches Some(s) ==> s is Object
    }
}

/// The items of a run that is left out where it is empty.
pub open spec fn some_items(all: Seq<JsonTree>) -> Option<JsonTree> {
    if all.len() == 0 {
        None
    } else {
        Some(JsonTree::Array(all))
    }
}

/// How an item stands in the log.
pub open spec fn item_tree(item: ItemView) -> JsonTree {
    JsonTree::object().with("id"@, JsonTree::Text(item.id)).with(
        "content"@,
        JsonTree::Text(item.text),
    ).with_some("images"@, some_items(item.images)).with_some(
        "files"@,
        some_items(item.files),
    ).with_some("source"@, item.source)
}

/// The item that an entry of the log stands for; what it lacks is empty, and
/// what is no reference is passed over.
pub open spec fn item_from(m: JsonTree) -> ItemView {
    ItemView {
        id: text_at(m, "id"@),
        text: text_at(m, "content"@),
        images: references(items_at(m, "images"@)),
        files: references(items_at(m, "files"@)),
        source: match m.get("source"@) {
            Some(s) => if s is Object {
                Some(s)
            } else {
                None
            },
            None => None,
        },
    }
}

impl Target {
    /// The name of a list in the log.
    pub open spec fn name_view(self) -> Seq<char> {
        match self {
            Target::NextTurn => "next-turn"@,
            Target::NextStep => "next-step"@,
        }
    }

    /// The name of a list in the log.
    pub fn name(self) -> (r: &'static str)
        ensures
            r@ == self.name_view(),
    {
        match self {
            Target::NextTurn => "next-turn",
            Target::NextStep => "next-step",
        }
    }
}

/// How a splice stands in the log.
pub open spec fn record_tree(rec: RecordView) -> JsonTree {
    JsonTree::object().with("target"@, JsonTree::Text(rec.target.name_view())).with(
        "start"@,
        JsonTree::Number(Num::Unsigned(rec.start as u64)),
    ).with("removedCount"@, JsonTree::Number(Num::Unsigned(rec.removed as u64))).with(
        "inserted"@,
        JsonTree::Array(rec.inserted.map_values(|i: ItemView| item_tree(i))),
    )
}

/// The list that an entry of the log names.
pub open spec fn target_from(data: JsonTree) -> Option<Target> {
    let name = data.at("target"@).as_text();
    if name == Some("next-step"@) {
        Some(Target::NextStep)
    } else if name == Some("next-turn"@) {
        Some(Target::NextTurn)
    } else {
        None
    }
}

/// The splice that an entry of the log stands for.
pub open spec fn record_from(data: JsonTree) -> Option<RecordView> {
    match target_from(data) {
        Some(target) => Some(
            RecordView {
                target,
                start: nat_at(data, "start"@),
                removed: nat_at(data, "removedCount"@),
                inserted: items_at(data, "inserted"@).map_values(|m: JsonTree| item_from(m)),
            },
        ),
        None => None,
    }
}

/// The two lists after an event.
pub open spec fn inbox_step(inbox: InboxView, event: EventView) -> InboxView {
    if event.kind == "agent/inbox/spliced"@ {
        match record_from(event.data) {
            Some(rec) => inbox_after(inbox, rec),
            None => inbox,
        }
    } else {
        inbox
    }
}

/// The two lists that a log folds into.
pub open spec fn folded(log: Seq<EventView>) -> InboxView
    decreases log.len(),
{
    if log.len() == 0 {
        InboxView { next_turn: Seq::empty(), next_step: Seq::empty() }
    } else {
        inbox_step(folded(log.drop_last()), log.last())
    }
}

/// Whether a message with this id has come up in the log.
pub open spec fn claimed(log: Seq<EventView>, id: Seq<char>) -> bool {
    exists|i: int|
        0 <= i < log.len() && (#[trigger] log[i]).kind == "user/message"@ && log[i].data.at(
            "id"@,
        ).as_text() == Some(id)
}

/// The items whose message has not come up in the log.
pub open spec fn unclaimed(all: Seq<ItemView>, log: Seq<EventView>) -> Seq<ItemView>
    decreases all.len(),
{
    if all.len() == 0 {
        Seq::empty()
    } else if claimed(log, all.last().id) {
        unclaimed(all.drop_last(), log)
    } else {
        unclaimed(all.drop_last(), log).push(all.last())
    }
}

pub fn is_reference_json(j: &Json) -> (r: bool)
    ensures
        r == is_reference(j@),
{
    match j {
        Json::Object(_) => match j.str_at("attachmentId") {
            Some(_) => true,
            None => false,
        },
        _ => false,
    }
}

pub fn references_of(j: &Json, key: &str) -> (r: Vec<Json>)
    ensures
        trees(r@) == references(items_at(j@, key@)),
{
    let none: Vec<Json> = Vec::new();
    let items = items_of(j, key, &none);
    let ghost all = trees(items@);
    let mut out: Vec<Json> = Vec::new();
    let mut i: usize = 0;
    assert(trees(out@) =~= Seq::empty());
    while i < items.len()
        invariant
            i <= items.len(),
            all == trees(items@),
            trees(out@) == references(all.take(i as int)),
        decreases items.len() - i,
    {
        proof {
            assert(all.take(i + 1).drop_last() =~= all.take(i as int));
            assert(all.take(i + 1).last() == items@[i as int]@);
        }
        if is_reference_json(&items[i]) {
            let item = items[i].copy();
            assert(trees(out@.push(item)) =~= trees(out@).push(item@));
            out.push(item);
        }
        i = i + 1;
    }
    assert(all.take(all.len() as int) =~= all);
    out
}

/// Reads an item out of the log.
pub fn splice_item_from_event(m: &Json) -> (r: SpliceItem)
    ensures
        r@ == item_from(m@),
{
    let source: Option<Json> = match m.get("source") {
        Some(s) => match s {
            Json::Object(_) => Some(s.copy()),
            _ => None,
        },
        None => None,
    };
    SpliceItem {
        id: text_of(m, "id"),
        text: text_of(m, "content"),
        images: references_of(m, "images"),
        files: references_of(m, "files"),
        source,
    }
}

fn array_or_nothing(v: &Vec<Json>) -> (r: Option<Json>)
    ensures
        json_option(r) == some_items(trees(v@)),
{
    if v.len() == 0 {
        None
    } else {
        Some(Json::array(copy_all(v)))
    }
}

impl SpliceItem {
    /// How the item stands in the log.
    pub fn to_json(&self) -> (r: Json)
        ensures
            r@ == item_tree(self@),
    {
        Json::object().with("id", Json::text(self.id.as_str())).with(
            "content",
            Json::text(self.text.as_str()),
        ).with_some("images", array_or_nothing(&self.images)).with_some(
            "files",
            array_or_nothing(&self.files),
        ).with_some("source", copy_option(&self.source))
    }
}

impl SpliceRecord {
    /// How the splice stands in the log.
    pub fn payload(&self) -> (r: Json)
        ensures
            r@ == record_tree(self@),
    {
        let mut items: Vec<Json> = Vec::new();
        let mut i: usize = 0;
        let ghost wanted = splice_views(self.inserted@).map_values(|i: ItemView| item_tree(i));
        while i < self.inserted.len()
            invariant
                i <= self.inserted.len(),
                wanted == splice_views(self.inserted@).map_values(|i: ItemView| item_tree(i)),
                trees(items@) == wanted.take(i as int),
            decreases self.inserted.len() - i,
        {
            let item = self.inserted[i].to_json();
            proof {
                assert(trees(items@.push(item)) =~= trees(items@).push(item@));
                assert(wanted.take(i + 1) =~= wanted.take(i as int).push(wanted[i as int]));
            }
            items.push(item);
            i = i + 1;
        }
        assert(wanted.take(wanted.len() as int) =~= wanted);
        Json::object().with("target", Json::text(self.target.name())).with(
            "start",
            Json::number(self.start as u64),
        ).with("removedCount", Json::number(self.removed as u64)).with(
            "inserted",
            Json::array(items),
        )
    }

    /// The event that writes the splice to the log.
    pub fn event(&self, time: i64) -> (r: Event)
        ensures
            r@ == fresh_event("agent/inbox/spliced"@, time, record_tree(self@)),
    {
        Event::new("agent/inbox/spliced", time, self.payload())
    }
}

/// Splices a list.
fn splice_list(list: &mut Vec<SpliceItem>, start: u64, removed: u64, entries: &Vec<Json>)
    ensures
        splice_views(final(list)@) == spliced(
            splice_views(old(list)@),
            start as nat,
            removed as nat,
            trees(entries@).map_values(|m: JsonTree| item_from(m)),
        ),
{
    let ghost before = splice_views(list@);
    let ghost wanted = trees(entries@).map_values(|m: JsonTree| item_from(m));
    let n: usize = list.len();
    let from: usize = if start < n as u64 {
        start as usize
    } else {
        n
    };
    let count: usize = if removed < (n - from) as u64 {
        removed as usize
    } else {
        n - from
    };
    let mut gone: usize = 0;
    assert(before.take(from as int) + before.skip(from as int) =~= before);
    while gone < count
        invariant
            gone <= count <= n - from,
            from <= n,
            before.len() == n,
            list.len() == n - gone,
            splice_views(list@) == before.take(from as int) + before.skip((from + gone) as int),
        decreases count - gone,
    {
        let ghost now = list@;
        let item = list.remove(from);
        proof {
            assert(splice_views(list@) =~= splice_views(now).remove(from as int));
            assert(before.skip((from + gone) as int).drop_first() =~= before.skip(
                (from + gone + 1) as int,
            ));
            assert((before.take(from as int) + before.skip((from + gone) as int)).remove(
                from as int,
            ) =~= before.take(from as int) + before.skip((from + gone + 1) as int));
        }
        gone = gone + 1;
    }
    let ghost tail = before.skip((from + count) as int);
    let mut i: usize = 0;
    assert(before.take(from as int) + wanted.take(0) + tail =~= before.take(from as int) + tail);
    while i < entries.len()
        invariant
            i <= entries.len(),
            from <= n,
            count <= n - from,
            before.len() == n,
            list.len() == n - count + i,
            wanted == trees(entries@).map_values(|m: JsonTree| item_from(m)),
            tail == before.skip((from + count) as int),
            splice_views(list@) == before.take(from as int) + wanted.take(i as int) + tail,
        decreases entries.len() - i,
    {
        let ghost now = list@;
        let item = splice_item_from_event(&entries[i]);
        proof {
            assert(wanted[i as int] == item@);
        }
        list.insert(from + i, item);
        proof {
            let seen = before.take(from as int) + wanted.take(i as int) + tail;
            assert(splice_views(list@) =~= splice_views(now).insert((from + i) as int, item@));
            assert(wanted.take(i + 1) =~= wanted.take(i as int).push(item@));
            assert(seen.insert((from + i) as int, item@) =~= before.take(from as int)
                + wanted.take(i + 1) + tail);
        }
        i = i + 1;
    }
    assert(wanted.take(wanted.len() as int) =~= wanted);
}

/// Whether a message with this id has come up in the log.
fn is_claimed(log: &EventLog, id: &str) -> (r: bool)
    ensures
        r == claimed(log@, id@),
{
    let mut i: usize = 0;
    while i < log.events.len()
        invariant
            i <= log.events.len(),
            forall|k: int|
                0 <= k < i ==> !((#[trigger] log@[k]).kind == "user/message"@ && log@[k].data.at(
                    "id"@,
                ).as_text() == Some(id@)),
        decreases log.events.len() - i,
    {
        assert(log@[i as int] == log.events@[i as int]@);
        if same(log.events[i].kind.as_str(), "user/message") && says(&log.events[i].data, "id", id) {
            return true;
        }
        i = i + 1;
    }
    false
}

/// Folds a log into the two lists that it leaves.
fn fold_log(log: &EventLog) -> (r: (Vec<SpliceItem>, Vec<SpliceItem>))
    ensures
        splice_views(r.0@) == folded(log@).next_turn,
        splice_views(r.1@) == folded(log@).next_step,
{
    let mut next_turn: Vec<SpliceItem> = Vec::new();
    let mut next_step: Vec<SpliceItem> = Vec::new();
    let mut i: usize = 0;
    proof {
        assert(splice_views(next_turn@) =~= Seq::empty());
        assert(log@.take(0) =~= Seq::empty());
        reveal_strlit("next-step");
        reveal_strlit("next-turn");
        assert("next-step"@[5] == 's' && "next-turn"@[5] == 't');
    }
    while i < log.events.len()
        invariant
            i <= log.events.len(),
            "next-step"@ != "next-turn"@,
            splice_views(next_turn@) == folded(log@.take(i as int)).next_turn,
            splice_views(next_step@) == folded(log@.take(i as int)).next_step,
        decreases log.events.len() - i,
    {
        let ev = &log.events[i];
        proof {
            assert(log@.take(i + 1).drop_last() =~= log@.take(i as int));
            assert(log@.take(i + 1).last() == ev@);
        }
        if same(ev.kind.as_str(), "agent/inbox/spliced") {
            let start: u64 = match ev.data.u64_at("start") {
                Some(n) => n,
                None => 0,
            };
            let removed: u64 = match ev.data.u64_at("removedCount") {
                Some(n) => n,
                None => 0,
            };
            let none: Vec<Json> = Vec::new();
            let entries = items_of(&ev.data, "inserted", &none);
            if says(&ev.data, "target", "next-step") {
                splice_list(&mut next_step, start, removed, entries);
            } else if says(&ev.data, "target", "next-turn") {
                splice_list(&mut next_turn, start, removed, entries);
            }
        }
        i = i + 1;
    }
    assert(log@.take(log@.len() as int) =~= log@);
    (next_turn, next_step)
}

/// What a queue held, as far as its log says: the items that still wait for a turn,
/// and those meant for a running turn whose message has not come up.
pub open spec fn restored(log: Seq<EventView>) -> QueueView {
    QueueView {
        pending: folded(log).next_turn.map_values(
            |i: ItemView| PendingView { item: ItemView { source: None, ..i }, contexts: Seq::empty() },
        ),
        steer: unclaimed(folded(log).next_step, log),
        running: false,
    }
}

/// Rebuilds what a queue held from its log: the items that still wait for a
/// turn, and those meant for a running turn whose message has not come up.
pub fn replay_inbox(log: &EventLog) -> (r: (Vec<PendingItem>, Vec<SteerInput>))
    ensures
        pending_views(r.0@) == restored(log@).pending,
        steer_views(r.1@) == restored(log@).steer,
{
    let (mut next_turn, mut next_step) = fold_log(log);
    let ghost turn = folded(log@).next_turn;
    let ghost step = folded(log@).next_step;
    let ghost wanted = turn.map_values(
        |i: ItemView| PendingView { item: ItemView { source: None, ..i }, contexts: Seq::empty() },
    );
    let mut pending: Vec<PendingItem> = Vec::new();
    while next_turn.len() > 0
        invariant
            pending.len() + next_turn.len() == turn.len(),
            splice_views(next_turn@) == turn.skip(pending.len() as int),
            wanted == turn.map_values(
                |i: ItemView|
                    PendingView { item: ItemView { source: None, ..i }, contexts: Seq::empty() },
            ),
            pending_views(pending@) =~= wanted.take(pending.len() as int),
        decreases next_turn.len(),
    {
        let ghost k = pending.len() as int;
        let ghost now = next_turn@;
        let item = next_turn.remove(0);
        proof {
            assert(splice_views(now)[0] == item@);
            assert(turn.skip(k)[0] == turn[k]);
            assert(splice_views(next_turn@) =~= turn.skip(k).drop_first());
            assert(turn.skip(k).drop_first() =~= turn.skip(k + 1));
        }
        let p = PendingItem {
            id: item.id,
            text: item.text,
            images: item.images,
            files: item.files,
            contexts: Vec::new(),
        };
        proof {
            assert(trees(p.contexts@) =~= Seq::empty());
            assert(wanted[k] == p@);
        }
        pending.push(p);
    }
    let mut steer: Vec<SteerInput> = Vec::new();
    let mut taken: usize = 0;
    let n: usize = next_step.len();
    proof {
        assert(step.take(0) =~= Seq::empty());
        assert(steer_views(steer@) =~= Seq::empty());
    }
    while taken < n
        invariant
            taken <= n,
            step.len() == n,
            next_step.len() == n - taken,
            splice_views(next_step@) == step.skip(taken as int),
            steer_views(steer@) == unclaimed(step.take(taken as int), log@),
        decreases n - taken,
    {
        let ghost now = next_step@;
        let item = next_step.remove(0);
        proof {
            assert(splice_views(now)[0] == item@);
            assert(step.skip(taken as int)[0] == step[taken as int]);
            assert(splice_views(next_step@) =~= step.skip(taken as int).drop_first());
            assert(step.skip(taken as int).drop_first() =~= step.skip(taken + 1));
            assert(step.take(taken + 1).drop_last() =~= step.take(taken as int));
            assert(step.take(taken + 1).last() == item@);
        }
        if !is_claimed(log, item.id.as_str()) {
            let ghost seen = steer@;
            let s = SteerInput {
                id: item.id,
                text: item.text,
                images: item.images,
                files: item.files,
                source: item.source,
            };
            steer.push(s);
            assert(steer_views(steer@) =~= steer_views(seen).push(s@));
        }
        taken = taken + 1;
    }
    proof {
        assert(step.take(n as int) =~= step);
        assert(pending_views(pending@) =~= wanted);
    }
    (pending, steer)
}

proof fn lemma_references_all(all: Seq<JsonTree>)
    requires
        forall|i: int| 0 <= i < all.len() ==> is_reference(#[trigger] all[i]),
    ensures
        references(all) == all,
    decreases all.len(),
{
    if all.len() > 0 {
        assert(is_reference(all[all.len() - 1]));
        lemma_references_all(all.drop_last());
        assert(all.drop_last().push(all.last()) =~= all);
    } else {
        assert(references(all) =~= all);
    }
}

/// An item that is written to the log is read back as it was.
pub proof fn law_item_round_trip(item: ItemView)
    requires
        item.sound(),
    ensures
        item_from(item_tree(item)) == item,
{
    reveal_strlit("id");
    reveal_strlit("content");
    reveal_strlit("images");
    reveal_strlit("files");
    reveal_strlit("source");
    assert("id"@.len() == 2 && "content"@.len() == 7 && "images"@.len() == 6 && "files"@.len() == 5
        && "source"@.len() == 6 && "images"@[0] == 'i' && "source"@[0] == 's');
    let t0 = JsonTree::object();
    let t1 = t0.with("id"@, JsonTree::Text(item.id));
    let t2 = t1.with("content"@, JsonTree::Text(item.text));
    let t3 = t2.with_some("images"@, some_items(item.images));
    let t4 = t3.with_some("files"@, some_items(item.files));
    let t5 = t4.with_some("source"@, item.source);
    lemma_with(t0, "id"@, JsonTree::Text(item.id));
    lemma_with(t1, "content"@, JsonTree::Text(item.text));
    lemma_with_some(t2, "images"@, some_items(item.images));
    lemma_with_some(t3, "files"@, some_items(item.files));
    lemma_with_some(t4, "source"@, item.source);
    lemma_references_all(item.images);
    lemma_references_all(item.files);
    assert(t5 == item_tree(item));
    assert(t5.get("id"@) == Some(JsonTree::Text(item.id)));
    assert(t5.get("content"@) == Some(JsonTree::Text(item.text)));
    assert(t5.get("images"@) == some_items(item.images));
    assert(t5.get("files"@) == some_items(item.files));
    assert(t5.get("source"@) == item.source);
    assert(item_from(t5).images =~= item.images);
    assert(item_from(t5).files =~= item.files);
}

impl RecordView {
    /// Its items are sound, and its numbers are such as a log can hold.
    pub open spec fn sound(self) -> bool {
        &&& self.start <= u64::MAX
        &&& self.removed <= u64::MAX
        &&& forall|i: int| 0 <= i < self.inserted.len() ==> (#[trigger] self.inserted[i]).sound()
    }
}

/// A splice that is written to the log is read back as it was.
pub proof fn law_record_round_trip(rec: RecordView)
    requires
        rec.sound(),
    ensures
        record_from(record_tree(rec)) == Some(rec),
{
    reveal_strlit("target");
    reveal_strlit("start");
    reveal_strlit("removedCount");
    reveal_strlit("inserted");
    reveal_strlit("next-step");
    reveal_strlit("next-turn");
    assert("next-step"@[5] == 's' && "next-turn"@[5] == 't');
    assert("target"@.len() == 6 && "start"@.len() == 5 && "removedCount"@.len() == 12
        && "inserted"@.len() == 8);
    let entries = rec.inserted.map_values(|i: ItemView| item_tree(i));
    let v1 = JsonTree::Text(rec.target.name_view());
    let v2 = JsonTree::Number(Num::Unsigned(rec.start as u64));
    let v3 = JsonTree::Number(Num::Unsigned(rec.removed as u64));
    let v4 = JsonTree::Array(entries);
    let t0 = JsonTree::object();
    let t1 = t0.with("target"@, v1);
    let t2 = t1.with("start"@, v2);
    let t3 = t2.with("removedCount"@, v3);
    let t4 = t3.with("inserted"@, v4);
    lemma_with(t0, "target"@, v1);
    lemma_with(t1, "start"@, v2);
    lemma_with(t2, "removedCount"@, v3);
    lemma_with(t3, "inserted"@, v4);
    assert(t4 == record_tree(rec));
    assert(t4.get("target"@) == Some(v1));
    assert(t4.get("start"@) == Some(v2));
    assert(t4.get("removedCount"@) == Some(v3));
    assert(t4.get("inserted"@) == Some(v4));
    let back = entries.map_values(|m: JsonTree| item_from(m));
    assert forall|i: int| 0 <= i < back.len() implies back[i] == rec.inserted[i] by {
        law_item_round_trip(rec.inserted[i]);
    }
    assert(back =~= rec.inserted);
}

/// The events that write splices to a log, at given times and numbers.
pub open spec fn writes(log: Seq<EventView>, recs: Seq<RecordView>) -> bool {
    &&& log.len() == recs.len()
    &&& forall|i: int|
        0 <= i < log.len() ==> (#[trigger] log[i]).kind == "agent/inbox/spliced"@ && log[i].data
            == record_tree(recs[i])
}

/// Folding a log with splices written behind it is carrying the splices out on
/// what the log folds into.
pub proof fn law_fold_written(log: Seq<EventView>, more: Seq<EventView>, recs: Seq<RecordView>)
    requires
        writes(more, recs),
        forall|i: int| 0 <= i < recs.len() ==> (#[trigger] recs[i]).sound(),
    ensures
        folded(log + more) == inbox_after_all(folded(log), recs),
    decreases more.len(),
{
    if more.len() == 0 {
        assert(log + more =~= log);
    } else {
        law_fold_written(log, more.drop_last(), recs.drop_last());
        assert((log + more).drop_last() =~= log + more.drop_last());
        assert((log + more).last() == more.last());
        assert(more[more.len() - 1].data == record_tree(recs[recs.len() - 1]));
        assert(recs[recs.len() - 1].sound());
        law_record_round_trip(recs.last());
    }
}

/// What an action on a queued item writes to the log says what the action did:
/// a log that folded into the queue before folds into the queue after.
pub proof fn law_action_is_durable(q: QueueView, id: Seq<char>, action: ActionView)
    requires
        queue_after(q, id, action) is Ok,
        forall|i: int| 0 <= i < q.pending.len() ==> (#[trigger] q.pending[i]).item.source is None,
    ensures
        inbox_after_all(q.inbox(), queue_after(q, id, action)->Ok_0.1) == queue_after(
            q,
            id,
            action,
        )->Ok_0.0.inbox(),
{
    reveal_with_fuel(inbox_after_all, 3);
    let ids = pending_ids(q.pending);
    lemma_position(ids, id);
    let k = position(ids, id)->0;
    let hit = q.pending[k];
    assert(ids[k] == hit.item.id);
    let (after, recs) = queue_after(q, id, action)->Ok_0;
    let turn = pending_items(q.pending);
    match action {
        ActionView::Edit(text) => {
            let item = ItemView {
                id,
                text,
                images: Seq::empty(),
                files: Seq::empty(),
                source: None,
            };
            assert(hit.item.images =~= Seq::empty());
            assert(hit.item.files =~= Seq::empty());
            assert(recs.drop_last() =~= Seq::empty());
            assert(spliced(turn, k as nat, 1, seq![item]) =~= pending_items(after.pending));
        },
        ActionView::Remove => {
            assert(recs.drop_last() =~= Seq::empty());
            assert(spliced(turn, k as nat, 1, Seq::empty()) =~= pending_items(after.pending));
        },
        ActionView::Steer => {
            assert(recs.drop_last().drop_last() =~= Seq::empty());
            assert(recs.drop_last().last() == recs[0]);
            assert(spliced(turn, k as nat, 1, Seq::empty()) =~= pending_items(after.pending));
            assert(spliced(q.steer, q.steer.len(), 0, seq![hit.item]) =~= after.steer);
        },
    }
}

/// The id and the text of an item.
pub open spec fn gist(item: ItemView) -> (Seq<char>, Seq<char>) {
    (item.id, item.text)
}

/// The ids and the texts of items.
pub open spec fn gists(all: Seq<ItemView>) -> Seq<(Seq<char>, Seq<char>)> {
    all.map_values(|i: ItemView| gist(i))
}

/// Whether a log gives a queue back: replaying it gives the same ids and texts, in the
/// same order, in both lists.
pub open spec fn gives_back(log: Seq<EventView>, q: QueueView) -> bool {
    &&& gists(pending_items(restored(log).pending)) == gists(pending_items(q.pending))
    &&& gists(restored(log).steer) == gists(q.steer)
}

/// Whether the items for a running turn whose message has come up stand behind all
/// the others. Where one stands before an item that still waits, an item that is put
/// behind the waiting ones lands, by its place in the log, among them.
pub open spec fn claimed_last(log: Seq<EventView>) -> bool {
    let all = folded(log).next_step;
    forall|i: int, j: int|
        0 <= i < j < all.len() && claimed(log, (#[trigger] all[i]).id) ==> claimed(
            log,
            (#[trigger] all[j]).id,
        )
}

/// The id and the text of an item are read back, whatever else it has.
proof fn lemma_gist_round_trip(item: ItemView)
    ensures
        gist(item_from(item_tree(item))) == gist(item),
{
    reveal_strlit("id");
    reveal_strlit("content");
    reveal_strlit("images");
    reveal_strlit("files");
    reveal_strlit("source");
    assert("id"@.len() == 2 && "content"@.len() == 7 && "images"@.len() == 6 && "files"@.len() == 5
        && "source"@.len() == 6);
    let t0 = JsonTree::object();
    let t1 = t0.with("id"@, JsonTree::Text(item.id));
    let t2 = t1.with("content"@, JsonTree::Text(item.text));
    let t3 = t2.with_some("images"@, some_items(item.images));
    let t4 = t3.with_some("files"@, some_items(item.files));
    let t5 = t4.with_some("source"@, item.source);
    lemma_with(t0, "id"@, JsonTree::Text(item.id));
    lemma_with(t1, "content"@, JsonTree::Text(item.text));
    lemma_with_some(t2, "images"@, some_items(item.images));
    lemma_with_some(t3, "files"@, some_items(item.files));
    lemma_with_some(t4, "source"@, item.source);
    assert(t5 == item_tree(item));
    assert(t5.get("id"@) == Some(JsonTree::Text(item.id)));
    assert(t5.get("content"@) == Some(JsonTree::Text(item.text)));
}

/// A splice is read back with the ids and the texts of its items.
proof fn lemma_record_gists(rec: RecordView)
    requires
        rec.start <= u64::MAX,
        rec.removed <= u64::MAX,
    ensures
        record_from(record_tree(rec)) matches Some(back) && back.target == rec.target && back.start
            == rec.start && back.removed == rec.removed && gists(back.inserted) == gists(
            rec.inserted,
        ),
{
    reveal_strlit("target");
    reveal_strlit("start");
    reveal_strlit("removedCount");
    reveal_strlit("inserted");
    reveal_strlit("next-step");
    reveal_strlit("next-turn");
    assert("next-step"@[5] == 's' && "next-turn"@[5] == 't');
    assert("target"@.len() == 6 && "start"@.len() == 5 && "removedCount"@.len() == 12
        && "inserted"@.len() == 8);
    let entries = rec.inserted.map_values(|i: ItemView| item_tree(i));
    let v1 = JsonTree::Text(rec.target.name_view());
    let v2 = JsonTree::Number(Num::Unsigned(rec.start as u64));
    let v3 = JsonTree::Number(Num::Unsigned(rec.removed as u64));
    let v4 = JsonTree::Array(entries);
    let t0 = JsonTree::object();
    let t1 = t0.with("target"@, v1);
    let t2 = t1.with("start"@, v2);
    let t3 = t2.with("removedCount"@, v3);
    let t4 = t3.with("inserted"@, v4);
    lemma_with(t0, "target"@, v1);
    lemma_with(t1, "start"@, v2);
    lemma_with(t2, "removedCount"@, v3);
    lemma_with(t3, "inserted"@, v4);
    assert(t4 == record_tree(rec));
    assert(t4.get("target"@) == Some(v1));
    assert(t4.get("start"@) == Some(v2));
    assert(t4.get("removedCount"@) == Some(v3));
    assert(t4.get("inserted"@) == Some(v4));
    let back = entries.map_values(|m: JsonTree| item_from(m));
    assert forall|i: int| 0 <= i < back.len() implies gists(back)[i] == gists(rec.inserted)[i] by {
        lemma_gist_round_trip(rec.inserted[i]);
    }
    assert(gists(back) =~= gists(rec.inserted));
}

/// Splices that put in the same ids and texts leave the same ids and texts.
proof fn lemma_spliced_gists(
    a: Seq<ItemView>,
    b: Seq<ItemView>,
    start: nat,
    removed: nat,
    x: Seq<ItemView>,
    y: Seq<ItemView>,
)
    requires
        gists(a) == gists(b),
        gists(x) == gists(y),
    ensures
        gists(spliced(a, start, removed, x)) == gists(spliced(b, start, removed, y)),
{
    assert(gists(a).len() == a.len() && gists(b).len() == b.len());
    assert(gists(x).len() == x.len() && gists(y).len() == y.len());
    let from = least(start, a.len());
    let to = least(from + removed, a.len());
    let s = spliced(a, start, removed, x);
    let t = spliced(b, start, removed, y);
    assert(s.len() == t.len());
    assert forall|i: int| 0 <= i < s.len() implies gists(s)[i] == gists(t)[i] by {
        if i < from {
            assert(gists(a)[i] == gists(b)[i]);
        } else if i < from + x.len() {
            assert(gists(x)[i - from] == gists(y)[i - from]);
        } else {
            let k = i - from - x.len() + to;
            assert(gists(a)[k] == gists(b)[k]);
        }
    }
    assert(gists(s) =~= gists(t));
}

/// What splices written to a log do to the items that wait for a turn.
proof fn lemma_next_turn_gists(
    log: Seq<EventView>,
    more: Seq<EventView>,
    recs: Seq<RecordView>,
    inbox: InboxView,
)
    requires
        writes(more, recs),
        forall|i: int|
            0 <= i < recs.len() ==> (#[trigger] recs[i]).start <= u64::MAX && recs[i].removed
                <= u64::MAX,
        gists(folded(log).next_turn) == gists(inbox.next_turn),
    ensures
        gists(folded(log + more).next_turn) == gists(inbox_after_all(inbox, recs).next_turn),
    decreases more.len(),
{
    if more.len() == 0 {
        assert(log + more =~= log);
    } else {
        let rest = more.drop_last();
        lemma_next_turn_gists(log, rest, recs.drop_last(), inbox);
        assert((log + more).drop_last() =~= log + rest);
        assert((log + more).last() == more.last());
        let rec = recs[recs.len() - 1];
        assert(more[more.len() - 1].data == record_tree(rec));
        lemma_record_gists(rec);
        let back = record_from(record_tree(rec))->0;
        lemma_spliced_gists(
            folded(log + rest).next_turn,
            inbox_after_all(inbox, recs.drop_last()).next_turn,
            rec.start,
            rec.removed,
            back.inserted,
            rec.inserted,
        );
    }
}

/// Splices are no messages: they claim nothing.
proof fn lemma_splices_claim_nothing(log: Seq<EventView>, more: Seq<EventView>, id: Seq<char>)
    requires
        forall|i: int| 0 <= i < more.len() ==> (#[trigger] more[i]).kind == "agent/inbox/spliced"@,
    ensures
        claimed(log + more, id) == claimed(log, id),
{
    reveal_strlit("agent/inbox/spliced");
    reveal_strlit("user/message");
    assert("agent/inbox/spliced"@[0] == 'a' && "user/message"@[0] == 'u');
    let all = log + more;
    if claimed(log, id) {
        let i = choose|i: int|
            0 <= i < log.len() && (#[trigger] log[i]).kind == "user/message"@ && log[i].data.at(
                "id"@,
            ).as_text() == Some(id);
        assert(all[i] == log[i]);
    }
    if claimed(all, id) {
        let i = choose|i: int|
            0 <= i < all.len() && (#[trigger] all[i]).kind == "user/message"@ && all[i].data.at(
                "id"@,
            ).as_text() == Some(id);
        if i >= log.len() {
            assert(more[i - log.len()].kind == "agent/inbox/spliced"@);
        }
        assert(all[i] == log[i]);
    }
}

proof fn lemma_unclaimed_take(all: Seq<ItemView>, log: Seq<EventView>, n: int)
    requires
        0 <= n <= all.len(),
        forall|i: int| 0 <= i < n ==> !claimed(log, (#[trigger] all[i]).id),
        forall|i: int| n <= i < all.len() ==> claimed(log, (#[trigger] all[i]).id),
    ensures
        unclaimed(all, log) == all.take(n),
    decreases all.len(),
{
    if all.len() == 0 {
        assert(unclaimed(all, log) =~= all.take(n));
    } else {
        let rest = all.drop_last();
        let last = all[all.len() - 1];
        if n == all.len() {
            assert(!claimed(log, last.id));
            lemma_unclaimed_take(rest, log, n - 1);
            assert(rest.take(n - 1).push(last) =~= all.take(n));
        } else {
            assert(claimed(log, last.id));
            lemma_unclaimed_take(rest, log, n);
            assert(rest.take(n) =~= all.take(n));
        }
    }
}

/// Where the items begin whose message has come up.
proof fn lemma_claimed_from(all: Seq<ItemView>, log: Seq<EventView>) -> (n: int)
    requires
        forall|i: int, j: int|
            0 <= i < j < all.len() && claimed(log, (#[trigger] all[i]).id) ==> claimed(
                log,
                (#[trigger] all[j]).id,
            ),
    ensures
        0 <= n <= all.len(),
        forall|i: int| 0 <= i < n ==> !claimed(log, (#[trigger] all[i]).id),
        forall|i: int| n <= i < all.len() ==> claimed(log, (#[trigger] all[i]).id),
    decreases all.len(),
{
    if all.len() == 0 {
        0
    } else {
        let rest = all.drop_last();
        let last = all[all.len() - 1];
        assert forall|i: int, j: int| 0 <= i < j < rest.len() && claimed(
            log,
            (#[trigger] rest[i]).id,
        ) implies claimed(log, (#[trigger] rest[j]).id) by {
            assert(rest[i] == all[i] && rest[j] == all[j]);
        }
        let m = lemma_claimed_from(rest, log);
        if claimed(log, last.id) {
            assert forall|i: int| 0 <= i < m implies !claimed(log, (#[trigger] all[i]).id) by {
                assert(rest[i] == all[i]);
            }
            assert forall|i: int| m <= i < all.len() implies claimed(
                log,
                (#[trigger] all[i]).id,
            ) by {
                if i < rest.len() {
                    assert(rest[i] == all[i]);
                }
            }
            m
        } else {
            all.len() as int
        }
    }
}

/// Splices of the items that wait for a turn leave those for a running turn as they
/// are.
proof fn lemma_next_step_stays(log: Seq<EventView>, more: Seq<EventView>, recs: Seq<RecordView>)
    requires
        writes(more, recs),
        forall|i: int|
            0 <= i < recs.len() ==> (#[trigger] recs[i]).target is NextTurn && recs[i].start
                <= u64::MAX && recs[i].removed <= u64::MAX,
    ensures
        folded(log + more).next_step == folded(log).next_step,
        restored(log + more).steer == restored(log).steer,
        claimed_last(log + more) == claimed_last(log),
    decreases more.len(),
{
    if more.len() == 0 {
        assert(log + more =~= log);
    } else {
        let rest = more.drop_last();
        lemma_next_step_stays(log, rest, recs.drop_last());
        assert((log + more).drop_last() =~= log + rest);
        assert((log + more).last() == more.last());
        let rec = recs[recs.len() - 1];
        assert(more[more.len() - 1].data == record_tree(rec));
        assert(rec.target is NextTurn);
        lemma_record_gists(rec);
    }
    let all = folded(log).next_step;
    assert forall|id: Seq<char>| claimed(log + more, id) == claimed(log, id) by {
        lemma_splices_claim_nothing(log, more, id);
    }
    lemma_unclaimed_agrees(all, log, log + more);
}

pub(crate) proof fn lemma_unclaimed_agrees(
    all: Seq<ItemView>,
    a: Seq<EventView>,
    b: Seq<EventView>,
)
    requires
        forall|id: Seq<char>| #[trigger] claimed(a, id) == claimed(b, id),
    ensures
        unclaimed(all, a) == unclaimed(all, b),
    decreases all.len(),
{
    if all.len() > 0 {
        lemma_unclaimed_agrees(all.drop_last(), a, b);
        assert(claimed(a, all.last().id) == claimed(b, all.last().id));
    }
}

/// An item put behind those that wait for the running turn comes back behind them.
pub(crate) proof fn lemma_steered_comes_back(
    log: Seq<EventView>,
    e: EventView,
    steer: Seq<ItemView>,
    item: ItemView,
)
    requires
        gists(restored(log).steer) == gists(steer),
        steer.len() <= u64::MAX,
        claimed_last(log),
        !claimed(log, item.id),
        e.kind == "agent/inbox/spliced"@,
        e.data == record_tree(
            RecordView {
                target: Target::NextStep,
                start: steer.len(),
                removed: 0,
                inserted: seq![item],
            },
        ),
    ensures
        gists(restored(log.push(e)).steer) == gists(steer.push(item)),
        claimed_last(log.push(e)),
        folded(log.push(e)).next_turn == folded(log).next_turn,
{
    let rec = RecordView {
        target: Target::NextStep,
        start: steer.len(),
        removed: 0,
        inserted: seq![item],
    };
    let after = log.push(e);
    let all = folded(log).next_step;
    let n = lemma_claimed_from(all, log);
    lemma_unclaimed_take(all, log, n);
    assert(gists(restored(log).steer).len() == n && gists(steer).len() == steer.len());
    lemma_record_gists(rec);
    let back = record_from(e.data)->0;
    assert(gists(back.inserted).len() == 1 && gists(seq![item])[0] == gist(item));
    let x = back.inserted[0];
    assert(gists(back.inserted)[0] == gist(x));
    assert(after.drop_last() =~= log);
    let now = folded(after).next_step;
    assert(now =~= all.take(n) + seq![x] + all.skip(n));
    assert(log + seq![e] =~= after);
    assert forall|id: Seq<char>| claimed(after, id) == claimed(log, id) by {
        lemma_splices_claim_nothing(log, seq![e], id);
    }
    assert forall|i: int| 0 <= i < n + 1 implies !claimed(after, (#[trigger] now[i]).id) by {
        if i < n {
            assert(now[i] == all[i]);
        } else {
            assert(now[i] == x);
        }
    }
    assert forall|i: int| n + 1 <= i < now.len() implies claimed(after, (#[trigger] now[i]).id) by {
        assert(now[i] == all[i - 1]);
    }
    lemma_unclaimed_take(now, after, n + 1);
    assert(now.take(n + 1) =~= all.take(n).push(x));
    let s = gists(restored(after).steer);
    let t = gists(steer.push(item));
    assert forall|i: int| 0 <= i < s.len() implies s[i] == t[i] by {
        if i < n {
            assert(gists(restored(log).steer)[i] == gists(steer)[i]);
        }
    }
    assert(s =~= t);
}

/// The items of a replay that wait for a turn are those that the log folds into.
pub(crate) proof fn lemma_restored_pending(log: Seq<EventView>)
    ensures
        gists(pending_items(restored(log).pending)) == gists(folded(log).next_turn),
{
    assert(gists(pending_items(restored(log).pending)) =~= gists(folded(log).next_turn));
}

/// Splices of the items that wait for a turn come back.
pub(crate) proof fn lemma_turn_splices_come_back(
    log: Seq<EventView>,
    more: Seq<EventView>,
    recs: Seq<RecordView>,
    q: QueueView,
    after: QueueView,
)
    requires
        gives_back(log, q),
        writes(more, recs),
        forall|i: int|
            0 <= i < recs.len() ==> (#[trigger] recs[i]).target is NextTurn && recs[i].start
                <= u64::MAX && recs[i].removed <= u64::MAX,
        inbox_after_all(q.inbox(), recs).next_turn == after.inbox().next_turn,
        after.steer == q.steer,
    ensures
        gives_back(log + more, after),
        claimed_last(log + more) == claimed_last(log),
{
    lemma_restored_pending(log);
    lemma_restored_pending(log + more);
    lemma_next_turn_gists(log, more, recs, q.inbox());
    lemma_next_step_stays(log, more, recs);
}

/// Whether an item that an action feeds to the running turn can come back from a log:
/// no message with its id has come up yet, and those that have come up stand last.
pub open spec fn can_steer(log: Seq<EventView>, id: Seq<char>) -> bool {
    claimed_last(log) && !claimed(log, id)
}

/// What an action writes to the log keeps replaying true: where the log gave the queue
/// back before, with what was written it gives the queue back as it is after.
pub proof fn law_action_comes_back(
    log: Seq<EventView>,
    more: Seq<EventView>,
    q: QueueView,
    id: Seq<char>,
    action: ActionView,
)
    requires
        queue_after(q, id, action) is Ok,
        writes(more, queue_after(q, id, action)->Ok_0.1),
        forall|i: int| 0 <= i < q.pending.len() ==> (#[trigger] q.pending[i]).item.source is None,
        q.pending.len() <= u64::MAX,
        q.steer.len() <= u64::MAX,
        gives_back(log, q),
        action is Steer ==> can_steer(log, id),
    ensures
        gives_back(log + more, queue_after(q, id, action)->Ok_0.0),
        claimed_last(log) ==> claimed_last(log + more),
{
    let (after, recs) = queue_after(q, id, action)->Ok_0;
    law_action_is_durable(q, id, action);
    let ids = pending_ids(q.pending);
    lemma_position(ids, id);
    let k = position(ids, id)->0;
    let hit = q.pending[k];
    assert(ids[k] == hit.item.id);
    match action {
        ActionView::Steer => {
            reveal_with_fuel(inbox_after_all, 3);
            let first = more.take(1);
            let mid = QueueView { pending: q.pending.remove(k), ..q };
            let turn = recs.take(1);
            assert(recs.drop_last() =~= turn);
            assert(turn.drop_last() =~= Seq::empty());
            assert(turn.last() == recs[0]);
            assert(writes(first, turn)) by {
                assert(first[0] == more[0]);
            }
            assert(inbox_after_all(q.inbox(), turn).next_turn == after.inbox().next_turn);
            assert(mid.inbox().next_turn == after.inbox().next_turn);
            lemma_turn_splices_come_back(log, first, turn, q, mid);
            let log1 = log + first;
            assert(log + more =~= log1.push(more[1]));
            assert(claimed(log1, id) == claimed(log, id)) by {
                assert forall|i: int| 0 <= i < first.len() implies (#[trigger] first[i]).kind
                    == "agent/inbox/spliced"@ by {
                    assert(first[i] == more[i]);
                }
                lemma_splices_claim_nothing(log, first, id);
            }
            assert(more[1].data == record_tree(recs[1]));
            lemma_steered_comes_back(log1, more[1], q.steer, hit.item);
            lemma_restored_pending(log1);
            lemma_restored_pending(log + more);
        },
        _ => {
            lemma_turn_splices_come_back(log, more, recs, q, after);
        },
    }
}

/// When an action is refused, and what it does otherwise. An item that does not wait
/// is not found, whatever is asked; one that waits is fed to the running turn only
/// while one runs, and edited only where nothing but text is in it. Nothing else is
/// refused. An item that is fed to the running turn comes last there; one that is
/// edited keeps its place.
pub proof fn law_action_outcomes(q: QueueView, id: Seq<char>, action: ActionView)
    ensures
        ({
            let found = position(pending_ids(q.pending), id);
            let k = found->0;
            let r = queue_after(q, id, action);
            &&& found is None ==> r == Err::<(QueueView, Seq<RecordView>), ErrorView>(
                error_view("queue-item-not-found"@, "queued item is no longer pending"@),
            )
            &&& found is Some && action is Steer && !q.running ==> r == Err::<
                (QueueView, Seq<RecordView>),
                ErrorView,
            >(error_view("steer-unavailable"@, "current turn no longer accepts steering"@))
            &&& r is Ok <==> found is Some && (action is Steer ==> q.running) && (action is Edit
                ==> q.pending[k].item.images.len() == 0 && q.pending[k].item.files.len() == 0)
            &&& r is Ok && action is Steer ==> r->Ok_0.0.steer == q.steer.push(q.pending[k].item)
                && r->Ok_0.0.pending == q.pending.remove(k)
            &&& r is Ok && action is Remove ==> r->Ok_0.0.steer == q.steer && r->Ok_0.0.pending
                == q.pending.remove(k)
            &&& r is Ok && action is Edit ==> r->Ok_0.0.steer == q.steer && pending_ids(
                r->Ok_0.0.pending,
            ) == pending_ids(q.pending) && r->Ok_0.0.pending[k].item.text == action->Edit_0
                && forall|i: int|
                0 <= i < q.pending.len() && i != k ==> r->Ok_0.0.pending[i] == (
                #[trigger] q.pending[i])
        }),
{
    lemma_position(pending_ids(q.pending), id);
    let r = queue_after(q, id, action);
    if r is Ok && action is Edit {
        assert(pending_ids(r->Ok_0.0.pending) =~= pending_ids(q.pending));
    }
}

/// What a request asks of a queued item is one of three things; an edit may hold text
/// blocks only, and its text is theirs, one behind the other.
pub proof fn law_requests_ask_one_of_three(action: JsonTree)
    ensures
        parsed_action(action) matches Ok(ActionView::Remove) <==> action.at("kind"@)
            == JsonTree::Text("remove"@),
        parsed_action(action) matches Ok(ActionView::Steer) <==> action.at("kind"@)
            == JsonTree::Text("steer"@),
        parsed_action(action) matches Ok(ActionView::Edit(_)) <==> action.at("kind"@)
            == JsonTree::Text("edit"@) && forall|i: int|
            0 <= i < items_at(action, "content"@).len() ==> (#[trigger] items_at(
                action,
                "content"@,
            )[i]).at("type"@) == JsonTree::Text("text"@),
        parsed_action(action) matches Ok(ActionView::Edit(t)) ==> t == joined_text(
            items_at(action, "content"@),
        ),
        parsed_action(action) matches Err(e) ==> e.code == "queue-edit-non-text"@ || e.code
            == "bad-request"@,
{
    reveal_strlit("edit");
    reveal_strlit("remove");
    reveal_strlit("steer");
    assert("edit"@[0] == 'e' && "remove"@[0] == 'r' && "steer"@[0] == 's');
    let blocks = items_at(action, "content"@);
    assert forall|i: int| 0 <= i < blocks.len() implies (is_text_block(#[trigger] blocks[i])
        <==> blocks[i].at("type"@) == JsonTree::Text("text"@)) by {}
}

/// The text of blocks is that of the first ones and then that of the others; one block
/// gives its text.
pub proof fn law_joined_text_follows(a: Seq<JsonTree>, b: Seq<JsonTree>, block: JsonTree)
    ensures
        joined_text(a + b) == joined_text(a) + joined_text(b),
        block.at("text"@) is Text ==> joined_text(seq![block]) == block.at("text"@)->Text_0,
    decreases b.len(),
{
    reveal_with_fuel(joined_text, 2);
    assert(seq![block].drop_last() =~= Seq::empty());
    assert(Seq::<char>::empty() + text_at(block, "text"@) =~= text_at(block, "text"@));
    if b.len() == 0 {
        assert(a + b =~= a);
        assert(joined_text(a) + joined_text(b) =~= joined_text(a));
    } else {
        law_joined_text_follows(a, b.drop_last(), block);
        assert((a + b).drop_last() =~= a + b.drop_last());
        assert((a + b).last() == b.last());
        assert(joined_text(a) + (joined_text(b.drop_last()) + text_at(b.last(), "text"@))
            =~= joined_text(a) + joined_text(b.drop_last()) + text_at(b.last(), "text"@));
    }
}

/// What comes back of a running turn's items are all those whose message has not come up,
/// in order; what comes back of the others are all of them.
pub proof fn law_replay_gives_back_the_unclaimed(log: Seq<EventView>)
    ensures
        restored(log).steer == folded(log).next_step.filter(|i: ItemView| !claimed(log, i.id)),
        restored(log).pending.len() == folded(log).next_turn.len(),
        forall|i: int|
            0 <= i < restored(log).pending.len() ==> (#[trigger] restored(log).pending[i]).item.id
                == folded(log).next_turn[i].id && restored(log).pending[i].item.text == folded(
                log,
            ).next_turn[i].text && restored(log).pending[i].item.images == folded(
                log,
            ).next_turn[i].images && restored(log).pending[i].item.files == folded(
                log,
            ).next_turn[i].files,
        !restored(log).running,
{
    lemma_unclaimed_filter(folded(log).next_step, log, |i: ItemView| !claimed(log, i.id));
}

proof fn lemma_unclaimed_filter(
    all: Seq<ItemView>,
    log: Seq<EventView>,
    keep: spec_fn(ItemView) -> bool,
)
    requires
        forall|i: ItemView| #[trigger] keep(i) == !claimed(log, i.id),
    ensures
        unclaimed(all, log) == all.filter(keep),
    decreases all.len(),
{
    reveal(Seq::filter);
    if all.len() > 0 {
        lemma_unclaimed_filter(all.drop_last(), log, keep);
        assert(keep(all.last()) == !claimed(log, all.last().id));
    } else {
        assert(unclaimed(all, log) =~= all.filter(keep));
    }
}

/// A splice leaves what stands before it and behind it, and puts in what it brings, there;
/// what reaches beyond the end of the list is cut off.
pub proof fn law_splice_keeps_the_rest(
    list: Seq<ItemView>,
    start: nat,
    removed: nat,
    inserted: Seq<ItemView>,
)
    ensures
        start + removed <= list.len() ==> {
            let after = spliced(list, start, removed, inserted);
            &&& after.len() == list.len() - removed + inserted.len()
            &&& forall|i: int| 0 <= i < start ==> after[i] == #[trigger] list[i]
            &&& forall|i: int| 0 <= i < inserted.len() ==> after[start + i] == #[trigger] inserted[i]
            &&& forall|i: int|
                start + removed <= i < list.len() ==> after[i - removed + inserted.len()]
                    == #[trigger] list[i]
        },
        start > list.len() ==> spliced(list, start, removed, inserted) == list + inserted,
{
    if start > list.len() {
        assert(spliced(list, start, removed, inserted) =~= list + inserted);
    }
}

/// How an item and a splice stand in the log.
pub proof fn law_splices_on_record(item: ItemView, rec: RecordView)
    ensures
        has_entry(item_tree(item), "id"@, JsonTree::Text(item.id)),
        has_entry(item_tree(item), "content"@, JsonTree::Text(item.text)),
        item.images.len() > 0 ==> has_entry(item_tree(item), "images"@, JsonTree::Array(item.images)),
        item.source matches Some(s) ==> has_entry(item_tree(item), "source"@, s),
        rec.target == Target::NextTurn ==> has_entry(
            record_tree(rec),
            "target"@,
            JsonTree::Text("next-turn"@),
        ),
        rec.target == Target::NextStep ==> has_entry(
            record_tree(rec),
            "target"@,
            JsonTree::Text("next-step"@),
        ),
        rec.start <= u64::MAX ==> has_entry(
            record_tree(rec),
            "start"@,
            JsonTree::Number(Num::Unsigned(rec.start as u64)),
        ),
        rec.removed <= u64::MAX ==> has_entry(
            record_tree(rec),
            "removedCount"@,
            JsonTree::Number(Num::Unsigned(rec.removed as u64)),
        ),
{
    let a = item_tree(item)->Object_0;
    assert(a[0] == ("id"@, JsonTree::Text(item.id)));
    assert(a[1] == ("content"@, JsonTree::Text(item.text)));
    if item.images.len() > 0 {
        assert(a[2] == ("images"@, JsonTree::Array(item.images)));
    }
    if item.source is Some {
        assert(a[a.len() - 1] == ("source"@, item.source->0));
    }
    let b = record_tree(rec)->Object_0;
    assert(b[0].0 == "target"@ && b[1].0 == "start"@ && b[2].0 == "removedCount"@);
}

/// An edited item keeps all but its text, with the contexts that were prepared for it; what
/// is written of it is the item anew, at its place.
pub proof fn law_edit_changes_the_text(q: QueueView, id: Seq<char>, text: Seq<char>, k: int)
    requires
        0 <= k < q.pending.len(),
        q.pending[k].item.id == id,
        forall|j: int| 0 <= j < k ==> (#[trigger] q.pending[j]).item.id != id,
        q.pending[k].item.images.len() == 0,
        q.pending[k].item.files.len() == 0,
    ensures
        ({
            let r = queue_after(q, id, ActionView::Edit(text));
            &&& r is Ok
            &&& r->Ok_0.0.pending.len() == q.pending.len()
            &&& r->Ok_0.0.pending[k].item == (ItemView { text, ..q.pending[k].item })
            &&& r->Ok_0.0.pending[k].contexts == q.pending[k].contexts
            &&& r->Ok_0.0.running == q.running && r->Ok_0.0.steer == q.steer
            &&& r->Ok_0.1.len() == 1 && r->Ok_0.1[0].start == k && r->Ok_0.1[0].removed == 1
                && r->Ok_0.1[0].inserted.len() == 1 && r->Ok_0.1[0].inserted[0].text == text
                && r->Ok_0.1[0].inserted[0].id == id
        }),
{
    let ids = pending_ids(q.pending);
    assert forall|j: int| 0 <= j < k implies ids[j] != id by {
        assert(ids[j] == q.pending[j].item.id);
    }
    assert(ids[k] == id);
    crate::text::lemma_position_at(ids, id, k);
}

/// What is kept of values that are to refer to files are those objects that name a file, in
/// order.
pub proof fn law_references_name_their_file(all: Seq<JsonTree>)
    ensures
        references(all) == all.filter(|t: JsonTree| t is Object && t.at("attachmentId"@) is Text),
{
    lemma_references_filter(all, |t: JsonTree| t is Object && t.at("attachmentId"@) is Text);
}

proof fn lemma_references_filter(all: Seq<JsonTree>, keep: spec_fn(JsonTree) -> bool)
    requires
        forall|t: JsonTree| #[trigger] keep(t) == (t is Object && t.at("attachmentId"@) is Text),
    ensures
        references(all) == all.filter(keep),
    decreases all.len(),
{
    reveal(Seq::filter);
    if all.len() > 0 {
        lemma_references_filter(all.drop_last(), keep);
        assert(keep(all.last()) == is_reference(all.last()));
    } else {
        assert(references(all) =~= all.filter(keep));
    }
}

} // verus!
