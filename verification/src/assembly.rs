//! Taking a session up: what it is assembled with, and what its log brings
//! back.
use vstd::prelude::*;
use vstd::string::*;

use crate::driver::{claim_of, law_claim_is_durable, next_claim, queue_without, taken};
use crate::events::{EventLog, EventView, last_seq};
use crate::frames::is_push;
use crate::host::{AppHost, HostView, WorkspaceConfig};
use crate::interact::text_view;
use crate::json::JsonTree;
use crate::proto::{ErrorView, RpcError, ServerRequest, SubscribedFrame, error_view};
use crate::pump::{Job, frame, law_pump_is_durable, pumped, queue_frame, queue_items, shown_queue};
use crate::queue::{
    PendingView, QueueState, QueueView, claimed, folded, inbox_after_all, is_reference,
    law_fold_written, lemma_unclaimed_agrees, pending_ids, queue_after, replay_inbox, restored,
    unclaimed, writes,
};
use crate::repair::{appended_all, missing, put_in_end, repair_dangling_calls, repaired, scan};
use crate::sessions::{no_session, registered};
use crate::text::{has_part, joined3, lemma_position, part_at, position, same};

verus! {

/// What a session is assembled with.
#[derive(Debug, PartialEq)]
pub struct AssemblyPlan {
    /// The workspace that it works in.
    pub workspace: String,
    /// The id of its provider.
    pub provider: String,
    pub model: String,
    pub preset: String,
    pub effort: String,
    pub base_url: String,
    pub dialect: String,
    pub context_window: u64,
    /// The key of its provider; none where the host runs without providers.
    pub key: Option<String>,
    /// Whether it may use skills and plans: not where it works for another
    /// session.
    pub skills: bool,
}

/// A key that is missing.
pub open spec fn missing_key(provider: Seq<char>) -> ErrorView {
    error_view(
        "internal"@,
        "provider "@ + provider + " 凭据缺席:请在设置中配置 API key"@,
    )
}

/// Whether a plan is what a session is to be assembled with. What the file of
/// the workspace says of address and dialect goes before what the provider says.
pub open spec fn assembles(
    h: HostView,
    id: Seq<char>,
    cfg: WorkspaceConfig,
    origin: Option<Seq<char>>,
    key: Option<Seq<char>>,
    builtin: u64,
    plan: AssemblyPlan,
) -> bool {
    let ws = h.workspace_of_session(id);
    let provider = h.provider_for(ws);
    &&& plan.workspace@ == ws.path
    &&& plan.provider@ == provider.id
    &&& plan.model@ == h.session_model(id, cfg)
    &&& plan.preset@ == h.session_preset(id, cfg)
    &&& plan.effort@ == h.session_effort(id, cfg)
    &&& plan.base_url@ == (match text_view(cfg.base_url) {
        Some(u) => u,
        None => provider.base_url,
    })
    &&& plan.dialect@ == (match text_view(cfg.dialect) {
        Some(d) => d,
        None => provider.dialect,
    })
    &&& plan.context_window == h.session_window(id, cfg, builtin)
    &&& text_view(plan.key) == (if h.fake {
        None
    } else {
        key
    })
    &&& plan.skills == (origin != Some("subagent"@))
}

impl AppHost {
    /// Works out what a session is to be assembled with. A session that is not
    /// there is not taken up; one that is assembled needs nothing more. A host
    /// with providers needs a key.
    pub fn attach(
        &mut self,
        id: &str,
        on_disk: bool,
        assembled: bool,
        cfg: &WorkspaceConfig,
        origin: &Option<String>,
        key: Option<String>,
        builtin: u64,
    ) -> (r: Result<Option<AssemblyPlan>, RpcError>)
        requires
            old(self).wf(),
        ensures
            final(self).wf(),
            ({
                let h = old(self)@;
                if !on_disk {
                    r is Err && r->Err_0@ == no_session(id@) && final(self)@ == h
                } else {
                    &&& final(self)@ == registered(h, id@)
                    &&& if assembled {
                        r matches Ok(None)
                    } else if !h.fake && key is None {
                        r is Err && r->Err_0@ == missing_key(
                            h.provider_for(h.workspace_of_session(id@)).id,
                        )
                    } else {
                        r matches Ok(Some(plan)) && assembles(
                            h,
                            id@,
                            *cfg,
                            text_view(*origin),
                            text_view(key),
                            builtin,
                            plan,
                        )
                    }
                }
            }),
    {
        if !on_disk {
            return Err(RpcError::session_not_found(id));
        }
        let ghost h = self@;
        let (ws, stem) = self.resolve_session(id);
        let provider = self.provider_for(&ws);
        let model = self.session_model(id, cfg);
        let preset = self.session_preset(id, cfg);
        let effort = match self.session_effort(id, cfg) {
            Some(e) => e,
            None => String::new(),
        };
        let context_window: u64 = self.session_context_window(id, cfg, builtin);
        self.register_slot(id);
        if assembled {
            return Ok(None);
        }
        if !self.fake && key.is_none() {
            return Err(
                RpcError::internal(
                    joined3(
                        "provider ",
                        provider.id.as_str(),
                        " 凭据缺席:请在设置中配置 API key",
                    ).as_str(),
                ),
            );
        }
        let base_url = match &cfg.base_url {
            Some(u) => u.clone(),
            None => provider.base_url.clone(),
        };
        let dialect = match &cfg.dialect {
            Some(d) => d.clone(),
            None => provider.dialect.clone(),
        };
        let skills = match origin {
            Some(o) => !same(o.as_str(), "subagent"),
            None => true,
        };
        Ok(
            Some(
                AssemblyPlan {
                    workspace: ws.path,
                    provider: provider.id,
                    model,
                    preset,
                    effort,
                    base_url,
                    dialect,
                    context_window,
                    key: if self.fake {
                        None
                    } else {
                        key
                    },
                    skills,
                },
            ),
        )
    }
}

/// Mends the log of a session and brings its queue back.
pub fn restore_session(log: &mut EventLog, placeholder: &str, time: i64) -> (q: QueueState)
    requires
        last_seq(old(log)@) + old(log)@.len() + 1 <= u64::MAX,
    ensures
        final(log)@ == repaired(old(log)@, placeholder@, time),
        q@ == restored(final(log)@),
{
    repair_dangling_calls(log, placeholder, time);
    let (pending, steer) = replay_inbox(log);
    QueueState { pending, steer, running: false }
}

/// An event that neither queues nor takes up anything.
pub open spec fn is_neutral(e: EventView) -> bool {
    e.kind != "agent/inbox/spliced"@ && e.kind != "user/message"@
}

proof fn lemma_neutral_events(log: Seq<EventView>, more: Seq<EventView>)
    requires
        forall|i: int| 0 <= i < more.len() ==> is_neutral(#[trigger] more[i]),
    ensures
        folded(appended_all(log, more)) == folded(log),
        forall|id: Seq<char>| #[trigger]
            claimed(appended_all(log, more), id) == claimed(log, id),
    decreases more.len(),
{
    if more.len() > 0 {
        let rest = more.drop_last();
        assert forall|i: int| 0 <= i < rest.len() implies is_neutral(#[trigger] rest[i]) by {
            assert(rest[i] == more[i]);
        }
        lemma_neutral_events(log, rest);
        let mid = appended_all(log, rest);
        let all = appended_all(log, more);
        assert(is_neutral(more[more.len() - 1]));
        assert(all.drop_last() =~= mid);
        assert(all.last().kind == more.last().kind);
        assert forall|id: Seq<char>| #[trigger] claimed(all, id) == claimed(log, id) by {
            assert(claimed(mid, id) == claimed(log, id));
            if claimed(all, id) {
                let i = choose|i: int|
                    0 <= i < all.len() && (#[trigger] all[i]).kind == "user/message"@
                        && all[i].data.at("id"@).as_text() == Some(id);
                assert(i < mid.len());
                assert(mid[i] == all[i]);
            }
            if claimed(mid, id) {
                let i = choose|i: int|
                    0 <= i < mid.len() && (#[trigger] mid[i]).kind == "user/message"@
                        && mid[i].data.at("id"@).as_text() == Some(id);
                assert(all[i] == mid[i]);
            }
        }
    }
}

/// Mending a log does not touch the queue: what the mended log brings back is
/// what the log brings back.
pub proof fn law_repair_keeps_queue(log: Seq<EventView>, placeholder: Seq<char>, time: i64)
    ensures
        restored(repaired(log, placeholder, time)) == restored(log),
{
    reveal_strlit("agent/inbox/spliced");
    reveal_strlit("user/message");
    reveal_strlit("tool/result");
    reveal_strlit("turn/end");
    assert("agent/inbox/spliced"@.len() == 19 && "user/message"@.len() == 12
        && "tool/result"@.len() == 11 && "turn/end"@.len() == 8);
    let more = missing(scan(log), placeholder, time);
    assert forall|i: int| 0 <= i < more.len() implies is_neutral(#[trigger] more[i]) by {
        let open = scan(log).open;
        if i < open.len() {
            assert(more[i].kind == "tool/result"@);
        } else {
            assert(more[i] == put_in_end(time));
        }
    }
    lemma_neutral_events(log, more);
    lemma_unclaimed_agrees(folded(log).next_step, repaired(log, placeholder, time), log);
}

/// Queued messages survive a restart: where the log says what the queue holds,
/// what comes back are the same items waiting for a turn, in order, and those
/// meant for the running turn whose message has not come up. Only the contexts
/// are lost, which the log does not hold.
pub proof fn law_queue_survives_restart(log: Seq<EventView>, q: QueueView)
    requires
        folded(log) == q.inbox(),
        forall|i: int| 0 <= i < q.pending.len() ==> (#[trigger] q.pending[i]).item.source is None,
    ensures
        restored(log).pending == q.pending.map_values(
            |p: PendingView| PendingView { contexts: Seq::empty(), ..p },
        ),
        restored(log).steer == unclaimed(q.steer, log),
{
    let back = restored(log).pending;
    let wanted = q.pending.map_values(
        |p: PendingView| PendingView { contexts: Seq::empty(), ..p },
    );
    assert forall|i: int| 0 <= i < back.len() implies back[i] == wanted[i] by {
        assert(q.pending[i].item.source is None);
        assert(q.inbox().next_turn[i] == q.pending[i].item);
    }
    assert(back =~= wanted);
}

// The log and the queue.

/// Whether a log says what a queue holds, and the queue holds only what a log can
/// say.
pub open spec fn in_step(q: QueueView, log: Seq<EventView>) -> bool {
    &&& folded(log) == q.inbox()
    &&& forall|i: int|
        0 <= i < q.pending.len() ==> (#[trigger] q.pending[i]).item.source is None
            && q.pending[i].item.sound()
    &&& forall|i: int| 0 <= i < q.steer.len() ==> (#[trigger] q.steer[i]).sound()
}

/// Whether what a job brings is such as a log can say.
pub open spec fn job_is_sound(job: Job) -> bool {
    match job {
        Job::Prompt { id, text, images, files, mode, contexts } => {
            &&& forall|i: int| 0 <= i < images@.len() ==> is_reference((#[trigger] images@[i])@)
            &&& forall|i: int| 0 <= i < files@.len() ==> is_reference((#[trigger] files@[i])@)
        },
        Job::Notice { id, text, source } => source@ is Object,
        _ => true,
    }
}

/// Something that happens to a session.
pub enum QueueStep {
    /// A job is taken up.
    Job(Job),
    /// An item is taken out of the queue to run a turn for it.
    Claim,
    /// A turn ends.
    TurnEnd,
    /// An event is written that is no splice.
    Event(EventView),
}

/// Whether something that happens takes a queue and a log to others: of a job and
/// of an item that is taken out, the splices are written to the log.
pub open spec fn step_takes(
    q: QueueView,
    log: Seq<EventView>,
    step: QueueStep,
    q2: QueueView,
    log2: Seq<EventView>,
) -> bool {
    match step {
        QueueStep::Job(job) => {
            &&& job_is_sound(job)
            &&& q.pending.len() <= u64::MAX
            &&& q.steer.len() <= u64::MAX
            &&& q2 == pumped(q, job).queue
            &&& exists|more: Seq<EventView>| #[trigger]
                writes(more, pumped(q, job).records) && log2 == log + more
        },
        QueueStep::Claim => {
            &&& next_claim(q) is Some
            &&& q2 == queue_without(q)
            &&& exists|more: Seq<EventView>| #[trigger]
                writes(more, seq![taken(claim_of(q).target)]) && log2 == log + more
        },
        QueueStep::TurnEnd => q2 == (QueueView { running: false, ..q }) && log2 == log,
        QueueStep::Event(e) => q2 == q && log2 == log.push(e) && e.kind != "agent/inbox/spliced"@,
    }
}

proof fn lemma_step_keeps(
    q: QueueView,
    log: Seq<EventView>,
    step: QueueStep,
    q2: QueueView,
    log2: Seq<EventView>,
)
    requires
        in_step(q, log),
        step_takes(q, log, step, q2, log2),
    ensures
        in_step(q2, log2),
{
    match step {
        QueueStep::Job(job) => {
            let recs = pumped(q, job).records;
            let more = choose|more: Seq<EventView>| #[trigger]
                writes(more, recs) && log2 == log + more;
            lemma_job_is_sayable(q, job);
            law_fold_written(log, more, recs);
            law_pump_is_durable(q, job);
        },
        QueueStep::Claim => {
            let recs = seq![taken(claim_of(q).target)];
            let more = choose|more: Seq<EventView>| #[trigger]
                writes(more, recs) && log2 == log + more;
            law_fold_written(log, more, recs);
            law_claim_is_durable(q);
            reveal_with_fuel(inbox_after_all, 2);
            assert(recs.drop_last() =~= Seq::empty());
            if q.steer.len() > 0 {
                assert forall|i: int| 0 <= i < q2.steer.len() implies (#[trigger] q2.steer[i]).sound() by {
                    assert(q2.steer[i] == q.steer[i + 1]);
                }
            } else {
                assert forall|i: int| 0 <= i < q2.pending.len() implies (
                #[trigger] q2.pending[i]).item.source is None && q2.pending[i].item.sound() by {
                    assert(q2.pending[i] == q.pending[i + 1]);
                }
            }
        },
        QueueStep::TurnEnd => {},
        QueueStep::Event(e) => {
            assert(log2.drop_last() =~= log);
        },
    }
}

/// What a job writes is such as a log can say, and so is what it leaves.
proof fn lemma_job_is_sayable(q: QueueView, job: Job)
    requires
        job_is_sound(job),
        q.pending.len() <= u64::MAX,
        q.steer.len() <= u64::MAX,
        forall|i: int|
            0 <= i < q.pending.len() ==> (#[trigger] q.pending[i]).item.source is None
                && q.pending[i].item.sound(),
        forall|i: int| 0 <= i < q.steer.len() ==> (#[trigger] q.steer[i]).sound(),
    ensures
        forall|i: int|
            0 <= i < pumped(q, job).records.len() ==> (#[trigger] pumped(q, job).records[i]).sound(),
        forall|i: int|
            0 <= i < pumped(q, job).queue.pending.len() ==> (#[trigger] pumped(
                q,
                job,
            ).queue.pending[i]).item.source is None && pumped(
                q,
                job,
            ).queue.pending[i].item.sound(),
        forall|i: int|
            0 <= i < pumped(q, job).queue.steer.len() ==> (#[trigger] pumped(
                q,
                job,
            ).queue.steer[i]).sound(),
{
    let after = pumped(q, job);
    match job {
        Job::Prompt { id, text, images, files, mode, contexts } => {
            let item = after.records[0].inserted[0];
            assert forall|i: int| 0 <= i < item.images.len() implies is_reference(
                #[trigger] item.images[i],
            ) by {
                assert(item.images[i] == images@[i]@);
            }
            assert forall|i: int| 0 <= i < item.files.len() implies is_reference(
                #[trigger] item.files[i],
            ) by {
                assert(item.files[i] == files@[i]@);
            }
            assert(item.sound());
        },
        Job::UpdateQueue { item_id, action } => {
            let ids = pending_ids(q.pending);
            lemma_position(ids, item_id@);
            if queue_after(q, item_id@, action@) is Ok {
                let k = position(ids, item_id@)->0;
                assert(q.pending[k].item.sound());
            }
        },
        _ => {},
    }
}

/// The log tells the queue: whatever happens to a session, in whatever order, its
/// log says what its queue holds.
pub proof fn law_log_tells_queue(
    states: Seq<(QueueView, Seq<EventView>)>,
    steps: Seq<QueueStep>,
)
    requires
        states.len() == steps.len() + 1,
        in_step(states[0].0, states[0].1),
        forall|i: int|
            0 <= i < steps.len() ==> step_takes(
                states[i].0,
                states[i].1,
                #[trigger] steps[i],
                states[i + 1].0,
                states[i + 1].1,
            ),
    ensures
        in_step(states.last().0, states.last().1),
    decreases steps.len(),
{
    if steps.len() > 0 {
        let n = steps.len() - 1;
        let before = states.drop_last();
        let first = steps.drop_last();
        assert forall|i: int| 0 <= i < first.len() implies step_takes(
            before[i].0,
            before[i].1,
            #[trigger] first[i],
            before[i + 1].0,
            before[i + 1].1,
        ) by {
            assert(first[i] == steps[i]);
        }
        law_log_tells_queue(before, first);
        assert(before.last() == states[n]);
        assert(step_takes(states[n].0, states[n].1, steps[n], states[n + 1].0, states[n + 1].1));
        lemma_step_keeps(states[n].0, states[n].1, steps[n], states[n + 1].0, states[n + 1].1);
    }
}

/// A session that has just been made is in step: its queue and its log are empty.
pub proof fn law_new_session_is_in_step()
    ensures
        in_step(
            QueueView { pending: Seq::empty(), steer: Seq::empty(), running: false },
            Seq::empty(),
        ),
{
    let q = QueueView { pending: Seq::empty(), steer: Seq::empty(), running: false };
    assert(q.inbox().next_turn =~= Seq::empty());
}

/// What a client is told when a session was taken up: the last event that it
/// has, and its queue unless that is empty.
pub fn opening_frames(session_id: &str, log: &EventLog, q: &QueueState) -> (r: Vec<ServerRequest>)
    ensures
        r@.len() == (if shown_queue(q@).len() == 0 {
            1nat
        } else {
            2nat
        }),
        forall|i: int| 0 <= i < r@.len() ==> is_push(#[trigger] r@[i]),
        r@[0].method@ == "session/subscribed"@,
        r@[0].payload@ == JsonTree::object().with("sessionId"@, JsonTree::Text(session_id@)).with(
            "lastSeq"@,
            JsonTree::Number(crate::json::Num::Unsigned(last_seq(log@))),
        ),
        r@.len() == 2 ==> r@[1].method@ == "session/queue"@ && r@[1].payload@
            == JsonTree::object().with("sessionId"@, JsonTree::Text(session_id@)).with(
            "items"@,
            JsonTree::Array(shown_queue(q@)),
        ),
{
    let mut out: Vec<ServerRequest> = Vec::new();
    let subscribed = SubscribedFrame {
        session_id: session_id.to_owned(),
        last_seq: log.last_seq(),
    };
    out.push(frame("session/subscribed", subscribed.to_json()));
    let items = queue_items(q);
    assert(crate::json::trees(items@).len() == items@.len());
    if items.len() > 0 {
        out.push(queue_frame(session_id, q));
    }
    out
}

/// A session is assembled with what is in use for it: its workspace, its provider, its
/// model, preset, effort and context. What the file of its workspace says of the address
/// and the dialect goes before what the provider says. A host without providers hands no
/// key on, and a session that works for another has no skills.
pub proof fn law_session_is_assembled_as_set(
    h: HostView,
    id: Seq<char>,
    cfg: WorkspaceConfig,
    origin: Option<Seq<char>>,
    key: Option<Seq<char>>,
    builtin: u64,
    plan: AssemblyPlan,
)
    requires
        assembles(h, id, cfg, origin, key, builtin, plan),
    ensures
        plan.workspace@ == h.resolve(id).0.path,
        plan.provider@ == h.provider_for(h.resolve(id).0).id,
        plan.model@ == h.session_model(id, cfg),
        plan.preset@ == h.session_preset(id, cfg),
        plan.effort@ == h.session_effort(id, cfg),
        plan.context_window == h.session_window(id, cfg, builtin),
        text_view(cfg.base_url) matches Some(u) ==> plan.base_url@ == u,
        text_view(cfg.base_url) is None ==> plan.base_url@ == h.provider_for(
            h.resolve(id).0,
        ).base_url,
        text_view(cfg.dialect) matches Some(d) ==> plan.dialect@ == d,
        text_view(cfg.dialect) is None ==> plan.dialect@ == h.provider_for(h.resolve(id).0).dialect,
        h.fake ==> plan.key is None,
        !h.fake ==> text_view(plan.key) == key,
        origin == Some("subagent"@) <==> !plan.skills,
{
}

/// A session whose provider has no key is refused with an error of the host that names the
/// provider, so that the user can tell which key is missing.
pub proof fn law_missing_key_names_its_provider(provider: Seq<char>)
    ensures
        missing_key(provider).code == "internal"@,
        has_part(missing_key(provider).message, provider),
{
    let m = missing_key(provider).message;
    let lead = "provider "@;
    assert(m.subrange(lead.len() as int, lead.len() as int + provider.len()) =~= provider);
    assert(part_at(m, provider, lead.len() as int));
}

} // verus!
