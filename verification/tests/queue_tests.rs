use liuma_core::assembly::{opening_frames, restore_session};
use liuma_core::driver::{
    claim_next, driver_step, pin_permission, prepare_contexts, taken_record, title_trigger,
    DriverAction, DriverInput, Phase, PresetSpec,
};
use liuma_core::events::{Event, EventLog};
use liuma_core::json::{parse, Json};
use liuma_core::pump::{
    enqueue, message_content, pump_step, queue_frame, queue_items, update_queue, DriverCmd, Job,
    PromptMode,
};
use liuma_core::queue::{
    apply_queue_action, parse_queue_action, replay_inbox, splice_item_from_event, PendingItem,
    QueueAction, QueueState, SpliceItem, SpliceRecord, SteerInput, Target,
};
use liuma_core::repair::repair_dangling_calls;

fn doc(text: &str) -> Json {
    parse(text).expect("a document")
}

fn pick<'a>(j: &'a Json, path: &[&str]) -> &'a Json {
    let mut at = j;
    for key in path {
        at = at.get(key).expect("a member");
    }
    at
}

fn item(id: &str, text: &str) -> PendingItem {
    PendingItem {
        id: id.into(),
        text: text.into(),
        images: Vec::new(),
        files: Vec::new(),
        contexts: Vec::new(),
    }
}

fn splice(target: &str, start: u64, removed: u64, inserted: &[(&str, &str)]) -> Event {
    let items: Vec<Json> = inserted
        .iter()
        .map(|(id, text)| {
            Json::object().with("id", Json::text(id)).with("content", Json::text(text))
        })
        .collect();
    Event::new(
        "agent/inbox/spliced",
        0,
        Json::object()
            .with("target", Json::text(target))
            .with("start", Json::number(start))
            .with("removedCount", Json::number(removed))
            .with("inserted", Json::array(items)),
    )
}

/// What each action does to a queued item.
#[test]
fn apply_queue_action_semantics() {
    let mut qs = QueueState {
        pending: vec![item("p1", "one"), item("p2", "two")],
        steer: Vec::new(),
        running: false,
    };

    let err = apply_queue_action(&mut qs, "p1", QueueAction::Steer).unwrap_err();
    assert_eq!(err.code, "steer-unavailable");

    let edited =
        apply_queue_action(&mut qs, "p2", QueueAction::Edit("edited".into())).unwrap();
    assert_eq!(qs.pending[1].text, "edited");
    assert_eq!(edited.records.len(), 1);
    assert_eq!((edited.records[0].start, edited.records[0].removed), (1, 1));

    qs.running = true;
    let steered = apply_queue_action(&mut qs, "p1", QueueAction::Steer).unwrap();
    assert_eq!(qs.pending.len(), 1);
    let s = qs.steer.remove(0);
    assert_eq!(s.id, "p1");
    assert!(steered.wake);
    assert_eq!(steered.records.len(), 2);

    apply_queue_action(&mut qs, "p2", QueueAction::Remove).unwrap();
    assert!(qs.pending.is_empty());
}

/// Items come, are edited, claimed and moved; what is out of range is cut.
#[test]
fn replay_inbox_folds_splices() {
    let mut log = EventLog::new();
    log.append(splice("next-turn", 0, 0, &[("a", "1")]));
    log.append(splice("next-turn", 1, 0, &[("b", "2")]));
    log.append(splice("next-turn", 2, 0, &[("c", "3")]));
    log.append(splice("next-turn", 1, 1, &[("b", "2-改")]));
    log.append(splice("next-turn", 0, 1, &[]));
    log.append(splice("next-turn", 1, 1, &[]));
    log.append(splice("next-step", 0, 0, &[("c", "3")]));
    let (pending, steer) = replay_inbox(&log);
    assert_eq!(pending.len(), 1);
    assert_eq!((pending[0].id.as_str(), pending[0].text.as_str()), ("b", "2-改"));
    assert_eq!(steer.len(), 1);
    assert_eq!((steer[0].id.as_str(), steer[0].text.as_str()), ("c", "3"));
    let mut bad = EventLog::new();
    bad.append(splice("next-turn", 9, 5, &[("x", "x")]));
    let (p, s) = replay_inbox(&bad);
    assert_eq!(p.len(), 1);
    assert!(s.is_empty());
}

/// What became a message does not come back.
#[test]
fn replay_inbox_drops_claimed_next_step_entries() {
    let mut log = EventLog::new();
    log.append(splice("next-turn", 0, 0, &[("a", "插队的")]));
    log.append(splice("next-turn", 0, 1, &[]));
    log.append(splice("next-step", 0, 0, &[("a", "插队的")]));
    log.append(splice("next-step", 0, 0, &[("a", "插队的")]));
    log.append(splice("next-step", 0, 1, &[]));
    log.append(Event::new("user/message", 0, doc(r#"{"id":"a","content":"插队的"}"#)));
    let (pending, steer) = replay_inbox(&log);
    assert!(pending.is_empty());
    assert!(steer.is_empty());
}

/// What did not become a message stays.
#[test]
fn replay_inbox_keeps_unclaimed_next_step_entries() {
    let mut log = EventLog::new();
    log.append(splice("next-turn", 0, 0, &[("a", "一")]));
    log.append(splice("next-turn", 0, 1, &[]));
    log.append(splice("next-step", 0, 0, &[("a", "一")]));
    log.append(splice("next-turn", 0, 0, &[("b", "二")]));
    log.append(splice("next-turn", 0, 1, &[]));
    log.append(splice("next-step", 1, 0, &[("b", "二")]));
    log.append(splice("next-step", 0, 0, &[("a", "一")]));
    log.append(splice("next-step", 0, 1, &[]));
    log.append(Event::new("user/message", 0, doc(r#"{"id":"a","content":"一"}"#)));
    let (_, steer) = replay_inbox(&log);
    assert_eq!(steer.len(), 1);
    assert_eq!((steer[0].id.as_str(), steer[0].text.as_str()), ("b", "二"));
}

/// The errors of an action on the queue.
#[test]
fn update_queue_errors_match_contract() {
    let remove = doc(r#"{"kind":"remove"}"#);
    let steer = doc(r#"{"kind":"steer"}"#);
    assert_eq!(update_queue(false, "nope", &remove).unwrap_err().code, "queue-item-not-found");
    let mut q = QueueState { pending: Vec::new(), steer: Vec::new(), running: false };
    for action in [&remove, &steer] {
        let job = update_queue(true, "nope", action).unwrap();
        let effect = pump_step(&mut q, false, job).unwrap();
        assert_eq!(effect.reply.unwrap().unwrap_err().code, "queue-item-not-found");
    }
    let err = update_queue(true, "nope", &doc(r#"{"kind":"bogus"}"#)).unwrap_err();
    assert_eq!(err.code, "bad-request");
}

/// Only text can take the place of a queued text.
#[test]
fn update_queue_rejects_non_text_edit() {
    let err = parse_queue_action(&doc(
        r#"{"kind":"edit","content":[{"type":"image","url":"x"}]}"#,
    ))
    .unwrap_err();
    assert_eq!(err.code, "queue-edit-non-text");
    assert_eq!(
        parse_queue_action(&doc(
            r#"{"kind":"edit","content":[{"type":"text","text":"a"},{"type":"text","text":"b"}]}"#
        ))
        .unwrap(),
        QueueAction::Edit("ab".into())
    );
}

/// A queued item with an image comes back with it, and cannot be edited.
#[test]
fn queue_image_entry_replay_and_edit_rejection() {
    let mut log = EventLog::new();
    log.append(Event::new(
        "agent/inbox/spliced",
        1,
        doc(
            r#"{"target":"next-turn","start":0,"removedCount":0,"inserted":[
                {"id":"q1","content":"","images":[{"attachmentId":"sha256:aa","mediaType":"image/png"}]}]}"#,
        ),
    ));
    let mut q = restore_session(&mut log, "gone", 5);
    assert_eq!(q.pending.len(), 1);
    let frames = opening_frames("s", &log, &q);
    assert_eq!(frames.len(), 2);
    assert_eq!(frames[1].method, "session/queue");
    let shown = &pick(&frames[1].payload, &["items"]).as_array().unwrap()[0];
    let first = &pick(shown, &["message", "content"]).as_array().unwrap()[0];
    assert_eq!(pick(first, &["type"]), &Json::text("image"));
    let err = apply_queue_action(&mut q, "q1", QueueAction::Edit("改文本".into())).unwrap_err();
    assert_eq!(err.code, "attachment-error");
    assert_eq!(pick(&err.details, &["reason"]), &Json::text("QUEUE_EDIT_NON_TEXT"));
}

fn prompt(id: &str, text: &str, mode: PromptMode) -> Job {
    Job::Prompt {
        id: id.into(),
        text: text.into(),
        images: Vec::new(),
        files: Vec::new(),
        mode,
        contexts: Vec::new(),
    }
}

fn write_down(log: &mut EventLog, records: Vec<SpliceRecord>) {
    for r in &records {
        log.append(r.event(0));
    }
}

/// What the log records gives the queue back, whatever was done to it.
#[test]
fn queue_survives_restart() {
    let mut log = EventLog::new();
    let mut q = QueueState { pending: Vec::new(), steer: Vec::new(), running: false };
    for (id, text) in [("a", "1"), ("b", "2"), ("c", "3")] {
        let effect = pump_step(&mut q, false, prompt(id, text, PromptMode::Queue)).unwrap();
        assert!(effect.wake && !effect.show_queue);
        write_down(&mut log, effect.records);
    }
    let claimed = claim_next(&mut q).unwrap();
    assert_eq!((claimed.id.as_str(), claimed.target), ("a", Target::NextTurn));
    let taken = taken_record(claimed.target);
    assert_eq!((taken.start, taken.removed, taken.inserted.len()), (0, 1, 0));
    log.append(taken.event(0));
    q.running = true;
    let job = Job::UpdateQueue { item_id: "b".into(), action: QueueAction::Steer };
    let effect = pump_step(&mut q, false, job).unwrap();
    write_down(&mut log, effect.records);
    let (pending, steer) = replay_inbox(&log);
    assert_eq!(pending, q.pending);
    assert_eq!(steer, q.steer);
    assert_eq!(pending[0].id, "c");
    assert_eq!(steer[0].id, "b");
}

/// An item with a file in it is not edited: nothing changes, and nothing is written.
#[test]
fn item_with_a_file_is_not_edited() {
    let mut with_file = item("a", "see the file");
    with_file.files = vec![doc(r#"{"attachmentId":"f","name":"n"}"#)];
    let mut q = QueueState { pending: vec![with_file, item("b", "2")], steer: Vec::new(), running: true };
    let job = Job::UpdateQueue { item_id: "a".into(), action: QueueAction::Edit("x".into()) };
    let effect = pump_step(&mut q, false, job).unwrap();
    assert!(effect.records.is_empty() && effect.show_queue && !effect.wake);
    let refused = effect.reply.unwrap().unwrap_err();
    assert_eq!(refused.code, "attachment-error");
    assert_eq!(q.pending[0].text, "see the file");
    assert_eq!(q.pending[0].files.len(), 1);
}

/// A queue comes back from its log after each job; what is refused writes nothing.
#[test]
fn replay_follows_the_pump() {
    let mut log = EventLog::new();
    let mut q = QueueState { pending: Vec::new(), steer: Vec::new(), running: true };
    let update = |id: &str, action: QueueAction| Job::UpdateQueue { item_id: id.into(), action };
    let jobs = vec![
        prompt("a", "1", PromptMode::Queue),
        prompt("b", "2", PromptMode::Queue),
        prompt("c", "3", PromptMode::Steer),
        update("b", QueueAction::Edit("two".into())),
        Job::Notice { id: "n".into(), text: "told".into(), source: Json::object() },
        update("a", QueueAction::Steer),
        update("zz", QueueAction::Steer),
        update("b", QueueAction::Remove),
    ];
    for job in jobs {
        let effect = pump_step(&mut q, false, job).unwrap();
        if matches!(effect.reply, Some(Err(_))) {
            assert!(effect.records.is_empty());
        }
        write_down(&mut log, effect.records);
        let (pending, steer) = replay_inbox(&log);
        assert_eq!(pending, q.pending);
        assert_eq!(steer, q.steer);
    }
    let ids: Vec<&str> = q.steer.iter().map(|s| s.id.as_str()).collect();
    assert_eq!(ids, vec!["c", "n", "a"]);
    assert!(q.pending.is_empty());
    q.running = false;
    q.pending.push(item("d", "4"));
    let err = apply_queue_action(&mut q, "zz", QueueAction::Steer).unwrap_err();
    assert_eq!(err.code, "queue-item-not-found");
    let err = apply_queue_action(&mut q, "d", QueueAction::Steer).unwrap_err();
    assert_eq!(err.code, "steer-unavailable");
}

/// A prompt that is fed to a session goes before what is queued.
#[test]
fn steered_prompt_goes_first() {
    let mut q = QueueState { pending: vec![item("p", "later")], steer: Vec::new(), running: false };
    let effect = pump_step(&mut q, false, prompt("s", "now", PromptMode::Steer)).unwrap();
    assert_eq!(effect.records[0].target, Target::NextStep);
    assert_eq!(claim_next(&mut q).unwrap().id, "s");
    assert_eq!(claim_next(&mut q).unwrap().id, "p");
    assert!(claim_next(&mut q).is_none());
}

/// A closed session takes nothing up; commands go to the driver.
#[test]
fn pump_hands_commands_on() {
    let mut q = QueueState { pending: Vec::new(), steer: Vec::new(), running: false };
    let effect = pump_step(&mut q, false, Job::SetMode("plan".into())).unwrap();
    assert_eq!(effect.command, Some(DriverCmd::SetMode("plan".into())));
    assert!(effect.records.is_empty());
    assert!(pump_step(&mut q, true, Job::Compact).is_none());
}

/// How a record stands in the log, and what it is read back as.
#[test]
fn splice_items_are_read_back() {
    let one = SpliceItem {
        id: "i".into(),
        text: "t".into(),
        images: vec![doc(r#"{"attachmentId":"x"}"#)],
        files: Vec::new(),
        source: Some(doc(r#"{"kind":"plugin"}"#)),
    };
    assert_eq!(splice_item_from_event(&one.to_json()), one);
    let record =
        SpliceRecord { target: Target::NextStep, start: 2, removed: 1, inserted: vec![one] };
    let payload = record.payload();
    assert_eq!(pick(&payload, &["target"]), &Json::text("next-step"));
    assert_eq!(pick(&payload, &["start"]), &Json::number(2));
    assert_eq!(pick(&payload, &["removedCount"]), &Json::number(1));
    assert_eq!(Target::NextTurn.name(), "next-turn");
}

/// The queue as it is shown: what is fed to the turn, then what waits.
#[test]
fn shown_queue_items() {
    let q = QueueState {
        pending: vec![item("p", "later")],
        steer: vec![SteerInput {
            id: "s".into(),
            text: "now".into(),
            images: Vec::new(),
            files: Vec::new(),
            source: None,
        }],
        running: true,
    };
    let items = queue_items(&q);
    assert_eq!(items.len(), 2);
    let f = queue_frame("id", &q);
    assert_eq!(f.method, "session/queue");
    assert_eq!(f.ty, "server-request");
    assert_eq!(pick(&f.payload, &["items"]).as_array().unwrap().len(), 2);
    let content = message_content("t", &vec![doc(r#"{"attachmentId":"x"}"#)], &Vec::new());
    let blocks = content.as_array().unwrap();
    assert_eq!(pick(&blocks[0], &["type"]), &Json::text("image"));
    assert_eq!(pick(&blocks[1], &["text"]), &Json::text("t"));
}

/// Calls that a crash cut off are answered, and an open turn is closed; a
/// second run adds nothing.
#[test]
fn repair_dangling_calls_closes_dangling_tool_call_and_turn() {
    let mut log = EventLog::new();
    log.append(Event::new("turn/start", 0, doc("{}")));
    log.append(Event::new(
        "assistant/message",
        0,
        doc(
            r#"{"content":"","tool_calls":[{"id":"callu_1","name":"ask_user_question","arguments":{}}]}"#,
        ),
    ));
    log.append(Event::new("tool/call", 0, doc(r#"{"name":"ask_user_question","arguments":{}}"#)));
    repair_dangling_calls(&mut log, "placeholder", 7);
    assert_eq!(log.events.len(), 5);
    let r = &log.events[3];
    assert_eq!(r.kind, "tool/result");
    assert_eq!(pick(&r.data, &["call"]), &Json::number(3));
    assert_eq!(pick(&r.data, &["id"]), &Json::text("callu_1"));
    assert_eq!(pick(&r.data, &["success"]), &Json::Bool(false));
    assert_eq!(pick(&r.data, &["output"]), &Json::text("placeholder"));
    let t = &log.events[4];
    assert_eq!(t.kind, "turn/end");
    assert!(t.data.get("cancelled").is_some());
    repair_dangling_calls(&mut log, "placeholder", 8);
    assert_eq!(log.events.len(), 5);

    let mut closed = EventLog::new();
    closed.append(Event::new("turn/start", 0, doc("{}")));
    closed.append(Event::new("tool/call", 0, doc(r#"{"name":"bash","arguments":{}}"#)));
    closed.append(Event::new("turn/end", 0, doc(r#"{"cancelled":"token"}"#)));
    repair_dangling_calls(&mut closed, "placeholder", 7);
    assert_eq!(closed.events.len(), 4);
    assert_eq!(closed.events[3].kind, "tool/result");
    assert_eq!(pick(&closed.events[3].data, &["call"]), &Json::number(2));
    assert_eq!(pick(&closed.events[3].data, &["id"]), &Json::text(""));
}

/// A repair puts in a result for each call that has none, in order, and nothing else.
#[test]
fn repair_puts_in_what_is_missing() {
    let mut log = EventLog::new();
    for (kind, data) in [
        ("turn/start", "{}"),
        ("tool/call", r#"{"name":"a"}"#),
        ("tool/call", r#"{"name":"b"}"#),
        ("tool/call", r#"{"name":"c"}"#),
        ("tool/result", r#"{"call":3}"#),
        ("turn/error", "{}"),
    ] {
        log.append(Event::new(kind, 0, doc(data)));
    }
    repair_dangling_calls(&mut log, "gone", 7);
    let added: Vec<Option<u64>> = log.events[6..].iter().map(|e| e.data.u64_at("call")).collect();
    assert_eq!(added, vec![Some(2), Some(4)]);
    assert!(log.events[6..].iter().all(|e| e.kind == "tool/result"));
}

/// A queue is not changed by the repair of its log.
#[test]
fn repair_keeps_the_queue() {
    let mut log = EventLog::new();
    log.append(splice("next-turn", 0, 0, &[("a", "1")]));
    log.append(Event::new("turn/start", 0, doc("{}")));
    let q = restore_session(&mut log, "gone", 1);
    assert_eq!(q.pending, replay_inbox(&log).0);
    assert_eq!(q.pending[0].id, "a");
    assert!(!q.running);
    assert_eq!(log.events.last().unwrap().kind, "turn/end");
}

fn full() -> Option<PresetSpec> {
    Some(PresetSpec {
        name: "full-access".into(),
        sandbox: "full-access".into(),
        approval: "never".into(),
    })
}

/// The first turn of a session pins what it may do, and no later one does.
#[test]
fn new_session_pins_default_permission_preset() {
    let mut log = EventLog::new();
    let events = pin_permission(&log, &full(), 3);
    assert_eq!(events[0].kind, "permission/preset");
    assert!(events.iter().any(|e| e.kind == "sandbox/mode"));
    assert!(events.iter().any(|e| e.kind == "approval/policy"));
    for e in events {
        log.append(e);
    }
    assert!(pin_permission(&log, &full(), 4).is_empty());
    assert!(pin_permission(&EventLog::new(), &None, 4).is_empty());
}

/// A driver runs one turn after another, and says so.
#[test]
fn queue_serializes_turns() {
    let log = EventLog::new();
    let mut q = QueueState { pending: Vec::new(), steer: Vec::new(), running: false };
    let (phase, _) =
        driver_step(Phase::Starting, &mut q, &log, &None, 0, DriverInput::Started { plan: None });
    assert_eq!(phase, Phase::Ready);
    enqueue(&mut q, item("a", "1"));
    enqueue(&mut q, item("b", "2"));
    let (phase, actions) = driver_step(phase, &mut q, &log, &None, 0, DriverInput::Drained);
    assert_eq!(phase, Phase::Running);
    assert!(q.running);
    assert!(actions.iter().any(|a| matches!(a, DriverAction::Turn(c) if c.id == "a")));
    assert!(actions.contains(&DriverAction::Status(true)));
    let (phase, actions) = driver_step(
        phase,
        &mut q,
        &log,
        &None,
        0,
        DriverInput::TurnEnded { has_parent: false, titled: true },
    );
    assert!(!q.running);
    assert!(actions.contains(&DriverAction::Status(false)));
    let (phase, actions) = driver_step(phase, &mut q, &log, &None, 0, DriverInput::Drained);
    assert!(actions.iter().any(|a| matches!(a, DriverAction::Turn(c) if c.id == "b")));
    let (phase, _) = driver_step(
        phase,
        &mut q,
        &log,
        &None,
        0,
        DriverInput::TurnEnded { has_parent: false, titled: true },
    );
    let (phase, actions) = driver_step(phase, &mut q, &log, &None, 0, DriverInput::Drained);
    assert_eq!(phase, Phase::Waiting);
    assert_eq!(actions, vec![DriverAction::Wait]);
    let (phase, actions) = driver_step(phase, &mut q, &log, &None, 0, DriverInput::Disconnected);
    assert_eq!(phase, Phase::Stopped);
    assert_eq!(actions, vec![DriverAction::Stop]);
}

/// Contexts keep the ids that they have, and get one where they have none.
#[test]
fn contexts_have_ids() {
    let all = prepare_contexts(vec![
        doc(r#"{"id":"ctx-a","content":"x"}"#),
        doc(r#"{"content":"y"}"#),
    ]);
    assert_eq!(all[0].str_at("id"), Some("ctx-a"));
    assert_eq!(all[1].str_at("id").unwrap().len(), 36);
}

/// A title is made from the first message, where the session has none.
#[test]
fn title_is_made_once() {
    let mut log = EventLog::new();
    log.append(Event::new("user/message", 0, doc(r#"{"content":"hello"}"#)));
    assert_eq!(title_trigger(&log, false, false).as_deref(), Some("hello"));
    assert_eq!(title_trigger(&log, false, true), None);
    assert_eq!(title_trigger(&log, true, false), None);
}

/// Numbers follow one another, whatever is written and mended.
#[test]
fn concurrent_splice_and_turn_keeps_log_contiguous() {
    let mut log = EventLog::new();
    log.append(Event::new("turn/start", 0, doc("{}")));
    log.append(splice("next-turn", 0, 0, &[("a", "1")]));
    log.append(Event::new("tool/call", 0, doc(r#"{"name":"bash"}"#)));
    repair_dangling_calls(&mut log, "gone", 1);
    let seqs: Vec<u64> = log.events.iter().map(|e| e.seq).collect();
    assert_eq!(seqs, vec![1, 2, 3, 4, 5]);
}
