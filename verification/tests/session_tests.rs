use liuma_core::attachments::{
    attachment_reply, collect_image_refs, find_reference, image_extension, to_base64,
};
use liuma_core::billing::{
    auth_headers, billing_body, billing_headers, billing_snapshot, body_snippet, models_in,
    models_url, BillingParts,
};
use liuma_core::codec::defaults_json;
use liuma_core::demo::{demo_fake_segments, AnswerPart};
use liuma_core::events::{Event, EventLog};
use liuma_core::export::{
    build_archive, export_paths_fit, export_session_zip, fits_entry_path, Descendant, Media,
    ZipEntry,
};
use liuma_core::fork::{fork_check, fork_cut, fork_log, forked_event, forked_lines};
use liuma_core::frames::{
    added_frame, event_frame, host_baseline, mux_baseline, removed_frame, resolved_frame,
    stats_frame, status_frame, title_frame, trajectory_frame, Attached,
};
use liuma_core::host::{AppHost, BaseConfig, WorkspaceConfig};
use liuma_core::json::{parse, Json};
use liuma_core::lineage::{
    derive_list_facts, read_session_header, sort_sessions, write_session_header, Header,
};
use liuma_core::logs::{collapse, event_read, event_trace, session_anchor_index};
use liuma_core::pages::{
    job_json, presets, running_job, search_value, session_skills, stale_sessions, Hit, JobRecord,
    Manifest, PresetFile, Skill,
};
use liuma_core::paths::project_key;
use liuma_core::proto::{SessionEvent, SessionSummary};
use liuma_core::pump::{frame, DriverCmd};
use liuma_core::queue::QueueState;
use liuma_core::driver::{changes_queue, command_event, compaction_event, title_of, Compaction};
use liuma_core::service::{
    echoed, jobs_frames, last_mode, legacy_target, picked_directory, session_start_event,
    subagent_notice,
};
use liuma_core::sessions::{
    ancestors, children, delegation_events, descendants_of, fork_parent, resumable_child,
    session_trace,
};
use liuma_core::settings::{
    builtin_provider, provider_catalog, BillingKind, BillingSnapshot, SettingsFile,
    WorkspaceDefaults,
};
use liuma_core::strmap::StrMap;
use liuma_core::time::{civil_from_days, iso8601};
use liuma_core::titles::{
    claim_once, frame_title_messages, made_title, release, stream_text, title_step,
    title_system_prompt, StreamPart, TitleStep,
};
use liuma_core::workspaces::Workspace;

fn doc(text: &str) -> Json {
    parse(text).expect("a document")
}

fn pick<'a>(j: &'a Json, path: &[&str]) -> &'a Json {
    let mut at = j;
    for key in path {
        at = at.get(key).expect("a member");
    }
    at
}

fn log_of(events: &[(&str, &str)]) -> EventLog {
    let mut log = EventLog::new();
    for (kind, data) in events {
        log.append(Event::new(kind, 0, doc(data)));
    }
    log
}

fn two_turns() -> EventLog {
    log_of(&[
        ("turn/start", "{}"),
        ("user/message", r#"{"content":"第一轮"}"#),
        ("turn/end", "{}"),
        ("turn/start", "{}"),
        ("user/message", r#"{"content":"第二轮"}"#),
        ("turn/end", "{}"),
    ])
}

fn temp_host() -> AppHost {
    AppHost::new_at(
        Workspace { path: "/tmp/first".into(), name: Some("first".into()) },
        true,
        BaseConfig {
            model: "m".into(),
            dialect: "d".into(),
            models: None,
            reasoning_effort: None,
        },
        SettingsFile::default(),
        None,
        &Vec::new(),
        &Vec::new(),
    )
}

/// A fork takes whole turns over.
#[test]
fn fork_session_truncates_at_turn_boundary() {
    let mut log = two_turns();
    assert_eq!(fork_cut(&log, Some(2)), Ok(3));
    assert_eq!(fork_cut(&log, Some(100_000)), Ok(6));
    assert_eq!(fork_cut(&log, None), Ok(6));
    let forked = forked_event("p", 3, 1);
    assert_eq!(forked.kind, "session/forked");
    assert_eq!(forked.data.u64_at("atSeq"), Some(3));
    assert_eq!(forked.data.str_at("parent"), Some("p"));
    log.append(Event::new("turn/start", 0, doc("{}")));
    assert_eq!(fork_cut(&log, Some(7)).unwrap_err().code, "fork-unavailable");
    let lines: Vec<String> = (1..=4).map(|n| format!(r#"{{"seq":{n}}}"#)).collect();
    assert_eq!(forked_lines(&lines, 3), lines[..3].to_vec());
    assert_eq!(forked_lines(&lines, 9), lines);
    let copy = fork_log(&log, 3, "p", 5);
    assert_eq!(copy.events.len(), 4);
    assert_eq!(copy.events[..3], log.events[..3]);
    assert_eq!((copy.events[3].kind.as_str(), copy.events[3].seq), ("session/forked", 4));
    assert_eq!(fork_log(&two_turns(), 9, "p", 5).events.len(), 7);
}

/// A running session is not forked.
#[test]
fn fork_while_running_is_rejected() {
    assert_eq!(fork_check("s", true, true).unwrap_err().code, "bad-request");
    assert!(fork_check("s", true, false).is_ok());
    assert_eq!(fork_check("s", false, false).unwrap_err().code, "session-not-found");
    assert!(fork_cut(&EventLog::new(), None).is_ok());
}

/// Where a session comes from, and what comes from it.
#[test]
fn fork_lineage_trace() {
    let mut parents: StrMap<String> = StrMap::new();
    parents.insert("child".into(), "root".into());
    parents.insert("grand".into(), "child".into());
    let ids = vec!["root".to_string(), "child".into(), "grand".into()];
    let trace = session_trace(&parents, &ids, "child");
    assert_eq!(pick(&trace, &["ancestors"]), &doc(r#"["root"]"#));
    assert_eq!(pick(&trace, &["children"]), &doc(r#"["grand"]"#));
    assert_eq!(ancestors(&parents, "grand"), vec!["child", "root"]);
    assert_eq!(children(&parents, &ids, "root"), vec!["child"]);
    assert_eq!(descendants_of(&parents, &ids, "root"), vec!["child", "grand"]);
    let mut log = two_turns();
    assert_eq!(fork_parent(&log), None);
    log.append(forked_event("root", 6, 1));
    assert_eq!(fork_parent(&log).as_deref(), Some("root"));
    parents.insert("root".into(), "grand".into());
    assert!(ancestors(&parents, "root").len() <= 3);
}

/// An event is read with those around it, and traced to what it was made from.
#[test]
fn event_read_and_trace() {
    let log = two_turns();
    let out = event_read(&log, "s", 2, 1, 2).unwrap();
    assert_eq!(pick(&out, &["event", "type"]), &Json::text("user/message"));
    assert_eq!(pick(&out, &["event", "data", "content"]), &Json::text("第一轮"));
    assert_eq!(pick(&out, &["before"]).as_array().unwrap().len(), 1);
    assert_eq!(pick(&out, &["after"]).as_array().unwrap().len(), 2);
    let out = event_trace(&log, "s", 2).unwrap();
    assert_eq!(out.u64_at("seq"), Some(2));
    assert!(pick(&out, &["sourceEventSeqs"]).as_array().is_some());
    assert!(event_read(&log, "s", 999, 0, 0).is_err());
    assert!(event_trace(&log, "s", 999).is_err());
}

/// The index of what the user said has one line each.
#[test]
fn anchors_are_single_lines() {
    assert_eq!(collapse("  a \n\t b  "), "a b");
    let log = log_of(&[
        ("user/message", r#"{"content":"one\ntwo"}"#),
        ("user/message", r#"{"content":"x","source":{"kind":"plugin"}}"#),
    ]);
    assert_eq!(session_anchor_index(&log), vec![(1, "one two".to_string())]);
}

/// What a child may do is what its parent may, and it may not ask.
#[test]
fn subagent_delegation_permission_seed() {
    let events = delegation_events("read-only", 1);
    assert_eq!(events[0].kind, "sandbox/mode");
    assert_eq!(events[0].data.str_at("mode"), Some("read-only"));
    assert_eq!(events[0].data.str_at("source"), Some("delegation"));
    assert!(events
        .iter()
        .any(|e| e.kind == "approval/policy" && e.data.str_at("policy") == Some("never")));
}

/// A child that was cut off is told from one that was settled.
#[test]
fn subagent_children_resume_after_restart() {
    let open = log_of(&[
        ("subagent/descriptor", r#"{"label":"l","prompt":"p"}"#),
        ("turn/start", "{}"),
    ]);
    let none = log_of(&[("turn/start", "{}")]);
    assert!(resumable_child(&none).is_none());
    let r = resumable_child(&open).unwrap();
    assert!(r.interrupted);
    assert_eq!((r.label.as_str(), r.prompt.as_str()), ("l", "p"));
    let settled = log_of(&[
        ("subagent/descriptor", r#"{"label":"l"}"#),
        ("subagent/settled", "{}"),
    ]);
    assert!(!resumable_child(&settled).unwrap().interrupted);
}

/// The header of a session names its parent, and is read back.
#[test]
fn session_header_is_read_back() {
    let text = write_session_header(&Some("p".into()), &Some("fork".into()));
    let want = Header { parent: Some("p".into()), origin: Some("fork".into()) };
    assert_eq!(read_session_header(&text), want);
    assert_eq!(read_session_header("{"), Header { parent: None, origin: None });
    let (blank, title) = derive_list_facts("{\"type\":\"turn/start\"}\n{\"type\":\"user/message\",\"data\":{\"content\":\"hi\"}}\n");
    assert!(!blank);
    assert_eq!(title.as_deref(), Some("hi"));
    assert_eq!(derive_list_facts(""), (true, None));
}

fn summary(id: &str, updated_at: u64) -> SessionSummary {
    SessionSummary {
        session_id: id.into(),
        updated_at,
        running: false,
        blank: false,
        parent_session_id: None,
        origin: None,
        cwd: None,
        agent_preset: None,
        projections: None,
    }
}

/// The latest session comes first.
#[test]
fn sessions_are_listed_latest_first() {
    let all = sort_sessions(vec![summary("a", 1), summary("b", 3), summary("c", 2)]);
    let ids: Vec<&str> = all.iter().map(|s| s.session_id.as_str()).collect();
    assert_eq!(ids, vec!["b", "c", "a"]);
}

fn entries_of(bytes: Vec<u8>) -> Vec<(String, Vec<u8>)> {
    let mut zip = zip::ZipArchive::new(std::io::Cursor::new(bytes)).unwrap();
    let mut out = Vec::new();
    for i in 0..zip.len() {
        let mut entry = zip.by_index(i).unwrap();
        let mut held = Vec::new();
        std::io::Read::read_to_end(&mut entry, &mut held).unwrap();
        out.push((entry.name().to_string(), held));
    }
    out
}

/// An export holds the log of the session and those of what comes from it.
#[test]
fn export_zip_contains_root_and_descendants() {
    let alone = export_session_zip("根会话", &Vec::new(), Vec::new()).unwrap();
    assert_eq!(
        entries_of(alone),
        vec![("session.jsonl".to_string(), "根会话".as_bytes().to_vec())]
    );
    let all = vec![
        Descendant { id: "c".into(), text: "one".into() },
        Descendant { id: "g".into(), text: "two".into() },
    ];
    let names: Vec<String> = entries_of(export_session_zip("根会话", &all, Vec::new()).unwrap())
        .into_iter()
        .map(|e| e.0)
        .collect();
    assert_eq!(
        names,
        vec!["session.jsonl", "descendants/c/session.jsonl", "descendants/g/session.jsonl"]
    );
}

/// An export holds the images that the log names.
#[test]
fn export_zip_includes_media_entries() {
    let mut refs = Vec::new();
    let text = "{\"type\":\"user/message\",\"data\":{\"content\":[{\"type\":\"image\",\"attachment\":{\"attachmentId\":\"sha256:aa\",\"mediaType\":\"image/png\"}}]}}\n";
    collect_image_refs(text, &mut refs);
    collect_image_refs(text, &mut refs);
    assert_eq!(refs.len(), 1);
    assert_eq!(refs[0].str_at("attachmentId"), Some("sha256:aa"));
    let extension = image_extension("image/png").unwrap();
    assert_eq!(extension, "png");
    let media =
        vec![Media { attachment_id: "sha256:aa".into(), extension, bytes: vec![1, 2, 3] }];
    let all = entries_of(export_session_zip("log", &Vec::new(), media).unwrap());
    assert_eq!(all[1], ("media/sha256:aa.png".to_string(), vec![1, 2, 3]));
}

/// Entries of an archive come back as they were put in.
#[test]
fn archive_holds_what_was_put_in() {
    let entries = vec![
        ZipEntry { path: "a/b".into(), bytes: vec![0, 255, 7] },
        ZipEntry { path: "empty".into(), bytes: Vec::new() },
    ];
    let held = entries_of(build_archive(&entries).unwrap());
    assert_eq!(held, vec![("a/b".to_string(), vec![0, 255, 7]), ("empty".to_string(), Vec::new())]);
    assert!(fits_entry_path(&"x".repeat(65_535)) && !fits_entry_path(&"x".repeat(65_536)));
    let long = vec![Descendant { id: "é".repeat(65_509), text: String::new() }];
    assert!(export_paths_fit("", &long, &Vec::new()));
    let longer = vec![Descendant { id: "x".repeat(65_510), text: String::new() }];
    assert!(!export_paths_fit("", &longer, &Vec::new()));
    let wide =
        vec![Media { attachment_id: "é".repeat(32_764), extension: "png".into(), bytes: vec![] }];
    assert!(!export_paths_fit("", &Vec::new(), &wide));
    let twice = vec![
        ZipEntry { path: "a".into(), bytes: vec![1] },
        ZipEntry { path: "a".into(), bytes: vec![2] },
    ];
    assert_eq!(build_archive(&twice).unwrap_err().code, "internal");
    assert!(build_archive(&Vec::new()).is_ok());
    let kin = || Descendant { id: "c".into(), text: String::new() };
    assert!(export_session_zip("", &vec![kin(), kin()], Vec::new()).is_err());
}

/// Only what a session names is handed over.
#[test]
fn attachments_are_handed_over() {
    let log = log_of(&[(
        "user/message",
        r#"{"content":[{"type":"image","attachment":{"attachmentId":"x","mediaType":"image/png"}}]}"#,
    )]);
    let reference = find_reference(&log, "x").unwrap();
    let reply = attachment_reply(reference, &b"hi".to_vec());
    assert_eq!(reply.str_at("data"), Some("aGk="));
    let err = find_reference(&log, "y").unwrap_err();
    assert_eq!(err.details.str_at("reason"), Some("ATTACHMENT_NOT_REFERENCED"));
    assert_eq!(to_base64(&vec![0xfb, 0xff]), "+/8=");
}

/// The key of a path is readable, and a directory name.
#[test]
fn project_keys() {
    assert_eq!(
        project_key("/Volumes/DATA/projects/quant-forge"),
        "--Volumes-DATA-projects-quant-forge--"
    );
    assert_eq!(project_key("C:\\a b"), "--C-a~0020b--");
    assert!(project_key(&"x/".repeat(500)).len() < 260);
}

/// Days and times of the calendar.
#[test]
fn calendar_values() {
    assert_eq!(civil_from_days(0), (1970, 1, 1));
    assert_eq!(civil_from_days(-1), (1969, 12, 31));
    assert_eq!(civil_from_days(19_782), (2024, 2, 29));
    assert_eq!(iso8601(0), "1970-01-01T00:00:00.000Z");
    assert_eq!(iso8601(1_709_210_096_007), "2024-02-29T12:34:56.007Z");
    assert_eq!(iso8601(253_402_300_799_999), "9999-12-31T23:59:59.999Z");
    let moments: Vec<u64> = vec![0, 1, 999, 1000, 86_399_999, 86_400_000, 1_709_210_096_007];
    for pair in moments.windows(2) {
        let (a, b) = (iso8601(pair[0]), iso8601(pair[1]));
        assert!(a < b && a.len() == 24 && b.len() == 24);
    }
}

/// How a provider is asked for what is left, and what comes of it.
#[test]
fn glm_usage_preset_raw_auth_and_filter_paths() {
    let glm = provider_catalog().into_iter().find(|e| e.id == "glm").unwrap();
    let cfg = glm.billing.unwrap();
    let headers = billing_headers(&cfg, &glm.dialect, "glm-test-token");
    assert_eq!(headers[0].name.to_lowercase(), "authorization");
    assert_eq!(headers[0].value, "glm-test-token");
    let snapshot = billing_snapshot(
        BillingKind::Usage,
        BillingParts {
            amount: None,
            currency: None,
            pct_5h: Some(15),
            pct_7d: Some(53),
            resets: Some("1789246955101".into()),
            resets_7d: Some("1789485024985".into()),
        },
        7,
        "{}",
    )
    .unwrap();
    assert_eq!(
        snapshot,
        BillingSnapshot::Usage {
            fetched_at_ms: 7,
            pct_5h: Some(15),
            pct_7d: Some(53),
            resets: Some("1789246955101".into()),
            resets_7d: Some("1789485024985".into()),
        }
    );
    let nothing = BillingParts {
        amount: None,
        currency: None,
        pct_5h: None,
        pct_7d: None,
        resets: None,
        resets_7d: None,
    };
    assert!(billing_snapshot(BillingKind::Balance, nothing, 7, "{}").is_err());
    assert!(billing_body("<html>").is_err());
    assert_eq!(body_snippet("short"), "short");
}

/// How a provider is asked for its models.
#[test]
fn models_are_asked_for() {
    assert_eq!(models_url("https://h/v1/"), "https://h/v1/models");
    let bearer = auth_headers(false, "openai-completions", "k");
    assert_eq!(bearer[0].value, "Bearer k");
    assert!(auth_headers(false, "anthropic-messages", "k").iter().any(|h| h.name == "x-api-key"));
    assert_eq!(models_in(&doc(r#"{"data":[{"id":"a"},{"x":1},{"id":"b"}]}"#)), vec!["a", "b"]);
}

/// What a client starts from is in the order of the sessions.
#[test]
fn mux_baseline_carries_mode_terminal_state() {
    let queue = || QueueState { pending: Vec::new(), steer: Vec::new(), running: false };
    let log = log_of(&[
        ("session/mode", r#"{"mode":"plan"}"#),
        ("turn/start", "{}"),
        ("session/mode", r#"{"mode":"standard"}"#),
    ]);
    assert_eq!(last_mode(&log), Some(2));
    assert_eq!(last_mode(&EventLog::new()), None);
    let mode = frame("session/event", Json::object());
    let frames = mux_baseline(
        vec![
            Attached { id: "b".into(), last_seq: 3, queue: queue(), mode: Some(mode) },
            Attached { id: "a".into(), last_seq: 1, queue: queue(), mode: None },
        ],
        vec![frame("question/requested", Json::object())],
    );
    let methods: Vec<&str> = frames.iter().map(|f| f.method.as_str()).collect();
    assert_eq!(
        methods,
        vec!["session/subscribed", "session/subscribed", "session/event", "question/requested"]
    );
    assert_eq!(frames[0].payload.str_at("sessionId"), Some("a"));
    assert_eq!(host_baseline()[0].method, "host/workspace-changed");
    assert_eq!(title_frame("s", "t").payload.str_at("value"), Some("t"));
}

/// A page of history has the title of the session, or that of its log.
#[test]
fn history_has_a_title() {
    let mut host = temp_host();
    let event = || SessionEvent {
        ty: "turn/start".into(),
        seq: 1,
        time: 0,
        data: Json::object(),
        source_event_seqs: None,
        surface_op: None,
        ignorable: None,
    };
    let log = two_turns();
    let own = title_of(&log);
    let page = host.history("s", None, own.as_deref(), vec![event()], 4, 6);
    assert!(page.has_more);
    assert_eq!(page.events.len(), 1);
    let p = page.projections.unwrap();
    assert_eq!(p.as_of_seq, 6);
    assert_eq!(p.values.str_at("title"), Some("第一轮"));
    host.rename("s", "Named").unwrap();
    let earlier = host.history("s", Some(5), own.as_deref(), vec![event()], 2, 6);
    assert!(earlier.has_more && earlier.projections.is_none());
    let page = host.history("s", None, None, Vec::new(), 0, 0);
    assert!(!page.has_more);
    assert_eq!(page.projections.unwrap().as_of_seq, -1);
    assert!(host.history("t", None, None, Vec::new(), 0, 0).projections.is_none());
}

fn job(id: &str, status: &str) -> JobRecord {
    JobRecord {
        session_id: id.into(),
        task: "t".into(),
        status: status.into(),
        started_at: 1,
        ended_at: None,
        prompt: String::new(),
    }
}

/// Work in the background is shown as it stands.
#[test]
fn subagent_jobs_frame_broadcasts_on_status_change() {
    let all = vec![job("a", "idle"), job("b", "running")];
    assert_eq!(job_json(&all[0]).str_at("status"), Some("completed"));
    assert_eq!(job_json(&all[0]).str_at("detail"), Some("可继续"));
    assert_eq!(job_json(&job("c", "cancelled")).str_at("status"), Some("killed"));
    assert_eq!(running_job(&all, "b"), Some(1));
    assert_eq!(running_job(&all, "a"), None);
    let (shown, status) = jobs_frames("p", &all);
    assert_eq!(shown.method, "session/jobs");
    assert_eq!(pick(&shown.payload, &["jobs"]).as_array().unwrap().len(), 2);
    assert_eq!(status[0].payload.bool_at("running"), Some(false));
    assert_eq!(status[1].payload.bool_at("running"), Some(true));
    match subagent_notice("done".into(), Json::object()) {
        liuma_core::pump::Job::Notice { id, text, .. } => {
            assert_eq!(id.len(), 36);
            assert_eq!(text, "done");
        }
        other => panic!("{other:?}"),
    }
}

/// Hits of a search are those of the session that was asked for.
#[test]
fn search_hits_are_of_the_session() {
    let hit = |s: &str| Hit { session: s.into(), seq: 1, kind: "k".into(), content: "c".into() };
    let out = search_value("q", &vec![hit("a"), hit("b")], Some("b"));
    assert_eq!(pick(&out, &["hits"]).as_array().unwrap().len(), 1);
    let gone = stale_sessions(&vec!["a".into(), "b".into()], &vec!["b".into()]);
    assert_eq!(gone, vec!["a"]);
}

/// Only skills that a user may call are listed, and none in a child.
#[test]
fn session_skills_lists_user_invocable_only() {
    let skill = |name: &str, user: bool, model: bool| Skill {
        name: name.into(),
        description: format!("skill {name}"),
        user_invocable: user,
        model_invocable: model,
    };
    let all = vec![
        skill("model-ok", true, true),
        skill("user-only", true, false),
        skill("hidden", false, true),
    ];
    let skills = session_skills(None, &all);
    let names: Vec<&str> = skills.iter().filter_map(|s| s.str_at("name")).collect();
    assert_eq!(names, vec!["model-ok", "user-only"]);
    assert_eq!(skills[1].bool_at("modelInvocable"), Some(false));
    assert_eq!(skills[0].bool_at("modelInvocable"), Some(true));
    assert_eq!(skills[0].str_at("description"), Some("skill model-ok"));
    assert!(session_skills(Some("subagent"), &all).is_empty());
}

/// Presets of one id count once.
#[test]
fn presets_count_once() {
    let file = |id: &str| PresetFile {
        id: id.into(),
        manifest: Ok(Manifest { display_name: Some("N".into()), description: Json::Null }),
    };
    let (shown, ids) = presets(&vec![file("standard")], &vec![file("standard"), file("mine")]);
    assert_eq!(ids, vec!["standard", "mine"]);
    assert_eq!(shown.len(), 2);
}

/// Titles are asked for once at a time, and taken from what was streamed.
#[test]
fn first_prompt_generates_llm_title_and_broadcasts() {
    let mut taken: StrMap<bool> = StrMap::new();
    assert!(claim_once(&mut taken, "s"));
    assert!(!claim_once(&mut taken, "s"));
    release(&mut taken, "s");
    assert!(claim_once(&mut taken, "s"));
    let parts = vec![
        StreamPart::Chunk("Just".into()),
        StreamPart::Other,
        StreamPart::Chunk("file".into()),
        StreamPart::Other,
    ];
    assert_eq!(stream_text(&parts), "Justfile");
    assert_eq!(title_step(true, true, "Justfile", None), TitleStep::Skip);
    assert_eq!(title_step(false, true, "Justfile", None), TitleStep::Apply("Justfile".into()));
    assert_eq!(title_step(false, false, "", Some("k")), TitleStep::Ask("k".into()));
    assert!(matches!(title_step(false, false, "", None), TitleStep::Fail(_)));
    assert_eq!(made_title("T"), TitleStep::Apply("T".into()));
    assert!(!title_system_prompt().is_empty());
    assert!(frame_title_messages("hello").as_array().is_some());
}

/// Old logs go to directories of their own.
#[test]
fn loose_logs_are_moved() {
    assert_eq!(
        legacy_target("--w--", "s-1.jsonl", false).unwrap(),
        vec!["--w--", "s-1", "session.jsonl"]
    );
    assert_eq!(
        legacy_target("--w--", "a.b.jsonl", true).unwrap(),
        vec!["--w--", ".archive", "a.b", "session.jsonl"]
    );
    assert!(legacy_target("--w--", ".jsonl", false).is_none());
    assert!(legacy_target("--w--", "s.json", false).is_none());
}

/// A host without providers shows diagrams first.
#[test]
fn demo_answers() {
    let all = demo_fake_segments();
    assert_eq!(all.len(), 20);
    assert_eq!(all[0].len(), 9);
    let mut text = String::new();
    for part in &all[0] {
        if let AnswerPart::Chunk(c) = part {
            text.push_str(c);
        }
    }
    assert_eq!(all[0][6], AnswerPart::Message(Json::object().with("content", Json::text(&text))));
    assert_eq!(all[1], all[19]);
    assert_eq!(all[1][0], AnswerPart::Chunk("(fake echo) ".into()));
}

/// A session is taken up with what its workspace says.
#[test]
fn attach_plans_the_assembly() {
    let mut host = temp_host();
    let cfg = WorkspaceConfig {
        model: Some("toml".into()),
        preset: None,
        reasoning_effort: None,
        base_url: None,
        dialect: None,
        context_window: None,
    };
    let missing = host.attach("ghost", false, false, &cfg, &None, None, 10);
    assert_eq!(missing.unwrap_err().code, "session-not-found");
    let plan = host
        .attach("s", true, false, &cfg, &Some("subagent".into()), Some("key".into()), 10)
        .unwrap()
        .unwrap();
    assert_eq!(plan.model, "toml");
    assert_eq!(plan.provider, "deepseek");
    assert_eq!(plan.base_url, builtin_provider().base_url);
    assert_eq!(plan.context_window, 10);
    assert!(!plan.skills);
    assert!(host.attach("s", true, true, &cfg, &None, None, 10).unwrap().is_none());
}

/// What holds for workspaces stands under their keys.
#[test]
fn workspace_defaults_are_written() {
    let mut all: StrMap<WorkspaceDefaults> = StrMap::new();
    all.insert("--w--".into(), WorkspaceDefaults { model: Some("m".into()), ..Default::default() });
    let j = defaults_json(&all);
    assert_eq!(pick(&j, &["--w--", "model"]), &Json::text("m"));
}

/// What is shown after a write is what was written, whatever came behind it.
#[test]
fn echo_is_what_was_written() {
    let log = two_turns();
    assert_eq!(echoed(&log, Some(2)), Some(1));
    assert_eq!(echoed(&log, None), Some(5));
    assert_eq!(echoed(&log, Some(99)), None);
    assert_eq!(echoed(&EventLog::new(), None), None);
    assert!(changes_queue("agent/inbox/spliced") && !changes_queue("turn/end"));
}

/// What commands leave in the log.
#[test]
fn commands_leave_events() {
    let e = command_event(&DriverCmd::SetMode("plan".into()), 3).unwrap();
    assert_eq!((e.kind.as_str(), e.data.str_at("mode")), ("session/mode", Some("plan")));
    let e = command_event(&DriverCmd::SetPermission("read-only".into()), 3).unwrap();
    assert_eq!((e.kind.as_str(), e.data.str_at("mode")), ("sandbox/mode", Some("read-only")));
    let e = command_event(&DriverCmd::SetApproval("never".into()), 3).unwrap();
    assert_eq!((e.kind.as_str(), e.data.str_at("policy")), ("approval/policy", Some("never")));
    assert!(command_event(&DriverCmd::Compact, 3).is_none());
    assert!(compaction_event(&Compaction::Done(4), 3).is_none());
    let e = compaction_event(&Compaction::Nothing, 3).unwrap();
    assert_eq!(e.data.str_at("message"), Some("No compactable history yet."));
    let e = compaction_event(&Compaction::Failed("x".into()), 3).unwrap();
    assert_eq!((e.data.str_at("kind"), e.data.str_at("message")), (Some("error"), Some("x")));
    let e = session_start_event("hello", 3);
    assert_eq!(pick(&e.data, &["source", "form"]), &Json::text("session-start"));
}

/// The frames of sessions.
#[test]
fn frames_say_what_they_are() {
    let event = SessionEvent {
        ty: "turn/start".into(),
        seq: 1,
        time: 0,
        data: Json::object(),
        source_event_seqs: None,
        surface_op: None,
        ignorable: None,
    };
    let f = event_frame("s", event);
    assert_eq!((f.ty.as_str(), f.method.as_str()), ("server-request", "session/event"));
    assert_eq!(f.rpc_id.len(), 36);
    assert_eq!(pick(&f.payload, &["event", "seq"]), &Json::number(1));
    let f = resolved_frame("s", "q", "approved");
    assert_eq!(f.payload.str_at("questionRpcId"), Some("q"));
    assert_eq!(status_frame("s", true).payload.bool_at("running"), Some(true));
    assert_eq!(removed_frame("s").method, "host/session-removed");
    let added = liuma_core::proto::HostSessionAdded {
        session_id: "s".into(),
        blank: true,
        parent_session_id: None,
        origin: None,
        cwd: None,
        agent_preset: None,
    };
    assert_eq!(added_frame(&added).payload.bool_at("blank"), Some(true));
    let stats = stats_frame("s", Json::object(), Some(Json::number(3)));
    assert_eq!(pick(&stats.payload, &["stats", "lastTurn"]), &Json::number(3));
    let delta = trajectory_frame("s", Vec::new(), Vec::new(), 4, 5);
    assert_eq!((delta.payload.u64_at("total"), delta.payload.u64_at("lastSeq")), (Some(4), Some(5)));
}

/// A session is put away only while it is idle.
#[test]
fn archiving_and_refreshing() {
    let mut host = temp_host();
    host.sessions.insert("busy".into(), true);
    assert!(host.archive_session("busy", true).is_err());
    assert!(host.archive_session("ghost", false).is_err());
    host.sessions.insert("idle".into(), false);
    assert!(host.archive_session("idle", true).is_ok());
    let demo = host.refresh_models("deepseek", vec!["m1".into()]);
    assert_eq!(demo, vec!["deepseek-v4-flash", "deepseek-v4-pro"]);
    let again = host.refresh_models("acme", vec!["m1".into()]);
    assert_eq!(again, vec!["m1"]);
    let page = host.workspace_view("2024-01-01T00:00:00.000Z");
    assert!(!page.items.is_empty());
}

/// A directory that was chosen, or none.
#[test]
fn directories_are_picked() {
    assert_eq!(picked_directory(true, " /tmp/a\n"), Ok("/tmp/a".to_string()));
    assert_eq!(picked_directory(true, " \n").unwrap_err().message, "用户取消");
    assert_eq!(picked_directory(false, "/x").unwrap_err().message, "用户取消或系统对话框不可用");
}
