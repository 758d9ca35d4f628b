use liuma_core::billing::billing_values;
use liuma_core::commands::{parse_command, parse_prompt_mode, Command};
use liuma_core::driver::PresetSpec;
use liuma_core::feedback::{
    feedback_json, read_feedback, MessageFeedbackItem, MessageFeedbackStore,
};
use liuma_core::host::{AppHost, BaseConfig, WorkspaceConfig};
use liuma_core::json::{parse, render, Json};
use liuma_core::lineage::derive_list_facts;
use liuma_core::mcp::{check_server, good_tool_id};
use liuma_core::models::{billing_key, demo_models, ModelsStep};
use liuma_core::pages::PageFacts;
use liuma_core::paths::project_key;
use liuma_core::ports::{sync_mcp_ports, McpServerConfig, PortAction};
use liuma_core::prompts::{
    command_reply, finish_prompt, open_prompt, upload_refused, CommandDone, PromptEnd,
};
use liuma_core::proto::SessionSummary;
use liuma_core::pump::{Job, PromptMode};
use liuma_core::service::{
    hook_config, mcp_server_status, message_feedback_delete, message_feedback_list,
    message_feedback_put, older_paths, permission_options, permissions, port_frame, port_status,
    set_approval, set_mode, set_permission, titles_in, PortEvent,
};
use liuma_core::sessions::{orphan_subagents, subagents_of, Scanned};
use liuma_core::settings::{
    builtin_provider, provider_catalog, text_map_json, BillingSnapshot, HookBridgeEntry,
    McpServerEntry, ProviderEntry, SettingsFile,
};
use liuma_core::strmap::StrMap;
use liuma_core::workspaces::{Candidate, Workspace};

fn doc(text: &str) -> Json {
    parse(text).expect("a document")
}

fn pick<'a>(j: &'a Json, path: &[&str]) -> &'a Json {
    let mut at = j;
    for key in path {
        at = at.get(key).expect("a member");
    }
    at
}

fn ws(path: &str) -> Workspace {
    Workspace { path: path.into(), name: path.rsplit('/').next().map(String::from) }
}

fn there(path: &str) -> Candidate {
    Candidate { workspace: ws(path), is_dir: true }
}

fn base() -> BaseConfig {
    BaseConfig {
        model: "deepseek-chat".into(),
        dialect: "openai-completions".into(),
        models: None,
        reasoning_effort: None,
    }
}

fn temp_host() -> AppHost {
    AppHost::new_at(
        ws("/tmp/first"),
        true,
        base(),
        SettingsFile::default(),
        None,
        &Vec::new(),
        &Vec::new(),
    )
}

/// The host as it starts again on the settings that were written.
fn restart(host: &AppHost) -> AppHost {
    let settings = SettingsFile::from_json(&host.settings.to_json(), "codex").unwrap();
    let registered: Vec<Candidate> = settings.workspace_paths.iter().map(|p| there(p)).collect();
    AppHost::new_at(
        host.launch.copy(),
        true,
        base(),
        settings,
        None,
        &registered,
        &Vec::new(),
    )
}

fn facts(host: &AppHost) -> PageFacts {
    PageFacts {
        ready: host.settings.providers.iter().map(|_| false).collect(),
        mcp_status: Json::object(),
        sessions_root: "/root".into(),
        presets: Vec::new(),
        permissions: Vec::new(),
        derived_permission: "workspace-write".into(),
    }
}

fn cfg() -> WorkspaceConfig {
    WorkspaceConfig {
        model: None,
        preset: None,
        reasoning_effort: None,
        base_url: None,
        dialect: None,
        context_window: None,
    }
}

fn known(names: &[&str]) -> Vec<String> {
    names.iter().map(|n| n.to_string()).collect()
}

/// The page names the provider of each workspace.
#[test]
fn settings_view_reports_workspace_effective_providers() {
    let mut host = temp_host();
    let name = host.workspace_names()[0].clone();
    assert_eq!(
        pick(&host.settings_view(&facts(&host)), &["workspaceProviders", &name]),
        &Json::text("deepseek")
    );
    let mut glm = builtin_provider();
    glm.id = "glm".into();
    glm.base_url = "https://open.bigmodel.cn/api/v1".into();
    glm.dialect = "glm-responses".into();
    host.upsert_provider(glm, true).unwrap();
    host.set_workspace_provider(&name, "glm").unwrap();
    assert_eq!(
        pick(&host.settings_view(&facts(&host)), &["workspaceProviders", &name]),
        &Json::text("glm")
    );
}

fn percent(j: &Json) -> Option<u64> {
    j.as_u64().map(|n| n.min(100))
}

/// The paths of the catalog find what the providers answer with.
#[test]
fn catalog_preset_paths_hit_documented_response_shapes() {
    let deepseek = doc(
        r#"{"is_available":true,"balance_infos":[{"currency":"CNY","total_balance":"110.00",
            "granted_balance":"10.00","topped_up_balance":"100.00"}]}"#,
    );
    let kimi = doc(
        r#"{"code":0,"data":{"available_balance":49.58894,"voucher_balance":46.58893,
            "cash_balance":3.00001},"scode":"0x0","status":true}"#,
    );
    let glm = doc(
        r#"{"success":true,"code":200,"msg":"操作成功","data":{"level":"max","limits":[
            {"type":"TIME_LIMIT","unit":5,"number":1,"usage":4000,
                "currentValue":213,"remaining":3787,"percentage":5,
                "nextResetTime":1789437886999},
            {"type":"TOKENS_LIMIT","unit":3,"number":5,"percentage":0,
                "nextResetTime":1789246955101},
            {"type":"TOKENS_LIMIT","unit":6,"number":1,"percentage":53,
                "nextResetTime":1789485024985}]}}"#,
    );
    for entry in provider_catalog() {
        let Some(billing) = &entry.billing else {
            continue;
        };
        match entry.id.as_str() {
            "deepseek" | "kimi" => {
                let body = if entry.id == "deepseek" { &deepseek } else { &kimi };
                let expect = if entry.id == "deepseek" { "110.00" } else { "49.58894" };
                let amount = billing_values(billing, body).balance.expect("a balance");
                let text = match amount.as_str() {
                    Some(s) => s.to_string(),
                    None => render(&amount),
                };
                assert_eq!(text, expect);
            }
            "glm" => {
                let found = billing_values(billing, &glm);
                assert_eq!(found.usage_5h.as_ref().and_then(percent), Some(0));
                assert_eq!(found.usage_7d.as_ref().and_then(percent), Some(53));
                assert_eq!(found.resets, Some(Json::number(1789246955101)));
                assert_eq!(found.resets_7d, Some(Json::number(1789485024985)));
            }
            other => panic!("no shape is known for {other}"),
        }
    }
}

/// The default preset is checked, kept, and still there after a restart.
#[test]
fn default_preset_permission_roundtrip() {
    let mut host = temp_host();
    let presets = known(&["standard", "minimal"]);
    assert_eq!(host.default_preset(), "standard");
    assert_eq!(host.default_permission("workspace-write"), "workspace-write");
    host.set_default_preset("minimal", &presets).unwrap();
    assert!(host.set_default_preset("ghost", &presets).is_err());
    let host2 = restart(&host);
    assert_eq!(host2.default_preset(), "minimal");
    assert_eq!(host2.default_permission("workspace-write"), "workspace-write");
    let page = host2.settings_view(&facts(&host2));
    assert_eq!(pick(&page, &["defaultPreset"]), &Json::text("minimal"));
    assert_eq!(pick(&page, &["defaultPermission"]), &Json::text("workspace-write"));
}

/// A preset of permissions that was chosen holds; an unknown one is refused.
#[test]
fn chosen_permission_preset_holds() {
    let mut host = temp_host();
    let names = known(&["workspace-write", "full-access"]);
    host.set_default_permission_preset("full-access", &names).unwrap();
    assert_eq!(host.default_permission("workspace-write"), "full-access");
    assert!(host.set_default_permission_preset("ghost", &names).is_err());
    assert_eq!(restart(&host).default_permission("workspace-write"), "full-access");
}

fn found(host: &AppHost, id: &str, added: &liuma_core::proto::HostSessionAdded) -> Scanned {
    let (workspace, stem) = host.resolve_session(id);
    Scanned {
        workspace,
        stem,
        is_dir: true,
        has_log: true,
        header: liuma_core::lineage::Header {
            parent: added.parent_session_id.clone(),
            origin: added.origin.clone(),
        },
        updated_at: 1,
        blank: true,
        log_title: None,
    }
}

fn scanned(path: &str, stem: &str, updated_at: u64, text: &str) -> Scanned {
    let (blank, log_title) = derive_list_facts(text);
    Scanned {
        workspace: ws(path),
        stem: stem.into(),
        is_dir: true,
        has_log: true,
        header: liuma_core::lineage::Header { parent: None, origin: None },
        updated_at,
        blank,
        log_title,
    }
}

/// Each directory with a log is listed, under its name.
#[test]
fn list_sessions_scans_files() {
    let host = temp_host();
    let started = "{\"type\":\"turn/start\",\"seq\":1,\"time\":0,\"data\":{},\"ignorable\":false}\n";
    let mut file = scanned("/tmp/first", "ignored.txt", 9, "");
    file.is_dir = false;
    let mut no_log = scanned("/tmp/first", "empty", 9, "");
    no_log.has_log = false;
    let items = host.list_sessions(&vec![
        scanned("/tmp/first", "a", 1, ""),
        scanned("/tmp/first", "b", 2, started),
        scanned("/tmp/first", ".archive", 9, ""),
        file,
        no_log,
    ]);
    let mut ids: Vec<&str> = items.iter().map(|s| s.session_id.as_str()).collect();
    ids.sort();
    assert_eq!(ids, vec!["a", "b"]);
    let blank_of = |id: &str| items.iter().find(|s| s.session_id == id).unwrap().blank;
    assert!(blank_of("a"));
    assert!(!blank_of("b"));
}

/// What is listed follows what the log says.
#[test]
fn list_sessions_cache_refreshes_on_append() {
    let host = temp_host();
    let first = host.list_sessions(&vec![scanned("/tmp/first", "c", 1, "")]);
    assert!(first[0].blank && first[0].projections.is_none());
    let text = "{\"type\":\"turn/start\",\"seq\":1,\"time\":0,\"data\":{},\"ignorable\":false}\n{\"type\":\"user/message\",\"seq\":2,\"time\":0,\"data\":{\"content\":\"缓存后标题\"},\"ignorable\":false}\n";
    let after = host.list_sessions(&vec![scanned("/tmp/first", "c", 2, text)]);
    assert!(!after[0].blank);
    let shown = after[0].projections.as_ref().unwrap();
    assert_eq!(shown.values.str_at("title"), Some("缓存后标题"));
}

/// The ids of a list differ, and each leads to its own log.
#[test]
fn listed_ids_lead_to_their_logs() {
    let mut host = temp_host();
    host.add_workspace(ws("/tmp/second"), true).unwrap();
    let items = host.list_sessions(&vec![
        scanned("/tmp/first", "a", 1, ""),
        scanned("/tmp/second", "a", 2, ""),
        scanned("/tmp/second", "b", 3, ""),
    ]);
    let ids: Vec<&str> = items.iter().map(|s| s.session_id.as_str()).collect();
    assert_eq!(ids, vec!["second/b", "second/a", "a"]);
    assert_eq!(host.slot_path("second/a"), vec![project_key("/tmp/second").as_str(), "a", "session.jsonl"]);
    assert_eq!(host.slot_path("a"), vec![project_key("/tmp/first").as_str(), "a", "session.jsonl"]);
}

/// A fork carries on with what its parent runs on, whatever is set for the parent later.
#[test]
fn fork_carries_on() {
    let mut host = temp_host();
    host.ensure_models("deepseek", known(&["m1", "m2"]));
    let (parent, _) = host.create_session(None, None, None, &Vec::new());
    host.set_model(&parent, "m2").unwrap();
    host.set_effort(&parent, "low").unwrap();
    let (fork, added) = host.fork_session_as(&parent, &cfg(), "x");
    assert_eq!(fork, "s-x");
    assert_eq!(added.origin.as_deref(), Some("fork"));
    host.set_model(&parent, "m1").unwrap();
    assert_eq!(host.session_model(&fork, &cfg()), "m2");
    assert_eq!(host.session_effort(&fork, &cfg()).as_deref(), Some("low"));
    assert_eq!(host.session_preset(&fork, &cfg()), host.session_preset(&parent, &cfg()));
    assert_eq!(host.session_model(&parent, &cfg()), "m1");
}

/// Every provider of the catalog can be set, and tells how it is asked for what is left.
#[test]
fn catalog_can_be_set() {
    let mut host = temp_host();
    let all = provider_catalog();
    for (i, e) in all.iter().enumerate() {
        assert!(all[..i].iter().all(|o| o.id != e.id));
        assert!(!e.models.is_empty());
        let mut p = builtin_provider();
        p.id = e.id.clone();
        p.base_url = e.base_url.clone();
        p.dialect = e.dialect.clone();
        host.upsert_provider(p, false).unwrap();
        if let Some(b) = &e.billing {
            let paths = [&b.paths.balance, &b.paths.currency, &b.paths.usage_5h, &b.paths.usage_7d];
            assert!(paths.iter().all(|p| p.as_deref().map_or(true, |t| t.starts_with('$'))));
        }
    }
}

/// A session that another one started names it.
#[test]
fn subagent_lineage_sessions() {
    let mut host = temp_host();
    let (parent, first) = host.create_session(None, None, None, &Vec::new());
    let (child, second) = host.create_subagent_session(&parent);
    let list = host.list_sessions(&vec![
        found(&host, &parent, &first),
        found(&host, &child, &second),
    ]);
    let c = list.iter().find(|s| s.session_id == child).expect("the child");
    assert_eq!(c.parent_session_id.as_deref(), Some(parent.as_str()));
    assert_eq!(c.origin.as_deref(), Some("subagent"));
    let p = list.iter().find(|s| s.session_id == parent).unwrap();
    assert!(p.parent_session_id.is_none());
}

/// What Enter does while a turn runs is checked, kept and shown.
#[test]
fn busy_enter_preference_roundtrip() {
    let mut host = temp_host();
    assert_eq!(host.busy_enter(), "queue");
    host.set_busy_enter("steer").unwrap();
    assert_eq!(host.busy_enter(), "steer");
    assert!(host.set_busy_enter("nope").is_err());
    let host2 = restart(&host);
    assert_eq!(host2.busy_enter(), "steer");
    assert_eq!(pick(&host2.settings_view(&facts(&host2)), &["busyEnter"]), &Json::text("steer"));
}

/// The language is checked, kept and shown.
#[test]
fn language_preference_roundtrip() {
    let mut host = temp_host();
    assert_eq!(host.language(), "zh");
    host.set_language("en").unwrap();
    assert_eq!(host.language(), "en");
    assert!(host.set_language("fr").is_err());
    let host2 = restart(&host);
    assert_eq!(host2.language(), "en");
    assert_eq!(pick(&host2.settings_view(&facts(&host2)), &["language"]), &Json::text("en"));
    host.set_appearance("light").unwrap();
    assert_eq!(restart(&host).appearance(), "light");
    assert!(host.set_appearance("plaid").is_err());
    host.set_onboarded();
    assert!(restart(&host).settings.onboarded);
}

/// A key that is given stays with the settings.
#[test]
fn credential_settings_key_persists() {
    let mut bare = temp_host();
    let stored = bare.providers().into_iter().find(|p| p.id == "deepseek").unwrap();
    let resolved = |h: &AppHost| {
        let p = h.settings.provider(Some("deepseek"));
        p.api_key.is_some()
    };
    assert!(!bare.credential_status("deepseek", resolved(&bare)));
    bare.upsert_provider(ProviderEntry { api_key: Some("sk-env".into()), ..stored }, true).unwrap();
    assert!(bare.credential_status("deepseek", resolved(&bare)));
    let again = restart(&bare);
    assert!(again.credential_status("deepseek", resolved(&again)));
    assert!(!again.credential_status("ghost", true));
}

/// Providers are checked, kept, chosen and given up; their keys are not shown.
#[test]
fn provider_registry_and_credential_surface() {
    let mut host = temp_host();
    assert_eq!(host.default_model(), "deepseek-chat");
    let mut bad = builtin_provider();
    bad.dialect = "nope".into();
    assert!(host.upsert_provider(bad, true).is_err());
    let mut bad = builtin_provider();
    bad.id = "Acme!".into();
    assert!(host.upsert_provider(bad, true).is_err());
    let mut bad = builtin_provider();
    bad.base_url = "ftp://x".into();
    assert!(host.upsert_provider(bad, true).is_err());

    let acme = ProviderEntry {
        id: "acme".into(),
        base_url: "https://acme.example/v1".into(),
        dialect: "openai-completions".into(),
        credential_ref: None,
        api_key: Some("sk-acme".into()),
        default_model: Some("acme-1".into()),
        ..builtin_provider()
    };
    host.upsert_provider(acme, true).unwrap();
    let stored = host.providers().into_iter().find(|p| p.id == "acme").unwrap();
    assert_eq!(stored.api_key.as_deref(), Some("sk-acme"));
    assert_eq!(stored.credential_ref, None);

    let name = host.workspace_names()[0].clone();
    host.set_workspace_provider(&name, "acme").unwrap();
    assert_eq!(host.default_model(), "acme-1");
    assert!(host.models().is_empty());

    let view = format!("{:?}", host.settings_view(&facts(&host)));
    assert!(view.contains("acme"));
    assert!(!view.contains("sk-acme"));

    host.remove_provider("acme");
    assert_eq!(host.default_model(), "deepseek-chat");
    assert!(host.set_workspace_provider(&name, "ghost").is_err());
}

/// What is set for a session holds for its workspace after a restart.
#[test]
fn setter_persists_workspace_default_across_reload() {
    let mut host = temp_host();
    match host.models_step() {
        ModelsStep::Demo(id) => host.ensure_models(&id, demo_models()),
        other => panic!("{other:?}"),
    }
    host.set_model("s1", "deepseek-v4-pro").unwrap();
    host.set_preset("s1", "minimal", &known(&["standard", "minimal"])).unwrap();
    host.set_effort("s1", "low").unwrap();
    assert_eq!(host.session_model("s1", &cfg()), "deepseek-v4-pro");
    assert_eq!(host.session_preset("s1", &cfg()), "minimal");
    assert_eq!(host.session_effort("s1", &cfg()).as_deref(), Some("low"));
    assert!(host.set_effort("s1", "enormous").is_err());
    let host2 = restart(&host);
    assert_eq!(host2.session_model("s1", &cfg()), "deepseek-v4-pro");
    assert_eq!(host2.session_preset("s1", &cfg()), "minimal");
    assert_eq!(host2.session_effort("s1", &cfg()).as_deref(), Some("low"));
}

/// The file of a workspace goes before the settings, a session's own choice
/// before both.
#[test]
fn liuma_toml_beats_settings_layer() {
    let mut host = temp_host();
    host.ensure_models("deepseek", demo_models());
    host.set_model("s1", "deepseek-v4-pro").unwrap();
    let toml = WorkspaceConfig { model: Some("toml-model".into()), ..cfg() };
    assert_eq!(host.session_model("s1", &toml), "deepseek-v4-pro");
    assert_eq!(restart(&host).session_model("s1", &toml), "toml-model");
}

/// Where the size of the context comes from.
#[test]
fn context_window_resolves_toml_over_provider_over_default() {
    let mut host = temp_host();
    assert_eq!(host.session_context_window("s1", &cfg(), 1_000_000), 1_000_000);
    let mut p = builtin_provider();
    p.model_context_windows.insert("deepseek-chat".to_string(), 128_000);
    host.upsert_provider(p, true).unwrap();
    assert_eq!(host.session_context_window("s1", &cfg(), 1_000_000), 128_000);
    let toml = WorkspaceConfig { context_window: Some(65_536), ..cfg() };
    assert_eq!(host.session_context_window("s1", &toml, 1_000_000), 65_536);
}

/// Workspaces are ordered, titled and taken out; the order outlives a restart.
#[test]
fn workspace_management_roundtrip() {
    let mut host = temp_host();
    host.add_workspace(ws("/tmp/ws2"), true).unwrap();
    host.add_workspace(ws("/tmp/ws3"), true).unwrap();
    assert!(host.add_workspace(ws("/tmp/none"), false).is_err());

    host.reorder_workspace("ws3", Some("ws2")).unwrap();
    let names = host.workspace_names();
    assert_eq!((names[1].as_str(), names[2].as_str()), ("ws3", "ws2"));
    host.reorder_workspace("ws3", None).unwrap();
    host.rename_workspace("ws3", "第三个").unwrap();
    assert_eq!(host.workspace_title("ws3"), "第三个");
    let def = host.workspace_names()[0].clone();
    assert!(host.remove_workspace(&def).is_err());
    host.remove_workspace("ws2").unwrap();

    let host2 = restart(&host);
    let names = host2.workspace_names();
    assert_eq!(names.len(), 2);
    assert_eq!(names[1], "ws3");
    assert_eq!(host2.workspace_title(&names[1]), "第三个");
}

/// The default workspace is the first one, not the one that the host was
/// started in.
#[test]
fn default_workspace_is_list_head() {
    let mut host = temp_host();
    host.add_workspace(ws("/tmp/other"), true).unwrap();
    host.reorder_workspace("other", Some("first")).unwrap();
    assert_eq!(host.workspace_names()[0], "other");

    let (id, _) = host.create_session(None, None, None, &Vec::new());
    assert!(!id.contains('/'));
    assert_eq!(host.slot_path(&id)[0], liuma_core::paths::project_key("/tmp/other"));

    let (pid, _) = host.create_session(None, None, Some("first".into()), &Vec::new());
    assert!(pid.starts_with("first/"));
    assert_eq!(host.slot_path(&pid)[0], liuma_core::paths::project_key("/tmp/first"));

    assert!(host.remove_workspace("other").is_err());
}

/// Workspaces of an older list are registered.
#[test]
fn workspace_legacy_import() {
    let host = AppHost::new_at(
        ws("/tmp/first"),
        true,
        base(),
        SettingsFile::default(),
        None,
        &Vec::new(),
        &vec![there("/tmp/b"), Candidate { workspace: ws("/tmp/gone"), is_dir: false }],
    );
    assert_eq!(host.workspace_names().len(), 2);
    assert_eq!(host.settings.workspace_paths, vec!["/tmp/first", "/tmp/b"]);
    assert_eq!(restart(&host).workspace_names().len(), 2);
}

fn kept_on_disk(all: &mut Vec<Scanned>, host: &AppHost, gone: &[String]) -> Vec<SessionSummary> {
    let stems: Vec<String> = gone.iter().map(|g| host.resolve_session(g).1).collect();
    all.retain(|s| !stems.contains(&s.stem));
    host.list_sessions(all)
}

/// A deleted session is gone from the list and from memory.
#[test]
fn delete_session_removes_empty_dir() {
    let mut host = temp_host();
    let (id, added) = host.create_session(None, None, None, &Vec::new());
    let mut disk = vec![found(&host, &id, &added)];
    let list = host.list_sessions(&disk);
    let (gone, r) = host.delete_session(&list, &id, true);
    assert!(r.is_ok());
    assert_eq!(gone, vec![id.clone()]);
    assert!(kept_on_disk(&mut disk, &host, &gone).is_empty());
    assert!(!host.sessions.contains(&id));
    let (gone, r) = host.delete_session(&Vec::new(), "ghost", false);
    assert!(gone.is_empty() && r.is_err());
}

/// What a session had done by others goes with it; what was forked from it
/// stays.
#[test]
fn delete_session_cascades_subagent_not_fork() {
    let mut host = temp_host();
    let (parent, a) = host.create_session(None, None, None, &Vec::new());
    let (sub, b) = host.create_subagent_session(&parent);
    let (forked, c) = host.fork_session(&parent, &cfg());
    let mut disk =
        vec![found(&host, &parent, &a), found(&host, &sub, &b), found(&host, &forked, &c)];
    let list = host.list_sessions(&disk);
    let (gone, r) = host.delete_session(&list, &parent, true);
    r.unwrap();
    assert!(gone.contains(&parent));
    assert!(gone.contains(&sub));
    assert!(!gone.contains(&forked));
    let left = kept_on_disk(&mut disk, &host, &gone);
    assert_eq!(left.len(), 1);
    assert_eq!(left[0].session_id, forked);
}

/// A session is not deleted while one that goes with it is running.
#[test]
fn delete_refuses_while_kin_is_running() {
    let mut host = temp_host();
    let (parent, a) = host.create_session(None, None, None, &Vec::new());
    let (sub, b) = host.create_subagent_session(&parent);
    host.sessions.insert(sub.clone(), true);
    let list = host.list_sessions(&vec![found(&host, &parent, &a), found(&host, &sub, &b)]);
    let (gone, r) = host.delete_session(&list, &parent, true);
    assert!(gone.is_empty());
    assert!(r.is_err());
}

/// Sessions whose parent is gone are swept up.
#[test]
fn startup_sweeps_orphan_subagent_sessions() {
    let mut host = temp_host();
    let (parent, _) = host.create_session(None, None, None, &Vec::new());
    let (orphan, b) = host.create_subagent_session(&parent);
    let (alive, c) = host.create_session(None, None, None, &Vec::new());
    let (keep, d) = host.create_subagent_session(&alive);
    let list = host.list_sessions(&vec![
        found(&host, &orphan, &b),
        found(&host, &alive, &c),
        found(&host, &keep, &d),
    ]);
    assert_eq!(orphan_subagents(&list), vec![orphan]);
    assert_eq!(subagents_of(&list, &alive), vec![keep]);
}

/// A change of a provider is noticed once.
#[test]
fn provider_transport_change_detected_on_upsert() {
    let mut host = temp_host();
    assert!(host.sync_provider_transports().0.is_empty());
    for p in host.settings.providers.iter_mut() {
        if p.id == "deepseek" {
            p.api_key = Some("new".into());
        }
    }
    assert_eq!(host.sync_provider_transports().0, vec!["deepseek".to_string()]);
    assert!(host.sync_provider_transports().0.is_empty());
}

/// An idle session of a provider that has changed is let go; a running one
/// stays.
#[test]
fn changed_provider_lets_idle_sessions_go() {
    let mut host = temp_host();
    host.sessions.insert("idle".into(), false);
    host.sessions.insert("busy".into(), true);
    host.settings.providers[0].base_url = "https://other.example".into();
    let (_, gone) = host.sync_provider_transports();
    assert_eq!(gone, vec!["idle".to_string()]);
    assert_eq!(host.attached_count(), 1);
    assert!(host.may_ask_for_tool("busy"));
    assert!(!host.may_ask_for_tool("idle"));
}

/// Saying something of a message again replaces it in its place.
#[test]
fn feedback_keeps_its_place() {
    let store = MessageFeedbackStore::new("dir");
    let mut items: Vec<MessageFeedbackItem> = Vec::new();
    let first = store.put_as(&mut items, "m1", "positive", None, None, "v1".into(), 1).unwrap();
    store.put_as(&mut items, "m2", "negative", None, None, "v2".into(), 2).unwrap();
    let other = items[1].copy();
    let again =
        store.put_as(&mut items, "m1", "negative", Some("n"), Some("v1"), "v3".into(), 3).unwrap();
    assert_eq!((again.created_at, again.updated_at, again.version.as_str()), (1, 3, "v3"));
    assert_eq!(items[0], again);
    assert_eq!(items[1], other);
    assert_eq!(items.len(), 2);
    assert!(store
        .put_as(&mut items, "m1", "positive", None, Some(&first.version), "v4".into(), 4)
        .is_err());
    assert_eq!(items[0], again);
}

/// What was said of messages is written and read back.
#[test]
fn feedback_is_read_back() {
    let store = MessageFeedbackStore::new("dir");
    let mut items: Vec<MessageFeedbackItem> = Vec::new();
    store.put(&mut items, "m1", "positive", Some("很好"), None, -5).unwrap();
    store.put(&mut items, "m2", "negative", None, None, 7).unwrap();
    let j = feedback_json(&items);
    let all = j.as_array().unwrap();
    assert_eq!(all[0].str_at("messageId"), Some("m1"));
    assert_eq!(all[0].i64_at("createdAt"), Some(-5));
    assert!(all[1].get("note").is_none());
    assert_eq!(read_feedback(&j).unwrap(), items);
    assert_eq!(MessageFeedbackItem::from_json(&all[1]).unwrap(), items[1]);
    assert!(read_feedback(&doc(r#"[{"messageId":"m"}]"#)).is_none());
    assert!(read_feedback(&doc("{}")).is_none());
}

/// Something is said of a message, changed under its version, and taken back.
#[test]
fn message_feedback_store_roundtrip() {
    let store = MessageFeedbackStore::new("dir");
    assert_eq!(store.file_name("ws/s1"), "ws-s1.json");
    let mut items: Vec<MessageFeedbackItem> = store.list(None);
    let it = store.put(&mut items, "m1", "positive", Some(" 很好 "), None, 1).unwrap();
    assert_eq!(it.note.as_deref(), Some("很好"));
    let upd =
        store.put(&mut items, "m1", "negative", Some("有问题"), Some(&it.version), 2).unwrap();
    assert_eq!(upd.rating, "negative");
    assert!(store.put(&mut items, "m1", "positive", None, Some(&it.version), 3).is_err());
    assert_eq!(items.len(), 1);
    let del = store.delete(&mut items, "m1", &upd.version).unwrap();
    assert_eq!(del.message_id, "m1");
    assert!(items.is_empty());
    assert!(store.put(&mut items, "m2", "meh", None, None, 4).is_err());
    let long = "x".repeat(8193);
    assert_eq!(
        store.put(&mut items, "m2", "positive", Some(&long), None, 4),
        Err("note-too-large".to_string())
    );
    let refused =
        message_feedback_put(&store, &mut items, "m2", "positive", None, Some("v"), 4).unwrap_err();
    assert_eq!(refused.code, "version-conflict");
    assert!(message_feedback_delete(&store, &mut items, "m2", "v").is_err());
    assert!(message_feedback_list(&store, None).is_empty());
}

fn mcp_entry(id: &str, enabled: bool, cmd: &str) -> McpServerEntry {
    McpServerEntry { id: id.into(), enabled, command: cmd.into(), ..Default::default() }
}

/// Servers in use are started, others stopped, changed ones replaced.
#[test]
fn mcp_port_pool_sync_starts_stops_and_replaces() {
    let mut held: StrMap<McpServerConfig> = StrMap::new();
    let started = sync_mcp_ports(&mut held, &vec![mcp_entry("a", true, "x"), mcp_entry("b", false, "x")]);
    assert_eq!(started.len(), 1);
    assert!(matches!(&started[0], PortAction::Start(c) if c.server_name == "a"));
    assert!(sync_mcp_ports(&mut held, &vec![mcp_entry("a", true, "x")]).is_empty());
    let replaced = sync_mcp_ports(&mut held, &vec![mcp_entry("a", true, "y")]);
    assert_eq!(replaced.len(), 1);
    assert!(matches!(&replaced[0], PortAction::Start(c) if c.server_name == "a"));
    let stopped = sync_mcp_ports(&mut held, &vec![mcp_entry("a", false, "y")]);
    assert_eq!(stopped, vec![PortAction::Stop("a".into())]);
    assert!(held.is_empty());
}

/// Servers of tools are checked before they are kept.
#[test]
fn mcp_servers_are_checked() {
    let mut host = temp_host();
    assert!(good_tool_id("a-b_1") && !good_tool_id("") && !good_tool_id("a b"));
    assert!(check_server(&mcp_entry("a", true, "")).is_err());
    host.settings.upsert_mcp_server(mcp_entry("a", true, "x")).unwrap();
    host.settings.upsert_mcp_server(mcp_entry("a", true, "y")).unwrap();
    assert_eq!(host.mcp_servers().len(), 1);
    let n = host
        .settings
        .import_mcp_servers_json(r#"{"mcpServers":{"b":{"command":"npx"},"c":{"url":"https://h"}}}"#)
        .unwrap();
    assert_eq!(n, 2);
    assert!(host
        .settings
        .import_mcp_servers_json(r#"{"mcpServers":{"d":{"command":"npx"},"e f":{"command":"x"}}}"#)
        .is_err());
    assert_eq!(host.mcp_servers().len(), 3);
    host.settings.remove_mcp_server("a");
    assert_eq!(host.mcp_servers().len(), 2);
    let failed = port_status("b", &PortEvent::Failed("e".into()));
    assert_eq!(port_frame(&failed).payload.str_at("server"), Some("b"));
    let status = mcp_server_status(&vec![failed]);
    let first = &pick(&status, &["servers"]).as_array().unwrap()[0];
    assert_eq!(first.str_at("error"), Some("e"));
    let again =
        PortEvent::Reconnecting { attempt: 2, max_attempts: 5, delay_ms: 1000 };
    assert_eq!(port_status("b", &again).error, "第 2/5 次,1000ms 后重试");
}

/// Hooks are checked before they are kept.
#[test]
fn hooks_are_checked() {
    let mut host = temp_host();
    let dialects = known(&["codex", "other"]);
    let hook = |id: &str, dialect: &str, path: &str| HookBridgeEntry {
        id: id.into(),
        config_path: path.into(),
        ..HookBridgeEntry::in_dialect(dialect)
    };
    let err = host.upsert_hook_bridge(hook("h", "none", "p"), &dialects).unwrap_err();
    assert_eq!(err.message, "dialect 仅限 codex 或 other");
    assert!(host.upsert_hook_bridge(hook("h h", "codex", "p"), &dialects).is_err());
    assert!(host.upsert_hook_bridge(hook("h", "codex", " "), &dialects).is_err());
    host.upsert_hook_bridge(hook("h", "codex", "~/p"), &dialects).unwrap();
    assert_eq!(host.enabled_hooks().len(), 1);
    assert_eq!(liuma_core::providers::under_home("~/p").as_deref(), Some("p"));
    assert_eq!(liuma_core::providers::under_home("/p"), None);
    host.remove_hook_bridge("h");
    assert!(host.hook_bridges().is_empty());
}

/// Commands are read, carried out and answered.
#[test]
fn command_registry_and_execute() {
    let host = temp_host();
    let names: Vec<&str> = host.command_list().iter().map(|c| c.name).collect();
    assert_eq!(names, vec!["plan", "compact", "export", "goal", "model"]);
    assert_eq!(parse_command("/model").unwrap(), Command::ShowModel);
    let v = command_reply(&CommandDone::Model(host.session_model("s", &cfg())));
    assert_eq!(v.str_at("kind"), Some("model"));
    assert!(v.str_at("model").is_some());
    assert_eq!(parse_command("/plan on").unwrap(), Command::SetMode { plan: true });
    assert_eq!(command_reply(&CommandDone::Mode { plan: true }).str_at("mode"), Some("plan"));
    assert_eq!(parse_command("/plan off").unwrap(), Command::SetMode { plan: false });
    assert!(parse_command("/plan maybe").is_err());
    assert_eq!(parse_command("/goal 发布 M3").unwrap(), Command::CreateGoal("发布 M3".into()));
    assert_eq!(parse_command("/goal").unwrap(), Command::ShowGoals);
    assert_eq!(parse_command("/goal clear").unwrap(), Command::ClearGoals);
    assert_eq!(parse_command("/goal pause").unwrap(), Command::PauseGoal { paused: true });
    assert_eq!(parse_command("/goal resume").unwrap(), Command::PauseGoal { paused: false });
    assert_eq!(parse_command("/goal edit 发布 M4").unwrap(), Command::EditGoal("发布 M4".into()));
    assert_eq!(parse_command("/goal edit").unwrap_err().code, "bad-request");
    assert_eq!(command_reply(&CommandDone::GoalSet(3)).u64_at("id"), Some(3));
    assert_eq!(parse_command("/compact").unwrap(), Command::Compact);
    let v = command_reply(&CommandDone::Compacting);
    assert_eq!(v.bool_at("accepted"), Some(true));
    assert_eq!(v.str_at("kind"), Some("compact"));
    let err = parse_command("/nope").unwrap_err();
    assert_eq!(err.code, "bad-request");
}

/// Only what begins with a slash is a command.
#[test]
fn words_without_a_slash_are_submitted() {
    let end = |text: &str| {
        finish_prompt(text.into(), Vec::new(), Vec::new(), PromptMode::Queue, Vec::new()).unwrap()
    };
    for text in ["goal keepers win matches", "plan", "/nope", "model on"] {
        assert!(matches!(end(text), PromptEnd::Submit(Job::Prompt { text: t, .. }) if t == text));
    }
    assert!(matches!(end("  /plan on "), PromptEnd::Command(_)));
}

/// A file of titles or of workspaces holds texts and nothing else, or it holds nothing.
#[test]
fn kept_files_are_read_whole() {
    let titles = titles_in(r#"{"s":"One","t":"Two"}"#);
    assert_eq!(titles.get("t").map(String::as_str), Some("Two"));
    assert_eq!(titles.entries.len(), 2);
    assert!(titles_in(r#"{"s":"One","t":2}"#).entries.is_empty());
    assert!(titles_in("[]").entries.is_empty());
    assert_eq!(text_map_json(&titles), doc(r#"{"s":"One","t":"Two"}"#));
    assert!(titles_in("{").entries.is_empty());
    assert_eq!(older_paths(r#"["/a","/b"]"#), vec!["/a", "/b"]);
    assert!(older_paths(r#"["/a",1]"#).is_empty());
    assert!(older_paths("").is_empty());
    let host = AppHost::new_at(
        ws("/tmp/first"),
        true,
        base(),
        SettingsFile::default(),
        Some(r#"{"s":"Kept"}"#),
        &Vec::new(),
        &Vec::new(),
    );
    assert_eq!(host.kept_title("s").as_deref(), Some("Kept"));
}

/// The description of hooks is any JSON; what is none is told.
#[test]
fn hook_descriptions_are_read() {
    assert_eq!(hook_config(r#"{"hooks":{}}"#).unwrap(), doc(r#"{"hooks":{}}"#));
    assert!(!hook_config("{").unwrap_err().is_empty());
}

/// A prompt is queued or fed, and nothing else.
#[test]
fn prompt_rejects_bad_mode() {
    let content = vec![doc(r#"{"type":"text","text":"hi"}"#)];
    let err = open_prompt(&content, "kill").unwrap_err();
    assert_eq!(err.code, "bad-request");
    assert_eq!(parse_prompt_mode("queue").unwrap(), PromptMode::Queue);
    let (mode, held) = open_prompt(&content, "steer").unwrap();
    assert_eq!((mode, held.text.as_str()), (PromptMode::Steer, "hi"));
    match finish_prompt(held.text, Vec::new(), Vec::new(), mode, Vec::new()).unwrap() {
        PromptEnd::Submit(Job::Prompt { id, text, .. }) => {
            assert_eq!(id.len(), 36);
            assert_eq!(text, "hi");
        }
        other => panic!("{other:?}"),
    }
}

fn image_part(media: &str, data: &str) -> Json {
    Json::object()
        .with("type", Json::text("image"))
        .with("mediaType", Json::text(media))
        .with("data", Json::text(data))
}

/// Which images are taken, and which prompts may have any.
#[test]
fn prompt_image_admission_rejections() {
    let reason = |e: liuma_core::proto::RpcError| e.details.str_at("reason").unwrap().to_string();
    let err = open_prompt(&vec![image_part("image/bmp", "aGk=")], "queue").unwrap_err();
    assert_eq!(err.code, "attachment-error");
    assert_eq!(reason(err), "UNSUPPORTED_IMAGE_TYPE");
    let err = open_prompt(&vec![image_part("image/png", "!!!not-base64!!!")], "queue").unwrap_err();
    assert_eq!(reason(err), "INVALID_IMAGE_BASE64");
    let err = open_prompt(&vec![image_part("image/png", "")], "queue").unwrap_err();
    assert_eq!(reason(err), "INVALID_IMAGE_BASE64");
    let (mode, held) = open_prompt(
        &vec![doc(r#"{"type":"text","text":"/plan on"}"#), image_part("image/png", "aGk=")],
        "queue",
    )
    .unwrap();
    assert_eq!(held.images[0].data, b"hi".to_vec());
    let refs = vec![doc(r#"{"attachmentId":"x"}"#)];
    let err = finish_prompt(held.text, refs, Vec::new(), mode, Vec::new()).unwrap_err();
    assert_eq!(err.message, "/plan 不接受图片附件,请先移除图片");
    assert_eq!(reason(err), "COMMAND_IMAGES_UNSUPPORTED");
    let err = open_prompt(&vec![doc(r#"{"type":"file","sourcePath":"/p"}"#)], "queue").unwrap_err();
    assert_eq!(reason(err), "INVALID_FILE_NAME");
    let err = open_prompt(&vec![doc(r#"{"type":"file","name":"f"}"#)], "queue").unwrap_err();
    assert_eq!(reason(err), "INVALID_FILE_SOURCE");
    assert_eq!(upload_refused(true, "big", "TOO_BIG").message, "图片附件被拒:big");
}

/// A prompt with a file is submitted; a command with one is not.
#[test]
fn prompt_file_roundtrip_and_command_rejection() {
    let (_, held) = open_prompt(
        &vec![doc(r#"{"type":"file","name":"f.txt","sourcePath":"/p/f.txt"}"#)],
        "queue",
    )
    .unwrap();
    assert_eq!(held.files[0].name, "f.txt");
    let refs = || vec![doc(r#"{"attachmentId":"f"}"#)];
    assert!(matches!(
        finish_prompt("see".into(), Vec::new(), refs(), PromptMode::Queue, Vec::new()),
        Ok(PromptEnd::Submit(_))
    ));
    let err = finish_prompt("/goal x".into(), Vec::new(), refs(), PromptMode::Queue, Vec::new())
        .unwrap_err();
    assert_eq!(err.message, "/goal 不接受文件附件,请先移除文件");
}

/// Modes and permissions are checked before a session gets them.
#[test]
fn modes_and_permissions_are_checked() {
    assert_eq!(set_mode("plan"), Ok(Job::SetMode("plan".into())));
    assert!(set_mode("wild").is_err());
    let all = known(&["read-only"]);
    assert_eq!(set_permission("read-only", &all), Ok(Job::SetPermission("read-only".into())));
    assert_eq!(set_permission("x", &all).unwrap_err().message, "未知访问模式");
    assert_eq!(set_approval("read-only", &all), Ok(Job::SetApproval("read-only".into())));
    assert_eq!(set_approval("x", &all).unwrap_err().message, "未知审批策略");
    let presets = vec![PresetSpec { name: "n".into(), sandbox: "s".into(), approval: "a".into() }];
    assert_eq!(permissions(&presets), vec!["n"]);
    assert_eq!(
        permission_options(&presets)[0],
        Json::object()
            .with("value", Json::text("n"))
            .with("name", Json::text("n"))
            .with("sandbox", Json::text("s"))
            .with("approval", Json::text("a"))
    );
}

/// A title that was given is not replaced by one that was made.
#[test]
fn given_title_stays() {
    let mut host = temp_host();
    host.rename("s", " Mine ").unwrap();
    host.apply_generated_title("s", "Made");
    assert_eq!(host.session_title("s", None).as_deref(), Some("Mine"));
    assert_eq!(host.session_title("s", Some("first")).as_deref(), Some("Mine"));
    host.apply_generated_title("t", "Made");
    assert_eq!(host.session_title("t", None).as_deref(), Some("Made"));
    assert_eq!(host.session_title("u", Some("first")).as_deref(), Some("first"));
    assert_eq!(host.session_title("u", None), None);
    assert_eq!(host.kept_title("u"), None);
}

/// Billing falls back to the catalog, and needs a key.
#[test]
fn fetch_billing_falls_back_to_catalog_preset() {
    let mut host = temp_host();
    let mut glm = builtin_provider();
    glm.id = "glm".into();
    glm.base_url = "https://open.bigmodel.cn/api/v1".into();
    glm.dialect = "glm-responses".into();
    host.upsert_provider(glm, true).unwrap();
    assert!(host.billing_for("glm").is_ok());
    assert_eq!(billing_key(None, None).unwrap_err(), "凭据各级缺席,无法查询计费");
    let mut manual = builtin_provider();
    manual.id = "manual-x".into();
    host.upsert_provider(manual, true).unwrap();
    assert_eq!(host.billing_for("manual-x").unwrap_err(), "该 provider 未配置计费端点");
    host.set_billing_cache(
        "glm",
        BillingSnapshot::Balance { fetched_at_ms: 1, amount: "1".into(), currency: None },
    );
    let kept = host.providers().into_iter().find(|p| p.id == "glm").unwrap();
    assert!(kept.billing_cache.is_some());
}

/// What the host answers with when it is asked where answers come from.
#[test]
fn provider_info_names_dialect_and_model() {
    let info = temp_host().provider_info();
    assert_eq!((info.provider.as_str(), info.model.as_str()), ("openai-completions", "deepseek-chat"));
}

/// A provider that is kept again without a key keeps the one that it had.
#[test]
fn kept_provider_keeps_its_key() {
    let mut host = temp_host();
    let with_key = ProviderEntry { api_key: Some("k".into()), ..builtin_provider() };
    host.upsert_provider(with_key, true).unwrap();
    let again = ProviderEntry { display_name: Some("D".into()), ..builtin_provider() };
    host.upsert_provider(again, true).unwrap();
    let kept = host.settings.provider(Some("deepseek"));
    assert_eq!(kept.api_key.as_deref(), Some("k"));
    assert_eq!(kept.display_name.as_deref(), Some("D"));
}

/// Sessions that come from another are in its workspace.
#[test]
fn kin_shares_the_workspace() {
    let mut host = temp_host();
    host.add_workspace(ws("/tmp/other"), true).unwrap();
    let (parent, _) = host.create_session(None, None, Some("other".into()), &Vec::new());
    let (sub, _) = host.create_subagent_session(&parent);
    let (forked, _) = host.fork_session(&parent, &cfg());
    for id in [&parent, &sub, &forked] {
        assert!(id.starts_with("other/"), "{id}");
        assert_eq!(host.resolve_session(id).0, ws("/tmp/other"));
    }
}

/// The page is the same whatever the key is.
#[test]
fn page_tells_no_key() {
    let page = |key: &str| {
        let mut host = temp_host();
        host.settings.providers[0].api_key = Some(key.into());
        host.settings_view(&facts(&host))
    };
    assert_eq!(page("one"), page("another"));
}

/// A document of servers names each of them once.
#[test]
fn described_servers_differ() {
    let mut settings = SettingsFile::default();
    let text = r#"{"mcpServers":{"a":{"command":"x"},"b":{"command":"y"},"a":{"command":"z"}}}"#;
    assert_eq!(settings.import_mcp_servers_json(text).unwrap(), 2);
    assert_eq!(settings.mcp_servers[0].command, "z");
    for text in ["[", "{}", r#"{"mcpServers":[]}"#, r#"{"mcpServers":{"a":{}}}"#] {
        assert!(settings.import_mcp_servers_json(text).is_err(), "{text}");
    }
}
