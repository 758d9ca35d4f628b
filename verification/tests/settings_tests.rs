use liuma_core::json::{json_path, parse, Json, Num};
use liuma_core::mcp::parse_mcp_servers_json;
use liuma_core::settings::{
    builtin_provider, provider_catalog, BillingConfig, BillingKind, BillingPaths,
    BillingSnapshot, HookBridgeEntry, McpServerEntry, ProviderEntry, SettingsFile,
    WorkspaceDefaults,
};
use liuma_core::store::{document_holds, Disk, SettingsStore};
use liuma_core::strmap::StrMap;

/// The dialect of hooks that name none.
const HOOKS: &str = "codex";

fn doc(text: &str) -> Json {
    parse(text).expect("a document")
}

fn pick<'a>(j: &'a Json, path: &[&str]) -> &'a Json {
    let mut at = j;
    for key in path {
        at = at.get(key).expect("a member");
    }
    at
}

fn num(n: u64) -> Json {
    Json::Number(Num::Unsigned(n))
}

/// Servers reached over HTTP: how they are described, written and read back,
/// and what an older file that lacks the newer members stands for.
#[test]
fn mcp_http_entries_parse_and_roundtrip() {
    let entries = parse_mcp_servers_json(
        r#"{"mcpServers":{"remote":{"transport":"http","url":"https://host/mcp","headers":{"Authorization":"Bearer t"}}}}"#,
    )
    .unwrap();
    assert_eq!(entries.len(), 1);
    assert!(entries[0].is_http());
    assert_eq!(entries[0].url.as_deref(), Some("https://host/mcp"));
    assert_eq!(
        entries[0].headers.get("Authorization").map(String::as_str),
        Some("Bearer t")
    );
    assert!(entries[0].command.is_empty());
    let entries =
        parse_mcp_servers_json(r#"{"mcpServers":{"r2":{"url":"https://host/mcp"}}}"#).unwrap();
    assert!(entries[0].is_http());
    let err = parse_mcp_servers_json(
        r#"{"mcpServers":{"r3":{"type":"sse","url":"https://host/sse"}}}"#,
    )
    .unwrap_err();
    assert!(err.contains("SSE"), "{err}");
    assert!(parse_mcp_servers_json(r#"{"mcpServers":{"r4":{"transport":"http"}}}"#).is_err());
    let written = entries[0].to_json();
    let back = McpServerEntry::from_json(&written).unwrap();
    assert_eq!(back, entries[0]);
    let legacy =
        McpServerEntry::from_json(&doc(r#"{"id":"old","enabled":true,"command":"npx"}"#)).unwrap();
    assert!(!legacy.is_http());
    assert!(legacy.headers.is_empty());
}

/// Before anything was set: the built-in provider, and nothing for workspaces.
#[test]
fn defaults_shape() {
    let f = SettingsFile::default();
    assert_eq!(f.version, 1);
    assert!(!f.onboarded);
    assert_eq!(f.providers, vec![builtin_provider()]);
    assert!(f.workspaces.is_empty());
    let p = f.provider(None);
    assert_eq!(p.id, "deepseek");
    assert_eq!(p.base_url, "https://api.deepseek.com/v1");
}

/// A provider that is not there falls back to the built-in one.
#[test]
fn provider_fallback() {
    let mut f = SettingsFile::default();
    let mut custom = builtin_provider();
    custom.id = "acme".into();
    custom.base_url = "https://acme.example/v1".into();
    f.providers.push(custom);
    assert_eq!(f.provider(Some("acme")).base_url, "https://acme.example/v1");
    assert_eq!(f.provider(Some("ghost")).id, "deepseek");
    f.providers.clear();
    assert_eq!(f.provider(None).id, "deepseek");
}

/// A missing file gives the defaults; what a change writes is there when the
/// settings are opened again.
#[test]
fn roundtrip_and_cold_reload() {
    let (mut store, aside) = SettingsStore::open("settings.yaml", Disk::Missing, None);
    assert!(!aside);
    assert_eq!(store.read(None, Disk::Missing), SettingsFile::default());
    let mut draft = store.read(None, Disk::Missing);
    draft.onboarded = true;
    draft.workspaces.insert(
        "--ws--".into(),
        WorkspaceDefaults { model: Some("m1".into()), ..Default::default() },
    );
    let written = draft.to_json();
    store.commit(draft, true, Some(1));
    let (mut re, aside) = SettingsStore::open(store.path(), document_holds(&written, HOOKS), Some(1));
    assert!(!aside);
    let f = re.read(Some(1), Disk::Missing);
    assert!(f.onboarded);
    assert_eq!(f.workspace("--ws--").model.as_deref(), Some("m1"));
    assert_eq!(f.workspace("--other--").model, None);
}

/// A file that is not understood is put aside, and the defaults hold.
#[test]
fn corrupt_file_sidecar_and_default() {
    let (mut store, aside) = SettingsStore::open("settings.yaml", Disk::Malformed, Some(1));
    assert!(aside);
    assert_eq!(store.read(Some(1), Disk::Malformed), SettingsFile::default());
    let mut draft = SettingsFile::default();
    draft.onboarded = true;
    store.commit(draft, true, Some(2));
    assert!(store.read(Some(2), Disk::Malformed).onboarded);
    assert!(store.read(Some(3), Disk::Malformed).onboarded);
    assert_eq!(store.loaded_mtime, Some(2));
    let mut newer = SettingsFile::default();
    newer.language = "en".into();
    assert_eq!(store.read(Some(4), Disk::Holds(newer)).language, "en");
    assert_eq!(store.loaded_mtime, Some(4));
    let (store, aside) = SettingsStore::open("settings.yaml", Disk::Unreadable, Some(1));
    assert!(aside);
    assert_eq!(store.file, SettingsFile::default());
}

/// Another version counts as a file that is not understood.
#[test]
fn version_mismatch_treated_as_corrupt() {
    let mut other = SettingsFile::default();
    other.version = 99;
    let (mut store, aside) =
        SettingsStore::open("settings.yaml", document_holds(&other.to_json(), HOOKS), Some(1));
    assert!(aside);
    assert_eq!(store.read(None, Disk::Missing).version, 1);
}

fn edited() -> Json {
    doc(
        r#"{"version":1,"onboarded":false,"workspaces":{},"providers":[
            {"id":"acme","base_url":"https://acme.example/v1","dialect":"openai-chat","api_key":"sk-ext"}]}"#,
    )
}

/// What someone else wrote is taken in; a file that is half written is not.
#[test]
fn external_edit_reloaded_on_read() {
    let (mut store, _) = SettingsStore::open("settings.yaml", Disk::Missing, None);
    let mut draft = store.read(None, Disk::Missing);
    draft.onboarded = true;
    draft.providers.push(builtin_provider());
    store.commit(draft, true, Some(1));
    let f = store.read(Some(2), document_holds(&edited(), HOOKS));
    assert!(!f.onboarded);
    assert_eq!(f.providers[0].api_key.as_deref(), Some("sk-ext"));
    let f = store.read(Some(3), Disk::Malformed);
    assert_eq!(f.providers[0].api_key.as_deref(), Some("sk-ext"));
    assert_eq!(f.providers.len(), 1);
}

/// A change starts from what someone else wrote.
#[test]
fn update_absorbs_external_edit_first() {
    let (mut store, _) = SettingsStore::open("settings.yaml", Disk::Missing, None);
    store.commit(SettingsFile::default(), true, Some(1));
    assert!(store.is_stale(Some(2)));
    assert!(store.reload_if_changed(Some(2), document_holds(&edited(), HOOKS)));
    let mut draft = store.read(Some(2), Disk::Missing);
    draft.workspaces.insert(
        "--w--".into(),
        WorkspaceDefaults { model: Some("m".into()), ..Default::default() },
    );
    let written = draft.to_json();
    store.commit(draft, true, Some(3));
    let (mut re, _) = SettingsStore::open("settings.yaml", document_holds(&written, HOOKS), Some(3));
    let f = re.read(Some(3), Disk::Missing);
    assert!(f.providers.iter().any(|p| p.id == "acme"));
    assert_eq!(f.workspace("--w--").model.as_deref(), Some("m"));
}

/// A change that was not written to disk is void.
#[test]
fn unwritten_change_is_void() {
    let (mut store, _) = SettingsStore::open("settings.yaml", Disk::Missing, None);
    let mut draft = store.read(None, Disk::Missing);
    draft.onboarded = true;
    store.commit(draft, false, Some(7));
    assert!(!store.read(None, Disk::Missing).onboarded);
    assert_eq!(store.loaded_mtime, None);
    assert!(!store.is_stale(None));
}

/// Plain paths and filters.
#[test]
fn json_path_evaluates_filters() {
    let v = doc(
        r#"{
        "balance_infos": [ { "currency": "CNY", "total_balance": "9.52" } ],
        "usage": { "five_hour": { "utilization": 6 }, "resets_in": "4d22h" },
        "data": { "limits": [
            { "type": "TOKENS_LIMIT", "unit": 3, "number": 5, "percentage": 15, "nextResetTime": 1770648402389 },
            { "type": "TOKENS_LIMIT", "unit": 6, "number": 7, "percentage": 42 },
            { "type": "TIME_LIMIT", "unit": 5, "number": 1, "percentage": 45 }
        ]}}"#,
    );
    assert_eq!(
        json_path(&v, "$.balance_infos[0].total_balance").unwrap(),
        Json::text("9.52")
    );
    assert_eq!(json_path(&v, "$.usage.five_hour.utilization").unwrap(), num(6));
    assert_eq!(json_path(&v, "$.usage.resets_in").unwrap(), Json::text("4d22h"));
    assert_eq!(
        json_path(
            &v,
            "$.data.limits[?(@.type==\"TOKENS_LIMIT\" && @.unit==3 && @.number==5)].percentage"
        )
        .unwrap(),
        num(15)
    );
    assert_eq!(
        json_path(
            &v,
            "$.data.limits[?(@.type==\"TOKENS_LIMIT\" && @.unit==6 && @.number==7)].percentage"
        )
        .unwrap(),
        num(42)
    );
    assert!(json_path(&v, "$.balance_infos[5].total_balance").is_none());
    assert!(json_path(&v, "$.usage.nope").is_none());
    assert!(json_path(&v, "not-a-jsonpath").is_none());
}

/// The newer members of a provider are written and read back; an older
/// document lacks them.
#[test]
fn provider_entry_new_fields_roundtrip() {
    let mut model_context_windows: StrMap<u64> = StrMap::new();
    model_context_windows.insert("glm-4.7".to_string(), 128_000);
    let entry = ProviderEntry {
        id: "glm".into(),
        base_url: "https://open.bigmodel.cn/api/anthropic".into(),
        dialect: "anthropic-messages".into(),
        credential_ref: None,
        api_key: None,
        default_model: Some("glm-4.7".into()),
        display_name: Some("智谱 GLM".into()),
        models: vec!["glm-4.7".into(), "glm-4.7-flash".into()],
        billing: Some(BillingConfig {
            kind: BillingKind::Usage,
            url: "https://proxy.example/usage".into(),
            paths: BillingPaths {
                usage_5h: Some("$.five_hour.utilization".into()),
                usage_7d: Some("$.seven_day.utilization".into()),
                resets: Some("$.resets_in".into()),
                ..Default::default()
            },
            auth_style: Some("raw".into()),
        }),
        billing_cache: Some(BillingSnapshot::Usage {
            fetched_at_ms: 1_756_000_000_000,
            pct_5h: Some(6),
            pct_7d: Some(7),
            resets: Some("4d22h".into()),
            resets_7d: Some("1770000000000".into()),
        }),
        model_context_windows,
    };
    let json = entry.to_json();
    assert_eq!(pick(&json, &["billing", "kind"]), &Json::text("usage"));
    assert_eq!(pick(&json, &["models"]).as_array().unwrap()[0], Json::text("glm-4.7"));
    assert_eq!(pick(&json, &["model_context_windows", "glm-4.7"]), &num(128_000));
    let back = ProviderEntry::from_json(&json).unwrap();
    assert_eq!(back, entry);

    let legacy = ProviderEntry::from_json(&doc(
        r#"{"id":"deepseek","base_url":"https://api.deepseek.com/v1","dialect":"openai-completions"}"#,
    ))
    .unwrap();
    assert_eq!(legacy.display_name, None);
    assert!(legacy.models.is_empty());
    assert!(legacy.billing.is_none() && legacy.billing_cache.is_none());
    assert!(legacy.model_context_windows.is_empty());
}

/// Hooks stay with the settings.
#[test]
fn hook_bridge_settings_roundtrip_persists() {
    let entry = HookBridgeEntry {
        id: "cc".into(),
        config_path: "/tmp/demo.json".into(),
        enabled: true,
        ..HookBridgeEntry::in_dialect(HOOKS)
    };
    let (mut store, _) = SettingsStore::open("settings.json", Disk::Missing, None);
    let mut draft = store.read(None, Disk::Missing);
    draft.hook_bridges.push(entry);
    let written = draft.to_json();
    store.commit(draft, true, Some(1));
    let (mut again, _) = SettingsStore::open("settings.json", document_holds(&written, HOOKS), Some(1));
    let bridges = again.read(Some(1), Disk::Missing).hook_bridges;
    assert_eq!(bridges.len(), 1);
    assert_eq!(bridges[0].id, "cc");
    assert_eq!(bridges[0].dialect, HOOKS);
}

/// What is written as settings is read back as it was.
#[test]
fn settings_are_read_back() {
    let mut f = SettingsFile::default();
    f.onboarded = true;
    f.workspace_paths = vec!["/a".into(), "/b".into()];
    f.workspace_titles.insert("b".into(), "Second".into());
    f.workspaces.insert(
        "--a--".into(),
        WorkspaceDefaults { effort: Some("low".into()), ..Default::default() },
    );
    f.mcp_servers.push(McpServerEntry { id: "x".into(), command: "npx".into(), ..Default::default() });
    f.hook_bridges.push(HookBridgeEntry {
        id: "h".into(),
        stderr_summary_max_chars: Some(9),
        ..HookBridgeEntry::in_dialect(HOOKS)
    });
    f.language = "en".into();
    assert_eq!(SettingsFile::from_json(&f.to_json(), HOOKS).unwrap(), f);
}

/// Members that may be missing fall back; those of another kind are refused.
#[test]
fn settings_members_of_another_kind_are_refused() {
    let least = doc(r#"{"version":1,"onboarded":true,"providers":[],"workspaces":{}}"#);
    let f = SettingsFile::from_json(&least, HOOKS).unwrap();
    assert_eq!(f.busy_enter, "queue");
    assert_eq!(f.language, "zh");
    assert_eq!(f.appearance, "dark");
    assert!(f.providers.is_empty());
    for text in [
        r#"[]"#,
        r#"{"onboarded":true,"providers":[],"workspaces":{}}"#,
        r#"{"version":4294967296,"onboarded":true,"providers":[],"workspaces":{}}"#,
        r#"{"version":1,"onboarded":"yes","providers":[],"workspaces":{}}"#,
        r#"{"version":1,"onboarded":true,"providers":[{"id":"x"}],"workspaces":{}}"#,
        r#"{"version":1,"onboarded":true,"providers":[],"workspaces":{"w":{"model":3}}}"#,
        r#"{"version":1,"onboarded":true,"providers":[],"workspaces":{},"language":null}"#,
        r#"{"version":1,"onboarded":true,"providers":[],"workspaces":{},"workspace_paths":[1]}"#,
    ] {
        assert!(SettingsFile::from_json(&doc(text), HOOKS).is_none(), "{text}");
        assert_eq!(document_holds(&doc(text), HOOKS), Disk::Malformed);
    }
    let hook = HookBridgeEntry::from_json(&doc("{}"), HOOKS).unwrap();
    assert_eq!(hook.dialect, HOOKS);
    assert!(hook.enabled);
    assert!(HookBridgeEntry::from_json(&doc(r#"{"defaultTimeoutMs":-1}"#), HOOKS).is_none());
    assert!(BillingSnapshot::from_json(&doc(
        r#"{"kind":"usage","fetched_at_ms":1,"pct_5h":300}"#
    ))
    .is_none());
    assert_eq!(
        BillingSnapshot::from_json(&doc(r#"{"kind":"balance","fetched_at_ms":1,"amount":"9"}"#)),
        Some(BillingSnapshot::Balance { fetched_at_ms: 1, amount: "9".into(), currency: None })
    );
}

/// How much context a model takes is looked up by its name.
#[test]
fn context_window_is_by_model() {
    let mut p = builtin_provider();
    p.model_context_windows.insert("m".into(), 5);
    assert_eq!(p.context_window_for("m"), Some(5));
    assert_eq!(p.context_window_for("n"), None);
}

/// The catalog has the built-in provider first, and ids that differ.
#[test]
fn catalog_ids_differ() {
    let all = provider_catalog();
    assert_eq!(all[0].id, "deepseek");
    assert_eq!(all[0].copy().to_json(), all[0].to_json());
    assert_eq!(all[0].to_json().str_at("id"), Some("deepseek"));
    for i in 0..all.len() {
        for k in 0..i {
            assert_ne!(all[i].id, all[k].id);
        }
    }
}
