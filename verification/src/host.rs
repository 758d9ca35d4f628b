//! The state of the host, and what it resolves: the workspace of a session, the
//! provider of a workspace, the model, preset and effort of a session.
use vstd::prelude::*;
use vstd::string::*;

use crate::interact::text_view;
use crate::paths::{key_of, project_key};
use crate::settings::{
    ProviderEntry, ProviderView, SettingsFile, SettingsView, WorkspaceDefaults,
    WorkspaceDefaultsView, copy_strings, defaults_of, provider_of, text_map, text_seq,
};
use crate::strmap::StrMap;
use crate::text::{parted, same, split_once};
use crate::workspaces::{Workspace, WsView, workspace_index, ws_named, ws_views};

verus! {

/// What the host was assembled with.
#[derive(Debug, PartialEq)]
pub struct BaseConfig {
    pub model: String,
    pub dialect: String,
    /// The models to choose from, where they are fixed.
    pub models: Option<Vec<String>>,
    pub reasoning_effort: Option<String>,
}

/// What the configuration file of a workspace says.
#[derive(Debug, PartialEq)]
pub struct WorkspaceConfig {
    pub model: Option<String>,
    pub preset: Option<String>,
    pub reasoning_effort: Option<String>,
    pub base_url: Option<String>,
    pub dialect: Option<String>,
    pub context_window: Option<u64>,
}

/// What decides whether the sessions of a provider must be assembled anew.
#[derive(Debug, PartialEq)]
pub struct Fingerprint {
    pub api_key: Option<String>,
    pub base_url: String,
    pub dialect: String,
}

/// The model of a fingerprint.
pub struct FingerprintView {
    pub api_key: Option<Seq<char>>,
    pub base_url: Seq<char>,
    pub dialect: Seq<char>,
}

impl View for Fingerprint {
    type V = FingerprintView;

    open spec fn view(&self) -> FingerprintView {
        FingerprintView {
            api_key: text_view(self.api_key),
            base_url: self.base_url@,
            dialect: self.dialect@,
        }
    }
}

/// The state of the host.
#[derive(Debug)]
pub struct AppHost {
    /// The directory that the host was started in.
    pub launch: Workspace,
    /// The workspaces, in the order in which they are shown.
    pub workspaces: Vec<Workspace>,
    /// Whether the host runs without providers.
    pub fake: bool,
    pub base: BaseConfig,
    pub settings: SettingsFile,
    /// What the providers were like when sessions were last checked.
    pub provider_fp: StrMap<Fingerprint>,
    /// The attached sessions, and whether each is running.
    pub sessions: StrMap<bool>,
    pub model_overrides: StrMap<String>,
    pub preset_overrides: StrMap<String>,
    pub effort_overrides: StrMap<String>,
    pub titles: StrMap<String>,
    /// The models that providers named.
    pub models_cache: StrMap<Vec<String>>,
}

/// The model of the state of the host.
pub struct HostView {
    pub launch: WsView,
    pub workspaces: Seq<WsView>,
    pub fake: bool,
    pub base: BaseConfig,
    pub settings: SettingsView,
    pub provider_fp: Map<Seq<char>, FingerprintView>,
    pub sessions: Map<Seq<char>, bool>,
    pub model_overrides: Map<Seq<char>, Seq<char>>,
    pub preset_overrides: Map<Seq<char>, Seq<char>>,
    pub effort_overrides: Map<Seq<char>, Seq<char>>,
    pub titles: Map<Seq<char>, Seq<char>>,
    pub models_cache: Map<Seq<char>, Seq<Seq<char>>>,
}

/// The model of a map to runs of texts.
pub open spec fn lists_map(m: Map<Seq<char>, Vec<String>>) -> Map<Seq<char>, Seq<Seq<char>>> {
    m.map_values(|v: Vec<String>| text_seq(v@))
}

impl View for AppHost {
    type V = HostView;

    open spec fn view(&self) -> HostView {
        HostView {
            launch: self.launch@,
            workspaces: ws_views(self.workspaces@),
            fake: self.fake,
            base: self.base,
            settings: self.settings@,
            provider_fp: self.provider_fp@.map_values(|f: Fingerprint| f@),
            sessions: self.sessions@,
            model_overrides: text_map(self.model_overrides@),
            preset_overrides: text_map(self.preset_overrides@),
            effort_overrides: text_map(self.effort_overrides@),
            titles: text_map(self.titles@),
            models_cache: lists_map(self.models_cache@),
        }
    }
}

impl HostView {
    /// The default workspace: the first one, or the launch directory where there
    /// is none.
    pub open spec fn default_workspace(self) -> WsView {
        if self.workspaces.len() > 0 {
            self.workspaces[0]
        } else {
            self.launch
        }
    }

    /// The workspace and the name, in it, of a session. Sessions outside the
    /// default workspace carry the name of theirs before a slash.
    pub open spec fn resolve(self, id: Seq<char>) -> (WsView, Seq<char>) {
        match parted(id, '/') {
            Some((ws, stem)) => match ws_named(self.workspaces, ws) {
                Some(w) => (w, stem),
                None => (self.default_workspace(), id),
            },
            None => (self.default_workspace(), id),
        }
    }

    /// The workspace of a session.
    pub open spec fn workspace_of_session(self, id: Seq<char>) -> WsView {
        let (ws, stem) = self.resolve(id);
        ws
    }

    /// Where the log of a session is, under the directory of sessions: the directory
    /// of its workspace's, its own in it, and the file.
    pub open spec fn log_path(self, id: Seq<char>) -> Seq<Seq<char>> {
        let (ws, stem) = self.resolve(id);
        seq![key_of(ws.path), stem, "session.jsonl"@]
    }

    /// What the settings say of a workspace.
    pub open spec fn defaults(self, ws: WsView) -> WorkspaceDefaultsView {
        defaults_of(self.settings.workspaces, key_of(ws.path))
    }

    /// The provider of a workspace.
    pub open spec fn provider_for(self, ws: WsView) -> ProviderView {
        provider_of(self.settings.providers, self.defaults(ws).provider)
    }

    /// The models of a provider: those that the settings name, else those that
    /// it named itself.
    pub open spec fn models_for(self, provider_id: Seq<char>) -> Seq<Seq<char>> {
        let configured = provider_of(self.settings.providers, Some(provider_id)).models;
        if configured.len() > 0 {
            configured
        } else if self.models_cache.dom().contains(provider_id) {
            self.models_cache[provider_id]
        } else {
            Seq::empty()
        }
    }

    /// The model that holds unless a session or its workspace says otherwise:
    /// that of the default workspace, of its provider, or of the host; but the
    /// first one that the provider has, where it has any and not that one.
    pub open spec fn default_model(self) -> Seq<char> {
        let ws = self.default_workspace();
        let provider = self.provider_for(ws);
        let configured = match self.defaults(ws).model {
            Some(m) => m,
            None => match provider.default_model {
                Some(m) => m,
                None => self.base.model@,
            },
        };
        let list = self.models_for(provider.id);
        if list.len() > 0 && !list.contains(configured) {
            list[0]
        } else {
            configured
        }
    }

    /// The title that is kept for a session.
    pub open spec fn kept_title(self, id: Seq<char>) -> Option<Seq<char>> {
        if self.titles.dom().contains(id) {
            Some(self.titles[id])
        } else {
            None
        }
    }

    /// The title of a session, given the one that its first message gives.
    pub open spec fn session_title(self, id: Seq<char>, first: Option<Seq<char>>) -> Option<
        Seq<char>,
    > {
        match self.kept_title(id) {
            Some(t) => Some(t),
            None => first,
        }
    }

    /// The model of a session.
    pub open spec fn session_model(self, id: Seq<char>, cfg: WorkspaceConfig) -> Seq<char> {
        if self.model_overrides.dom().contains(id) {
            self.model_overrides[id]
        } else {
            match text_view(cfg.model) {
                Some(m) => m,
                None => match self.defaults(self.workspace_of_session(id)).model {
                    Some(m) => m,
                    None => self.default_model(),
                },
            }
        }
    }

    /// The preset of a session.
    pub open spec fn session_preset(self, id: Seq<char>, cfg: WorkspaceConfig) -> Seq<char> {
        if self.preset_overrides.dom().contains(id) {
            self.preset_overrides[id]
        } else {
            match text_view(cfg.preset) {
                Some(p) => p,
                None => match self.defaults(self.workspace_of_session(id)).preset {
                    Some(p) => p,
                    None => "standard"@,
                },
            }
        }
    }

    /// The effort of a session.
    pub open spec fn session_effort(self, id: Seq<char>, cfg: WorkspaceConfig) -> Seq<char> {
        if self.effort_overrides.dom().contains(id) {
            self.effort_overrides[id]
        } else {
            match text_view(cfg.reasoning_effort) {
                Some(e) => e,
                None => match self.defaults(self.workspace_of_session(id)).effort {
                    Some(e) => e,
                    None => match text_view(self.base.reasoning_effort) {
                        Some(e) => e,
                        None => "high"@,
                    },
                },
            }
        }
    }

    /// How much context the model of a session takes.
    pub open spec fn session_window(self, id: Seq<char>, cfg: WorkspaceConfig, builtin: u64) -> u64 {
        match cfg.context_window {
            Some(w) if w > 0 => w,
            _ => {
                let windows = self.provider_for(
                    self.workspace_of_session(id),
                ).model_context_windows;
                let model = self.session_model(id, cfg);
                if windows.dom().contains(model) && windows[model] > 0 {
                    windows[model]
                } else {
                    builtin
                }
            },
        }
    }
}

impl AppHost {
    /// No key of its maps comes twice.
    pub open spec fn wf(self) -> bool {
        &&& self.settings.wf()
        &&& self.provider_fp.wf()
        &&& self.sessions.wf()
        &&& self.model_overrides.wf()
        &&& self.preset_overrides.wf()
        &&& self.effort_overrides.wf()
        &&& self.titles.wf()
        &&& self.models_cache.wf()
    }

    /// The default workspace.
    pub fn default_workspace(&self) -> (r: Workspace)
        ensures
            r@ == self@.default_workspace(),
    {
        if self.workspaces.len() > 0 {
            assert(self@.workspaces[0] == self.workspaces@[0]@);
            self.workspaces[0].copy()
        } else {
            self.launch.copy()
        }
    }

    /// The name of the default workspace; empty where it has none.
    pub fn default_workspace_name(&self) -> (r: String)
        ensures
            r@ == (match self@.default_workspace().name {
                Some(n) => n,
                None => Seq::empty(),
            }),
    {
        match self.default_workspace().name {
            Some(n) => n,
            None => String::new(),
        }
    }

    /// The workspace of a name.
    pub fn workspace_of(&self, name: &str) -> (r: Option<Workspace>)
        ensures
            match r {
                Some(w) => ws_named(self@.workspaces, name@) == Some(w@),
                None => ws_named(self@.workspaces, name@) is None,
            },
    {
        match workspace_index(&self.workspaces, name) {
            Some(k) => {
                assert(self@.workspaces[k as int] == self.workspaces@[k as int]@);
                Some(self.workspaces[k].copy())
            },
            None => None,
        }
    }

    /// The workspace of a session, and its name in it.
    pub fn resolve_session(&self, id: &str) -> (r: (Workspace, String))
        ensures
            self@.resolve(id@) == (r.0@, r.1@),
    {
        if let Some((ws, stem)) = split_once(id, '/') {
            if let Some(w) = self.workspace_of(ws.as_str()) {
                return (w, stem);
            }
        }
        (self.default_workspace(), id.to_owned())
    }

    /// The directory, under the directory of sessions, and the file of a
    /// session.
    pub fn slot_path(&self, id: &str) -> (r: Vec<String>)
        ensures
            text_seq(r@) == self@.log_path(id@),
    {
        let (ws, stem) = self.resolve_session(id);
        let mut parts: Vec<String> = Vec::new();
        parts.push(project_key(ws.path.as_str()));
        parts.push(stem);
        parts.push("session.jsonl".to_owned());
        assert(text_seq(parts@) =~= self@.log_path(id@));
        parts
    }

    /// The names of the workspaces, the default one first.
    pub fn workspace_names(&self) -> (r: Vec<String>)
        ensures
            text_seq(r@) == names_of(self@.workspaces),
    {
        let ghost all = self@.workspaces;
        let mut out: Vec<String> = Vec::new();
        let mut i: usize = 0;
        proof {
            assert(all.take(0) =~= Seq::empty());
            assert(text_seq(out@) =~= Seq::empty());
        }
        while i < self.workspaces.len()
            invariant
                i <= self.workspaces.len(),
                all == ws_views(self.workspaces@),
                text_seq(out@) == names_of(all.take(i as int)),
            decreases self.workspaces.len() - i,
        {
            proof {
                assert(all.take(i + 1).drop_last() =~= all.take(i as int));
                assert(all.take(i + 1).last() == self.workspaces@[i as int]@);
            }
            if let Some(n) = &self.workspaces[i].name {
                let name = n.clone();
                assert(text_seq(out@.push(name)) =~= text_seq(out@).push(name@));
                out.push(name);
            }
            i = i + 1;
        }
        assert(all.take(all.len() as int) =~= all);
        out
    }

    /// What the settings say of a workspace.
    pub fn defaults_for(&self, ws: &Workspace) -> (r: WorkspaceDefaults)
        ensures
            r@ == self@.defaults(ws@),
    {
        let key = project_key(ws.path.as_str());
        self.settings.workspace(key.as_str())
    }

    /// The provider of a workspace.
    pub fn provider_for(&self, ws: &Workspace) -> (r: ProviderEntry)
        requires
            self.wf(),
        ensures
            r@ == self@.provider_for(ws@),
            r.wf(),
    {
        let d = self.defaults_for(ws);
        match &d.provider {
            Some(id) => self.settings.provider(Some(id.as_str())),
            None => self.settings.provider(None),
        }
    }

    /// The provider of the default workspace.
    pub fn default_provider(&self) -> (r: ProviderEntry)
        requires
            self.wf(),
        ensures
            r@ == self@.provider_for(self@.default_workspace()),
            r.wf(),
    {
        self.provider_for(&self.default_workspace())
    }

    /// The models of a provider.
    pub fn models_for(&self, provider_id: &str) -> (r: Vec<String>)
        requires
            self.wf(),
        ensures
            text_seq(r@) == self@.models_for(provider_id@),
    {
        let configured = self.settings.provider(Some(provider_id)).models;
        if configured.len() > 0 {
            return configured;
        }
        match self.models_cache.get(provider_id) {
            Some(v) => copy_strings(v),
            None => {
                let none: Vec<String> = Vec::new();
                assert(text_seq(none@) =~= Seq::empty());
                none
            },
        }
    }

    /// The models to choose from: those that are fixed, else those of the
    /// provider of the default workspace.
    pub fn models(&self) -> (r: Vec<String>)
        requires
            self.wf(),
        ensures
            text_seq(r@) == (match self.base.models {
                Some(v) => text_seq(v@),
                None => self@.models_for(self@.provider_for(self@.default_workspace()).id),
            }),
    {
        if let Some(v) = &self.base.models {
            return copy_strings(v);
        }
        let p = self.default_provider();
        self.models_for(p.id.as_str())
    }

    /// The model that holds unless something else says otherwise.
    pub fn default_model(&self) -> (r: String)
        requires
            self.wf(),
        ensures
            r@ == self@.default_model(),
    {
        let ws = self.default_workspace();
        let d = self.defaults_for(&ws);
        let provider = self.provider_for(&ws);
        let configured: String = match &d.model {
            Some(m) => m.clone(),
            None => match &provider.default_model {
                Some(m) => m.clone(),
                None => self.base.model.clone(),
            },
        };
        let list = self.models_for(provider.id.as_str());
        assert(text_seq(list@).len() == list@.len());
        if list.len() > 0 && !contains_text(&list, configured.as_str()) {
            assert(text_seq(list@)[0] == list@[0]@);
            return list[0].clone();
        }
        configured
    }

    /// The model of a session, given what the file of its workspace says.
    pub fn session_model(&self, id: &str, cfg: &WorkspaceConfig) -> (r: String)
        requires
            self.wf(),
        ensures
            r@ == self@.session_model(id@, *cfg),
    {
        if let Some(m) = self.model_overrides.get(id) {
            return m.clone();
        }
        if let Some(m) = &cfg.model {
            return m.clone();
        }
        let (ws, stem) = self.resolve_session(id);
        match self.defaults_for(&ws).model {
            Some(m) => m,
            None => self.default_model(),
        }
    }

    /// The preset of a session, given what the file of its workspace says.
    pub fn session_preset(&self, id: &str, cfg: &WorkspaceConfig) -> (r: String)
        ensures
            r@ == self@.session_preset(id@, *cfg),
    {
        if let Some(p) = self.preset_overrides.get(id) {
            return p.clone();
        }
        if let Some(p) = &cfg.preset {
            return p.clone();
        }
        let (ws, stem) = self.resolve_session(id);
        match self.defaults_for(&ws).preset {
            Some(p) => p,
            None => "standard".to_owned(),
        }
    }

    /// The effort of a session, given what the file of its workspace says.
    pub fn session_effort(&self, id: &str, cfg: &WorkspaceConfig) -> (r: Option<String>)
        ensures
            text_view(r) == Some(self@.session_effort(id@, *cfg)),
    {
        if let Some(e) = self.effort_overrides.get(id) {
            return Some(e.clone());
        }
        if let Some(e) = &cfg.reasoning_effort {
            return Some(e.clone());
        }
        let (ws, stem) = self.resolve_session(id);
        match self.defaults_for(&ws).effort {
            Some(e) => Some(e),
            None => match &self.base.reasoning_effort {
                Some(e) => Some(e.clone()),
                None => Some("high".to_owned()),
            },
        }
    }

    /// How much context the model of a session takes, given what the file of its
    /// workspace says and what holds where nothing is said.
    pub fn session_context_window(&self, id: &str, cfg: &WorkspaceConfig, builtin: u64) -> (r: u64)
        requires
            self.wf(),
        ensures
            r == self@.session_window(id@, *cfg, builtin),
    {
        if let Some(w) = cfg.context_window {
            if w > 0 {
                return w;
            }
        }
        let (ws, stem) = self.resolve_session(id);
        let provider = self.provider_for(&ws);
        let model = self.session_model(id, cfg);
        match provider.context_window_for(model.as_str()) {
            Some(w) => w,
            None => builtin,
        }
    }

    /// The levels of effort.
    pub fn efforts(&self) -> (r: Vec<String>)
        ensures
            text_seq(r@) == seq!["low"@, "high"@, "max"@],
    {
        let mut v: Vec<String> = Vec::new();
        v.push("low".to_owned());
        v.push("high".to_owned());
        v.push("max".to_owned());
        assert(text_seq(v@) =~= seq!["low"@, "high"@, "max"@]);
        v
    }
}

/// The names that some workspaces have.
pub open spec fn names_of(all: Seq<WsView>) -> Seq<Seq<char>>
    decreases all.len(),
{
    if all.len() == 0 {
        Seq::empty()
    } else {
        match all.last().name {
            Some(n) => names_of(all.drop_last()).push(n),
            None => names_of(all.drop_last()),
        }
    }
}

/// Whether a text is among some.
pub fn contains_text(list: &Vec<String>, wanted: &str) -> (r: bool)
    ensures
        r == text_seq(list@).contains(wanted@),
{
    let ghost all = text_seq(list@);
    let mut i: usize = 0;
    while i < list.len()
        invariant
            i <= list.len(),
            all == text_seq(list@),
            forall|k: int| 0 <= k < i ==> all[k] != wanted@,
        decreases list.len() - i,
    {
        assert(all[i as int] == list@[i as int]@);
        if same(list[i].as_str(), wanted) {
            return true;
        }
        i = i + 1;
    }
    false
}

/// A session under a workspace is found there: its id is the name of the
/// workspace, a slash and its name, whatever slashes its name holds.
pub proof fn law_prefixed_session_resolves(h: HostView, name: Seq<char>, stem: Seq<char>)
    requires
        ws_named(h.workspaces, name) is Some,
        forall|i: int| 0 <= i < name.len() ==> name[i] != '/',
    ensures
        h.resolve(name + seq!['/'] + stem) == (ws_named(h.workspaces, name)->0, stem),
{
    let id = name + seq!['/'] + stem;
    let k = name.len() as int;
    assert(id[k] == '/');
    crate::text::lemma_char_place_is(id, '/', k);
    assert(id.take(k) =~= name);
    assert(id.skip(k + 1) =~= stem);
}

/// A session whose id holds no slash is in the default workspace.
pub proof fn law_bare_session_is_in_default(h: HostView, id: Seq<char>)
    requires
        forall|i: int| 0 <= i < id.len() ==> id[i] != '/',
    ensures
        h.resolve(id) == (h.default_workspace(), id),
{
    crate::text::lemma_char_place_is(id, '/', id.len() as int);
}

/// What a session itself says of its model, preset or effort goes before what
/// anything else says.
pub proof fn law_override_wins(h: HostView, id: Seq<char>, cfg: WorkspaceConfig, s: Seq<char>)
    ensures
        (HostView { model_overrides: h.model_overrides.insert(id, s), ..h }).session_model(id, cfg)
            == s,
        (HostView {
            preset_overrides: h.preset_overrides.insert(id, s),
            ..h
        }).session_preset(id, cfg) == s,
        (HostView {
            effort_overrides: h.effort_overrides.insert(id, s),
            ..h
        }).session_effort(id, cfg) == s,
{
}

/// The default workspace is the head of the list; without any it is the launch
/// directory. An id with the name of no workspace before its slash is in it as a whole.
pub proof fn law_default_workspace_is_head(h: HostView, name: Seq<char>, stem: Seq<char>)
    requires
        ws_named(h.workspaces, name) is None,
        forall|i: int| 0 <= i < name.len() ==> name[i] != '/',
    ensures
        h.workspaces.len() > 0 ==> h.default_workspace() == h.workspaces[0],
        h.workspaces.len() == 0 ==> h.default_workspace() == h.launch,
        h.resolve(name + seq!['/'] + stem) == (h.default_workspace(), name + seq!['/'] + stem),
{
    let id = name + seq!['/'] + stem;
    let k = name.len() as int;
    assert(id[k] == '/');
    crate::text::lemma_char_place_is(id, '/', k);
    assert(id.take(k) =~= name);
}

/// Where the log of a session is: in the directory of its workspace, in one of its own.
pub proof fn law_log_is_in_its_workspace(h: HostView, id: Seq<char>)
    ensures
        h.log_path(id).len() == 3,
        h.log_path(id)[0] == key_of(h.workspace_of_session(id).path),
        h.log_path(id)[1] == h.resolve(id).1,
        h.log_path(id)[2] == "session.jsonl"@,
{
}

/// What decides the model of a session that says nothing itself: the file of its
/// workspace, else what the settings say of the workspace, else the default model. That
/// is what the settings say of the default workspace, else the default of its provider,
/// else that of the host; but one that the provider has, where it has any.
pub proof fn law_model_is_decided_in_order(h: HostView, id: Seq<char>, cfg: WorkspaceConfig)
    requires
        !h.model_overrides.dom().contains(id),
    ensures
        text_view(cfg.model) matches Some(m) ==> h.session_model(id, cfg) == m,
        text_view(cfg.model) is None ==> (h.defaults(h.workspace_of_session(id)).model matches Some(
            m,
        ) ==> h.session_model(id, cfg) == m),
        text_view(cfg.model) is None && h.defaults(h.workspace_of_session(id)).model is None
            ==> h.session_model(id, cfg) == h.default_model(),
        ({
            let ws = h.default_workspace();
            let list = h.models_for(h.provider_for(ws).id);
            let wanted = match h.defaults(ws).model {
                Some(m) => m,
                None => match h.provider_for(ws).default_model {
                    Some(m) => m,
                    None => h.base.model@,
                },
            };
            &&& list.len() == 0 || list.contains(wanted) ==> h.default_model() == wanted
            &&& list.len() > 0 ==> list.contains(h.default_model())
            &&& list.len() > 0 && !list.contains(wanted) ==> h.default_model() == list[0]
        }),
{
    let list = h.models_for(h.provider_for(h.default_workspace()).id);
    if list.len() > 0 {
        assert(list.contains(list[0]));
    }
}

/// What decides the preset, the effort and the context of a session that says nothing
/// itself: the file of its workspace, else what the settings say of the workspace, else
/// what holds for all.
pub proof fn law_rest_is_decided_in_order(
    h: HostView,
    id: Seq<char>,
    cfg: WorkspaceConfig,
    builtin: u64,
)
    requires
        !h.preset_overrides.dom().contains(id),
        !h.effort_overrides.dom().contains(id),
    ensures
        h.session_preset(id, cfg) == (match (
            text_view(cfg.preset),
            h.defaults(h.workspace_of_session(id)).preset,
        ) {
            (Some(p), _) => p,
            (None, Some(p)) => p,
            (None, None) => "standard"@,
        }),
        h.session_effort(id, cfg) == (match (
            text_view(cfg.reasoning_effort),
            h.defaults(h.workspace_of_session(id)).effort,
            text_view(h.base.reasoning_effort),
        ) {
            (Some(e), _, _) => e,
            (None, Some(e), _) => e,
            (None, None, Some(e)) => e,
            (None, None, None) => "high"@,
        }),
        cfg.context_window matches Some(w) && w > 0 ==> h.session_window(id, cfg, builtin)
            == cfg.context_window->0,
        (cfg.context_window is None || cfg.context_window == Some(0u64)) ==> {
            let windows = h.provider_for(h.workspace_of_session(id)).model_context_windows;
            let model = h.session_model(id, cfg);
            &&& windows.dom().contains(model) && windows[model] > 0 ==> h.session_window(
                id,
                cfg,
                builtin,
            ) == windows[model]
            &&& !windows.dom().contains(model) || windows[model] == 0 ==> h.session_window(
                id,
                cfg,
                builtin,
            ) == builtin
        },
{
}

/// The models of a provider are those that the settings name for it; only where they name
/// none, those that it named itself.
pub proof fn law_set_models_go_first(h: HostView, id: Seq<char>)
    ensures
        provider_of(h.settings.providers, Some(id)).models.len() > 0 ==> h.models_for(id)
            == provider_of(h.settings.providers, Some(id)).models,
        provider_of(h.settings.providers, Some(id)).models.len() == 0 && h.models_cache.dom().contains(
            id,
        ) ==> h.models_for(id) == h.models_cache[id],
        provider_of(h.settings.providers, Some(id)).models.len() == 0
            && !h.models_cache.dom().contains(id) ==> h.models_for(id).len() == 0,
{
}

/// The names are those that workspaces have, in order.
pub proof fn law_names_are_those_of_workspaces(all: Seq<WsView>)
    ensures
        names_of(all).len() == all.filter(|w: WsView| w.name is Some).len(),
        forall|i: int|
            0 <= i < names_of(all).len() ==> all.filter(|w: WsView| w.name is Some)[i].name == Some(
                #[trigger] names_of(all)[i],
            ),
{
    lemma_names(all, |w: WsView| w.name is Some);
}

proof fn lemma_names(all: Seq<WsView>, named: spec_fn(WsView) -> bool)
    requires
        forall|w: WsView| #[trigger] named(w) == (w.name is Some),
    ensures
        names_of(all).len() == all.filter(named).len(),
        forall|i: int|
            0 <= i < names_of(all).len() ==> all.filter(named)[i].name == Some(
                #[trigger] names_of(all)[i],
            ),
    decreases all.len(),
{
    reveal(Seq::filter);
    if all.len() > 0 {
        lemma_names(all.drop_last(), named);
        assert(named(all.last()) == (all.last().name is Some));
    }
}

/// The title of a session is the one that is kept for it; where none is kept it is that of
/// its first message, as far as there is one.
pub proof fn law_kept_title_goes_first(h: HostView, id: Seq<char>, first: Option<Seq<char>>)
    ensures
        h.titles.dom().contains(id) ==> h.session_title(id, first) == Some(h.titles[id]),
        !h.titles.dom().contains(id) ==> h.session_title(id, first) == first,
        h.titles.dom().contains(id) <==> h.kept_title(id) is Some,
{
}

/// What the settings say of a workspace is what stands under its key, and nothing where
/// nothing stands there.
pub proof fn law_defaults_are_by_workspace(h: HostView, ws: WsView)
    ensures
        h.settings.workspaces.dom().contains(key_of(ws.path)) ==> h.defaults(ws)
            == h.settings.workspaces[key_of(ws.path)],
        !h.settings.workspaces.dom().contains(key_of(ws.path)) ==> h.defaults(ws).provider is None
            && h.defaults(ws).model is None && h.defaults(ws).default_permission_preset is None
            && h.defaults(ws).preset is None && h.defaults(ws).effort is None,
{
}

} // verus!
