//! What clients are shown of the host: its settings, its workspaces, its
//! presets, and the work that it has done in the background.
use vstd::prelude::*;
use vstd::string::*;

use crate::codec::{defaults_json, defaults_tree};
use crate::host::{AppHost, HostView, contains_text, names_of};
use crate::interact::{str_view, text_view};
use crate::json::{
    Json, JsonTree, Num, copy_all, int_tree, lemma_set, lemma_with, lemma_with_some, text_trees,
    texts_json, trees,
};
use crate::proto::{WorkspaceListValue, WorkspaceView};
use crate::sessions::name_or_empty;
use crate::settings::{
    ProviderEntry, ProviderView, SettingsFile, find_provider, hook_bridge_entry_trees,
    hooks_json, mcp_server_entry_trees, servers_json, nullable_text,
    number_map_json, number_map_tree, provider_of, text_or_null, text_seq,
};
use crate::text::{joined, parted, same, split_once};
use crate::workspaces::{WsView, ws_named, ws_views};

verus! {

// Settings.

/// What is shown of a provider: not its key, but whether it has one, whether its
/// key can be had, and whether its models are known.
pub open spec fn provider_card(p: ProviderEntry, ready: bool, cached: bool) -> JsonTree {
    JsonTree::object().with("id"@, JsonTree::Text(p.id@)).with(
        "base_url"@,
        JsonTree::Text(p.base_url@),
    ).with("dialect"@, JsonTree::Text(p.dialect@)).with(
        "credential_ref"@,
        text_or_null(p.credential_ref),
    ).with("default_model"@, text_or_null(p.default_model)).with(
        "display_name"@,
        text_or_null(p.display_name),
    ).with("models"@, JsonTree::Array(text_trees(p.models@))).with(
        "billing"@,
        match p.billing {
            Some(b) => b.tree(),
            None => JsonTree::Null,
        },
    ).with(
        "billing_cache"@,
        match p.billing_cache {
            Some(b) => b.tree(),
            None => JsonTree::Null,
        },
    ).with_some(
        "model_context_windows"@,
        if p.model_context_windows.entries@.len() == 0 {
            None
        } else {
            Some(number_map_tree(p.model_context_windows.entries@))
        },
    ).with(
        "apiKeySet"@,
        JsonTree::Bool(
            match text_view(p.api_key) {
                Some(k) => k.len() > 0,
                None => false,
            },
        ),
    ).with("credentialReady"@, JsonTree::Bool(ready)).with("modelsCached"@, JsonTree::Bool(cached))
}

fn provider_card_json(p: &ProviderEntry, ready: bool, cached: bool) -> (r: Json)
    ensures
        r@ == provider_card(*p, ready, cached),
{
    let key_set = match &p.api_key {
        Some(k) => !k.as_str().is_empty(),
        None => false,
    };
    let billing = match &p.billing {
        Some(b) => b.to_json(),
        None => Json::Null,
    };
    let cache = match &p.billing_cache {
        Some(b) => b.to_json(),
        None => Json::Null,
    };
    let windows: Option<Json> = if p.model_context_windows.entries.len() == 0 {
        None
    } else {
        Some(number_map_json(&p.model_context_windows))
    };
    Json::object().with("id", Json::text(p.id.as_str())).with(
        "base_url",
        Json::text(p.base_url.as_str()),
    ).with("dialect", Json::text(p.dialect.as_str())).with(
        "credential_ref",
        nullable_text(&p.credential_ref),
    ).with("default_model", nullable_text(&p.default_model)).with(
        "display_name",
        nullable_text(&p.display_name),
    ).with("models", texts_json(&p.models)).with("billing", billing).with(
        "billing_cache",
        cache,
    ).with_some("model_context_windows", windows).with("apiKeySet", Json::Bool(key_set)).with(
        "credentialReady",
        Json::Bool(ready),
    ).with("modelsCached", Json::Bool(cached))
}

proof fn lemma_no_key(t: JsonTree, key: Seq<char>, value: JsonTree)
    requires
        t is Object,
        t.get("api_key"@) is None,
        key != "api_key"@,
    ensures
        t.with(key, value) is Object,
        t.with(key, value).get("api_key"@) is None,
{
    lemma_with(t, key, value);
}

/// The key of a provider is never shown.
pub proof fn law_key_is_not_shown(p: ProviderEntry, ready: bool, cached: bool)
    ensures
        provider_card(p, ready, cached).get("api_key"@) is None,
{
    reveal_strlit("api_key");
    reveal_strlit("id");
    reveal_strlit("base_url");
    reveal_strlit("dialect");
    reveal_strlit("credential_ref");
    reveal_strlit("default_model");
    reveal_strlit("display_name");
    reveal_strlit("models");
    reveal_strlit("billing");
    reveal_strlit("billing_cache");
    reveal_strlit("model_context_windows");
    reveal_strlit("apiKeySet");
    reveal_strlit("credentialReady");
    reveal_strlit("modelsCached");
    assert("api_key"@.len() == 7 && "id"@.len() == 2 && "base_url"@.len() == 8 && "dialect"@.len()
        == 7 && "credential_ref"@.len() == 14 && "default_model"@.len() == 13
        && "display_name"@.len() == 12 && "models"@.len() == 6 && "billing"@.len() == 7
        && "billing_cache"@.len() == 13 && "model_context_windows"@.len() == 21
        && "apiKeySet"@.len() == 9 && "credentialReady"@.len() == 15 && "modelsCached"@.len() == 12);
    assert("api_key"@[0] == 'a' && "dialect"@[0] == 'd' && "billing"@[0] == 'b');
    let b1 = match p.billing {
        Some(b) => b.tree(),
        None => JsonTree::Null,
    };
    let b2 = match p.billing_cache {
        Some(b) => b.tree(),
        None => JsonTree::Null,
    };
    let w = if p.model_context_windows.entries@.len() == 0 {
        None
    } else {
        Some(number_map_tree(p.model_context_windows.entries@))
    };
    let set = JsonTree::Bool(
        match text_view(p.api_key) {
            Some(k) => k.len() > 0,
            None => false,
        },
    );
    let t0 = JsonTree::object();
    let t1 = t0.with("id"@, JsonTree::Text(p.id@));
    let t2 = t1.with("base_url"@, JsonTree::Text(p.base_url@));
    let t3 = t2.with("dialect"@, JsonTree::Text(p.dialect@));
    let t4 = t3.with("credential_ref"@, text_or_null(p.credential_ref));
    let t5 = t4.with("default_model"@, text_or_null(p.default_model));
    let t6 = t5.with("display_name"@, text_or_null(p.display_name));
    let t7 = t6.with("models"@, JsonTree::Array(text_trees(p.models@)));
    let t8 = t7.with("billing"@, b1);
    let t9 = t8.with("billing_cache"@, b2);
    let t10 = t9.with_some("model_context_windows"@, w);
    let t11 = t10.with("apiKeySet"@, set);
    let t12 = t11.with("credentialReady"@, JsonTree::Bool(ready));
    lemma_no_key(t0, "id"@, JsonTree::Text(p.id@));
    lemma_no_key(t1, "base_url"@, JsonTree::Text(p.base_url@));
    lemma_no_key(t2, "dialect"@, JsonTree::Text(p.dialect@));
    lemma_no_key(t3, "credential_ref"@, text_or_null(p.credential_ref));
    lemma_no_key(t4, "default_model"@, text_or_null(p.default_model));
    lemma_no_key(t5, "display_name"@, text_or_null(p.display_name));
    lemma_no_key(t6, "models"@, JsonTree::Array(text_trees(p.models@)));
    lemma_no_key(t7, "billing"@, b1);
    lemma_no_key(t8, "billing_cache"@, b2);
    lemma_with_some(t9, "model_context_windows"@, w);
    lemma_no_key(t10, "apiKeySet"@, set);
    lemma_no_key(t11, "credentialReady"@, JsonTree::Bool(ready));
    lemma_no_key(t12, "modelsCached"@, JsonTree::Bool(cached));
}

/// What is shown of providers, given whether the key of each can be had.
pub open spec fn provider_cards(h: HostView, all: Seq<ProviderEntry>, ready: Seq<bool>) -> Seq<
    JsonTree,
> {
    Seq::new(
        all.len(),
        |i: int| provider_card(all[i], ready[i], h.models_for(all[i]@.id).len() > 0),
    )
}

/// The provider of each workspace, by name.
pub open spec fn workspace_providers(h: HostView, all: Seq<WsView>) -> JsonTree
    decreases all.len(),
{
    if all.len() == 0 {
        JsonTree::object()
    } else {
        workspace_providers(h, all.drop_last()).set(
            name_or_empty(all.last()),
            JsonTree::Text(h.provider_for(all.last()).id),
        )
    }
}

/// What the settings page needs beside the state of the host.
#[derive(Debug, PartialEq)]
pub struct PageFacts {
    /// Whether the key of each provider can be had.
    pub ready: Vec<bool>,
    /// How the servers of tools stand.
    pub mcp_status: Json,
    pub sessions_root: String,
    pub presets: Vec<Json>,
    pub permissions: Vec<String>,
    /// The permission preset that holds where none was chosen.
    pub derived_permission: String,
}

/// The settings page.
pub open spec fn settings_tree(host: AppHost, facts: PageFacts) -> JsonTree {
    let h = host@;
    let file = host.settings;
    let default = h.default_workspace();
    JsonTree::object().with("onboarded"@, JsonTree::Bool(file.onboarded)).with(
        "providers"@,
        JsonTree::Array(provider_cards(h, file.providers@, facts.ready@)),
    ).with("mcpServers"@, mcp_server_entry_trees(file.mcp_servers@)).with(
        "mcpStatus"@,
        facts.mcp_status@,
    ).with("hookBridges"@, hook_bridge_entry_trees(file.hook_bridges@)).with(
        "workspaces"@,
        defaults_tree(file.workspaces.entries@),
    ).with("defaultProvider"@, JsonTree::Text(h.provider_for(default).id)).with(
        "workspaceProviders"@,
        workspace_providers(h, h.workspaces),
    ).with("busyEnter"@, JsonTree::Text(file.busy_enter@)).with(
        "language"@,
        JsonTree::Text(file.language@),
    ).with("appearance"@, JsonTree::Text(file.appearance@)).with(
        "sessionsRoot"@,
        JsonTree::Text(facts.sessions_root@),
    ).with("presetOptions"@, JsonTree::Array(trees(facts.presets@))).with(
        "permissionOptions"@,
        JsonTree::Array(text_trees(facts.permissions@)),
    ).with(
        "defaultPreset"@,
        JsonTree::Text(
            match h.defaults(default).preset {
                Some(p) => p,
                None => "standard"@,
            },
        ),
    ).with(
        "defaultPermission"@,
        JsonTree::Text(
            match h.defaults(default).default_permission_preset {
                Some(p) => p,
                None => facts.derived_permission@,
            },
        ),
    )
}

/// Whether the key of a provider is set.
pub open spec fn key_is_set(p: ProviderEntry) -> bool {
    match text_view(p.api_key) {
        Some(k) => k.len() > 0,
        None => false,
    }
}

/// Whether two hosts differ in nothing but what the keys of their providers are.
pub open spec fn same_but_keys(a: AppHost, b: AppHost) -> bool {
    &&& b == AppHost { settings: b.settings, ..a }
    &&& b.settings == SettingsFile { providers: b.settings.providers, ..a.settings }
    &&& a.settings.providers@.len() == b.settings.providers@.len()
    &&& forall|i: int|
        0 <= i < a.settings.providers@.len() ==> {
            let p = #[trigger] a.settings.providers@[i];
            let q = b.settings.providers@[i];
            q == ProviderEntry { api_key: q.api_key, ..p } && key_is_set(p) == key_is_set(q)
        }
}

/// The settings page tells no key: whatever the keys are, it is the same page.
pub proof fn law_page_tells_no_key(a: AppHost, b: AppHost, facts: PageFacts)
    requires
        same_but_keys(a, b),
    ensures
        settings_tree(a, facts) == settings_tree(b, facts),
{
    let pa = a.settings.providers@;
    let pb = b.settings.providers@;
    let va = a@.settings.providers;
    let vb = b@.settings.providers;
    assert forall|i: int| 0 <= i < va.len() implies vb[i] == (ProviderView {
        api_key: vb[i].api_key,
        ..#[trigger] va[i]
    }) by {
        assert(va[i] == pa[i]@);
        assert(vb[i] == pb[i]@);
    }
    assert forall|id: Option<Seq<char>>|
        provider_of(va, id).id == provider_of(vb, id).id && provider_of(va, id).models
            == #[trigger] provider_of(vb, id).models by {
        if id is Some {
            lemma_find_but_key(va, vb, id->0);
        }
        lemma_find_but_key(va, vb, "deepseek"@);
    }
    assert(a@.settings.workspaces == b@.settings.workspaces);
    assert forall|ws: WsView| a@.provider_for(ws).id == #[trigger] b@.provider_for(ws).id by {
        let chosen = a@.defaults(ws).provider;
        assert(b@.defaults(ws).provider == chosen);
        assert(provider_of(va, chosen).models == provider_of(vb, chosen).models);
    }
    assert forall|i: int| 0 <= i < pa.len() implies provider_cards(a@, pa, facts.ready@)[i]
        == provider_cards(b@, pb, facts.ready@)[i] by {
        let p = pa[i];
        let q = pb[i];
        assert(p@.id == q@.id);
        assert(a@.models_for(p@.id) == b@.models_for(p@.id)) by {
            assert(provider_of(va, Some(p@.id)).models == provider_of(vb, Some(p@.id)).models);
        }
    }
    assert(provider_cards(a@, pa, facts.ready@) =~= provider_cards(b@, pb, facts.ready@));
    lemma_workspace_providers_same(a@, b@, a@.workspaces);
    assert(a@.default_workspace() == b@.default_workspace());
    assert(a@.provider_for(a@.default_workspace()).id == b@.provider_for(
        b@.default_workspace(),
    ).id);
}

proof fn lemma_find_but_key(va: Seq<ProviderView>, vb: Seq<ProviderView>, id: Seq<char>)
    requires
        va.len() == vb.len(),
        forall|i: int|
            0 <= i < va.len() ==> vb[i] == (ProviderView {
                api_key: vb[i].api_key,
                ..#[trigger] va[i]
            }),
    ensures
        match (find_provider(va, id), find_provider(vb, id)) {
            (Some(p), Some(q)) => p.id == q.id && p.models == q.models,
            (None, None) => true,
            _ => false,
        },
    decreases va.len(),
{
    if va.len() > 0 {
        assert(vb[0].id == va[0].id);
        let ra = va.drop_first();
        let rb = vb.drop_first();
        assert forall|i: int| 0 <= i < ra.len() implies rb[i] == (ProviderView {
            api_key: rb[i].api_key,
            ..#[trigger] ra[i]
        }) by {
            assert(ra[i] == va[i + 1]);
            assert(rb[i] == vb[i + 1]);
        }
        lemma_find_but_key(ra, rb, id);
    }
}

proof fn lemma_workspace_providers_same(a: HostView, b: HostView, all: Seq<WsView>)
    requires
        forall|ws: WsView| a.provider_for(ws).id == #[trigger] b.provider_for(ws).id,
    ensures
        workspace_providers(a, all) == workspace_providers(b, all),
    decreases all.len(),
{
    if all.len() > 0 {
        lemma_workspace_providers_same(a, b, all.drop_last());
        assert(a.provider_for(all.last()).id == b.provider_for(all.last()).id);
    }
}

impl AppHost {
    fn provider_cards_json(&self, ready: &Vec<bool>) -> (r: Json)
        requires
            self.wf(),
            ready@.len() == self.settings.providers@.len(),
        ensures
            r@ == JsonTree::Array(provider_cards(self@, self.settings.providers@, ready@)),
    {
        let ghost wanted = provider_cards(self@, self.settings.providers@, ready@);
        let mut out: Vec<Json> = Vec::new();
        let mut i: usize = 0;
        assert(trees(out@) =~= wanted.take(0));
        while i < self.settings.providers.len()
            invariant
                i <= self.settings.providers.len(),
                self.wf(),
                ready@.len() == self.settings.providers@.len(),
                wanted == provider_cards(self@, self.settings.providers@, ready@),
                trees(out@) == wanted.take(i as int),
            decreases self.settings.providers.len() - i,
        {
            let p = &self.settings.providers[i];
            let models = self.models_for(p.id.as_str());
            assert(text_seq(models@).len() == models@.len());
            let card = provider_card_json(p, ready[i], models.len() > 0);
            proof {
                assert(wanted[i as int] == card@);
                assert(trees(out@.push(card)) =~= trees(out@).push(card@));
                assert(wanted.take(i + 1) =~= wanted.take(i as int).push(card@));
            }
            out.push(card);
            i = i + 1;
        }
        assert(wanted.take(wanted.len() as int) =~= wanted);
        Json::array(out)
    }

    fn workspace_providers_json(&self) -> (r: Json)
        requires
            self.wf(),
        ensures
            r@ == workspace_providers(self@, self@.workspaces),
    {
        let ghost all = self@.workspaces;
        let mut out = Json::object();
        let mut i: usize = 0;
        assert(all.take(0) =~= Seq::empty());
        while i < self.workspaces.len()
            invariant
                i <= self.workspaces.len(),
                self.wf(),
                all == ws_views(self.workspaces@),
                out@ == workspace_providers(self@, all.take(i as int)),
                out@ is Object,
            decreases self.workspaces.len() - i,
        {
            let ws = &self.workspaces[i];
            proof {
                assert(all.take(i + 1).drop_last() =~= all.take(i as int));
                assert(all.take(i + 1).last() == ws@);
            }
            let name = match &ws.name {
                Some(n) => n.clone(),
                None => String::new(),
            };
            let p = self.provider_for(ws);
            out = out.set(name.as_str(), Json::Text(p.id));
            i = i + 1;
        }
        assert(all.take(all.len() as int) =~= all);
        out
    }

    /// The settings page.
    pub fn settings_view(&self, facts: &PageFacts) -> (r: Json)
        requires
            self.wf(),
            facts.ready@.len() == self.settings.providers@.len(),
        ensures
            r@ == settings_tree(*self, *facts),
    {
        let default = self.default_provider();
        Json::object().with("onboarded", Json::Bool(self.settings.onboarded)).with(
            "providers",
            self.provider_cards_json(&facts.ready),
        ).with("mcpServers", servers_json(&self.settings.mcp_servers)).with(
            "mcpStatus",
            facts.mcp_status.copy(),
        ).with("hookBridges", hooks_json(&self.settings.hook_bridges)).with(
            "workspaces",
            defaults_json(&self.settings.workspaces),
        ).with("defaultProvider", Json::Text(default.id)).with(
            "workspaceProviders",
            self.workspace_providers_json(),
        ).with("busyEnter", Json::text(self.settings.busy_enter.as_str())).with(
            "language",
            Json::text(self.settings.language.as_str()),
        ).with("appearance", Json::text(self.settings.appearance.as_str())).with(
            "sessionsRoot",
            Json::text(facts.sessions_root.as_str()),
        ).with("presetOptions", Json::array(copy_all(&facts.presets))).with(
            "permissionOptions",
            texts_json(&facts.permissions),
        ).with("defaultPreset", Json::Text(self.default_preset())).with(
            "defaultPermission",
            Json::Text(self.default_permission(facts.derived_permission.as_str())),
        )
    }
}

// Workspaces.

/// The sessions, of some, that are shown under a workspace: those that carry its
/// name; under the first one, those that carry none.
pub open spec fn shown_under(ids: Seq<Seq<char>>, name: Seq<char>, first: bool) -> Seq<Seq<char>>
    decreases ids.len(),
{
    if ids.len() == 0 {
        Seq::empty()
    } else {
        let head = shown_under(ids.drop_last(), name, first);
        let shown = match parted(ids.last(), '/') {
            Some((prefix, stem)) => prefix == name,
            None => first,
        };
        if shown {
            head.push(ids.last())
        } else {
            head
        }
    }
}

fn find_shown_under(ids: &Vec<String>, name: &str, first: bool) -> (r: Vec<String>)
    ensures
        text_seq(r@) == shown_under(text_seq(ids@), name@, first),
{
    let ghost all = text_seq(ids@);
    let mut out: Vec<String> = Vec::new();
    let mut i: usize = 0;
    proof {
        assert(all.take(0) =~= Seq::empty());
        assert(text_seq(out@) =~= Seq::empty());
    }
    while i < ids.len()
        invariant
            i <= ids.len(),
            all == text_seq(ids@),
            text_seq(out@) == shown_under(all.take(i as int), name@, first),
        decreases ids.len() - i,
    {
        proof {
            assert(all.take(i + 1).drop_last() =~= all.take(i as int));
            assert(all.take(i + 1).last() == ids@[i as int]@);
        }
        let shown = match split_once(ids[i].as_str(), '/') {
            Some((prefix, stem)) => same(prefix.as_str(), name),
            None => first,
        };
        if shown {
            let id = ids[i].clone();
            assert(text_seq(out@.push(id)) =~= text_seq(out@).push(id@));
            out.push(id);
        }
        i = i + 1;
    }
    assert(all.take(all.len() as int) =~= all);
    out
}

/// Whether a line shows the `i`th named workspace.
pub open spec fn shows_workspace(
    host: AppHost,
    now: Seq<char>,
    i: int,
    line: WorkspaceView,
) -> bool {
    let h = host@;
    let name = names_of(h.workspaces)[i];
    &&& line.workspace_id@ == name
    &&& ws_named(h.workspaces, name) is Some
    &&& line.path@ == ws_named(h.workspaces, name)->0.path
    &&& line.title@ == (if h.settings.workspace_titles.dom().contains(name) {
        h.settings.workspace_titles[name]
    } else {
        name
    })
    &&& text_seq(line.session_ids@) == shown_under(
        host.sessions.entries@.map_values(|e: (String, bool)| e.0@),
        name,
        i == 0,
    )
    &&& line.created_at@ == now
    &&& line.updated_at@ == now
}

proof fn lemma_names_are_found(all: Seq<WsView>, i: int)
    requires
        0 <= i < names_of(all).len(),
    ensures
        ws_named(all, names_of(all)[i]) is Some,
    decreases all.len(),
{
    let name = names_of(all)[i];
    lemma_name_is_there(all, i);
    let j = choose|j: int| 0 <= j < all.len() && (#[trigger] all[j]).name == Some(name);
    crate::workspaces::lemma_ws_place(all, name);
    if crate::workspaces::ws_place(all, name) == all.len() {
        assert(all[j].name != Some(name));
    }
}

proof fn lemma_name_is_there(all: Seq<WsView>, i: int)
    requires
        0 <= i < names_of(all).len(),
    ensures
        exists|j: int| 0 <= j < all.len() && (#[trigger] all[j]).name == Some(names_of(all)[i]),
    decreases all.len(),
{
    if all.len() > 0 {
        let rest = names_of(all.drop_last());
        if i < rest.len() {
            lemma_name_is_there(all.drop_last(), i);
            let j = choose|j: int|
                0 <= j < all.drop_last().len() && (#[trigger] all.drop_last()[j]).name == Some(
                    rest[i],
                );
            assert(all[j] == all.drop_last()[j]);
            assert(names_of(all)[i] == rest[i]);
        } else {
            assert(all[all.len() - 1].name == Some(names_of(all)[i]));
        }
    }
}

impl AppHost {
    /// The workspaces, as they are shown.
    pub fn workspace_view(&self, now: &str) -> (r: WorkspaceListValue)
        ensures
            r.archived_session_ids@.len() == 0,
            r.items@.len() == names_of(self@.workspaces).len(),
            forall|i: int|
                0 <= i < r.items@.len() ==> shows_workspace(
                    *self,
                    now@,
                    i,
                    #[trigger] r.items@[i],
                ),
    {
        let names = self.workspace_names();
        let ids = self.sessions.keys();
        let ghost shown_ids = self.sessions.entries@.map_values(|e: (String, bool)| e.0@);
        proof {
            assert(text_seq(ids@) =~= shown_ids);
            assert(text_seq(names@).len() == names@.len());
        }
        let mut items: Vec<WorkspaceView> = Vec::new();
        let mut i: usize = 0;
        while i < names.len()
            invariant
                i <= names.len(),
                text_seq(names@) == names_of(self@.workspaces),
                names@.len() == names_of(self@.workspaces).len(),
                shown_ids == self.sessions.entries@.map_values(|e: (String, bool)| e.0@),
                text_seq(ids@) == shown_ids,
                items@.len() == i,
                forall|k: int|
                    0 <= k < i ==> shows_workspace(*self, now@, k, #[trigger] items@[k]),
            decreases names.len() - i,
        {
            let name = names[i].as_str();
            proof {
                assert(names_of(self@.workspaces)[i as int] == name@);
                lemma_names_are_found(self@.workspaces, i as int);
            }
            let path = match self.workspace_of(name) {
                Some(w) => w.path,
                None => String::new(),
            };
            items.push(
                WorkspaceView {
                    workspace_id: name.to_owned(),
                    path,
                    title: self.workspace_title(name),
                    session_ids: find_shown_under(&ids, name, i == 0),
                    created_at: now.to_owned(),
                    updated_at: now.to_owned(),
                },
            );
            i = i + 1;
        }
        WorkspaceListValue { items, archived_session_ids: Vec::new() }
    }
}

// Presets.

/// What the file of a preset holds.
#[derive(Debug, PartialEq)]
pub struct Manifest {
    pub display_name: Option<String>,
    pub description: Json,
}

/// A preset, and what its file holds or why it could not be read.
#[derive(Debug)]
pub struct PresetFile {
    pub id: String,
    pub manifest: Result<Manifest, String>,
}

/// A preset as it is shown: one that could not be read is shown with the reason.
pub open spec fn preset_tree(p: PresetFile) -> JsonTree {
    match p.manifest {
        Ok(m) => JsonTree::object().with("id"@, JsonTree::Text(p.id@)).with(
            "name"@,
            JsonTree::Text(
                match text_view(m.display_name) {
                    Some(n) => n,
                    None => p.id@,
                },
            ),
        ).with("description"@, m.description@),
        Err(e) => JsonTree::object().with("id"@, JsonTree::Text(p.id@)).with(
            "name"@,
            JsonTree::Text(p.id@),
        ).with("description"@, JsonTree::Text("(不可用)"@ + e@)),
    }
}

/// The presets that are shown, with their ids: of those that come with the host
/// the ones that could be read, and of those of the workspace the ones whose id
/// none before has.
pub open spec fn shown_presets(builtin: Seq<PresetFile>, files: Seq<PresetFile>) -> (
    Seq<JsonTree>,
    Seq<Seq<char>>,
)
    decreases builtin.len() + files.len(),
{
    if files.len() > 0 {
        let (shown, ids) = shown_presets(builtin, files.drop_last());
        let f = files.last();
        if ids.contains(f.id@) {
            (shown, ids)
        } else {
            (shown.push(preset_tree(f)), ids.push(f.id@))
        }
    } else if builtin.len() > 0 {
        let (shown, ids) = shown_presets(builtin.drop_last(), files);
        let b = builtin.last();
        if b.manifest is Ok {
            (shown.push(preset_tree(b)), ids.push(b.id@))
        } else {
            (shown, ids)
        }
    } else {
        (Seq::empty(), Seq::empty())
    }
}

fn preset_json(p: &PresetFile) -> (r: Json)
    ensures
        r@ == preset_tree(*p),
{
    match &p.manifest {
        Ok(m) => {
            let name = match &m.display_name {
                Some(n) => n.as_str(),
                None => p.id.as_str(),
            };
            Json::object().with("id", Json::text(p.id.as_str())).with(
                "name",
                Json::text(name),
            ).with("description", m.description.copy())
        },
        Err(e) => Json::object().with("id", Json::text(p.id.as_str())).with(
            "name",
            Json::text(p.id.as_str()),
        ).with("description", Json::Text(joined("(不可用)", e.as_str()))),
    }
}

/// The presets that are shown, and their ids.
pub fn presets(builtin: &Vec<PresetFile>, files: &Vec<PresetFile>) -> (r: (Vec<Json>, Vec<String>))
    ensures
        (trees(r.0@), text_seq(r.1@)) == shown_presets(builtin@, files@),
{
    let mut shown: Vec<Json> = Vec::new();
    let mut ids: Vec<String> = Vec::new();
    let ghost none = Seq::<PresetFile>::empty();
    let mut i: usize = 0;
    proof {
        assert(builtin@.take(0) =~= Seq::empty());
        assert(trees(shown@) =~= Seq::empty());
        assert(text_seq(ids@) =~= Seq::empty());
    }
    while i < builtin.len()
        invariant
            i <= builtin.len(),
            none == Seq::<PresetFile>::empty(),
            (trees(shown@), text_seq(ids@)) == shown_presets(builtin@.take(i as int), none),
        decreases builtin.len() - i,
    {
        proof {
            assert(builtin@.take(i + 1).drop_last() =~= builtin@.take(i as int));
            assert(builtin@.take(i + 1).last() == builtin@[i as int]);
        }
        if builtin[i].manifest.is_ok() {
            let j = preset_json(&builtin[i]);
            let id = builtin[i].id.clone();
            proof {
                assert(trees(shown@.push(j)) =~= trees(shown@).push(j@));
                assert(text_seq(ids@.push(id)) =~= text_seq(ids@).push(id@));
            }
            shown.push(j);
            ids.push(id);
        }
        i = i + 1;
    }
    proof {
        assert(builtin@.take(builtin@.len() as int) =~= builtin@);
        assert(files@.take(0) =~= none);
    }
    let mut k: usize = 0;
    while k < files.len()
        invariant
            k <= files.len(),
            (trees(shown@), text_seq(ids@)) == shown_presets(builtin@, files@.take(k as int)),
        decreases files.len() - k,
    {
        proof {
            assert(files@.take(k + 1).drop_last() =~= files@.take(k as int));
            assert(files@.take(k + 1).last() == files@[k as int]);
        }
        if !contains_text(&ids, files[k].id.as_str()) {
            let j = preset_json(&files[k]);
            let id = files[k].id.clone();
            proof {
                assert(trees(shown@.push(j)) =~= trees(shown@).push(j@));
                assert(text_seq(ids@.push(id)) =~= text_seq(ids@).push(id@));
            }
            shown.push(j);
            ids.push(id);
        }
        k = k + 1;
    }
    assert(files@.take(files@.len() as int) =~= files@);
    (shown, ids)
}

// Work in the background.

/// Work that a session has done by another.
#[derive(Debug, PartialEq)]
pub struct JobRecord {
    pub session_id: String,
    pub task: String,
    pub status: String,
    pub started_at: i64,
    pub ended_at: Option<i64>,
    pub prompt: String,
}

/// How work stands, as it is shown. Work that rests can be taken up again.
pub open spec fn job_status(status: Seq<char>) -> (Seq<char>, Option<JsonTree>) {
    if status == "running"@ {
        ("running"@, None)
    } else if status == "idle"@ {
        ("completed"@, Some(JsonTree::Text("可继续"@)))
    } else if status == "cancelled"@ {
        ("killed"@, None)
    } else if status == "failed"@ {
        ("failed"@, None)
    } else {
        ("completed"@, None)
    }
}

/// Work as it is shown.
pub open spec fn job_tree(j: JobRecord) -> JsonTree {
    let (status, detail) = job_status(j.status@);
    JsonTree::object().with("id"@, JsonTree::Text(j.session_id@)).with(
        "kind"@,
        JsonTree::Text("subagent"@),
    ).with("label"@, JsonTree::Text(j.task@)).with("status"@, JsonTree::Text(status)).with(
        "startedAt"@,
        int_tree(j.started_at),
    ).with_some("detail"@, detail).with_some(
        "finishedAt"@,
        match j.ended_at {
            Some(t) => Some(int_tree(t)),
            None => None,
        },
    ).with_some(
        "prompt"@,
        if j.prompt@.len() == 0 {
            None
        } else {
            Some(JsonTree::Text(j.prompt@))
        },
    )
}

/// Work as it is shown.
pub fn job_json(j: &JobRecord) -> (r: Json)
    ensures
        r@ == job_tree(*j),
{
    let s = j.status.as_str();
    let mut detail: Option<Json> = None;
    let status: &str = if same(s, "running") {
        "running"
    } else if same(s, "idle") {
        detail = Some(Json::text("可继续"));
        "completed"
    } else if same(s, "cancelled") {
        "killed"
    } else if same(s, "failed") {
        "failed"
    } else {
        "completed"
    };
    let finished: Option<Json> = match j.ended_at {
        Some(t) => Some(Json::integer(t)),
        None => None,
    };
    let prompt: Option<Json> = if j.prompt.as_str().is_empty() {
        None
    } else {
        Some(Json::text(j.prompt.as_str()))
    };
    Json::object().with("id", Json::text(j.session_id.as_str())).with(
        "kind",
        Json::text("subagent"),
    ).with("label", Json::text(j.task.as_str())).with("status", Json::text(status)).with(
        "startedAt",
        Json::integer(j.started_at),
    ).with_some("detail", detail).with_some("finishedAt", finished).with_some("prompt", prompt)
}

/// The work that runs in a session; its place among all work.
pub fn running_job(jobs: &Vec<JobRecord>, session_id: &str) -> (r: Option<usize>)
    ensures
        match r {
            Some(k) => {
                &&& k < jobs@.len()
                &&& jobs@[k as int].session_id@ == session_id@
                &&& jobs@[k as int].status@ == "running"@
                &&& forall|j: int|
                    0 <= j < k ==> !((#[trigger] jobs@[j]).session_id@ == session_id@
                        && jobs@[j].status@ == "running"@)
            },
            None => forall|j: int|
                0 <= j < jobs@.len() ==> !((#[trigger] jobs@[j]).session_id@ == session_id@
                    && jobs@[j].status@ == "running"@),
        },
{
    let mut i: usize = 0;
    while i < jobs.len()
        invariant
            i <= jobs.len(),
            forall|j: int|
                0 <= j < i ==> !((#[trigger] jobs@[j]).session_id@ == session_id@ && jobs@[j].status@
                    == "running"@),
        decreases jobs.len() - i,
    {
        if same(jobs[i].session_id.as_str(), session_id) && same(jobs[i].status.as_str(), "running") {
            return Some(i);
        }
        i = i + 1;
    }
    None
}

// Searching.

/// A place where something was found.
#[derive(Debug, PartialEq)]
pub struct Hit {
    pub session: String,
    pub seq: u64,
    pub kind: String,
    pub content: String,
}

/// A place as it is shown.
pub open spec fn hit_tree(h: Hit) -> JsonTree {
    JsonTree::object().with("sessionId"@, JsonTree::Text(h.session@)).with(
        "seq"@,
        JsonTree::Number(Num::Unsigned(h.seq)),
    ).with("kind"@, JsonTree::Text(h.kind@)).with("content"@, JsonTree::Text(h.content@))
}

/// The places that are shown: all, or those in one session.
pub open spec fn shown_hits(all: Seq<Hit>, session: Option<Seq<char>>) -> Seq<JsonTree>
    decreases all.len(),
{
    if all.len() == 0 {
        Seq::empty()
    } else {
        let head = shown_hits(all.drop_last(), session);
        if session is None || session == Some(all.last().session@) {
            head.push(hit_tree(all.last()))
        } else {
            head
        }
    }
}

/// What a search is answered.
pub fn search_value(query: &str, hits: &Vec<Hit>, session: Option<&str>) -> (r: Json)
    ensures
        r@ == JsonTree::object().with("query"@, JsonTree::Text(query@)).with(
            "hits"@,
            JsonTree::Array(shown_hits(hits@, str_view(session))),
        ),
{
    let mut out: Vec<Json> = Vec::new();
    let mut i: usize = 0;
    proof {
        assert(hits@.take(0) =~= Seq::empty());
        assert(trees(out@) =~= Seq::empty());
    }
    while i < hits.len()
        invariant
            i <= hits.len(),
            trees(out@) == shown_hits(hits@.take(i as int), str_view(session)),
        decreases hits.len() - i,
    {
        let h = &hits[i];
        proof {
            assert(hits@.take(i + 1).drop_last() =~= hits@.take(i as int));
            assert(hits@.take(i + 1).last() == *h);
        }
        let shown = match session {
            Some(s) => same(s, h.session.as_str()),
            None => true,
        };
        if shown {
            let j = Json::object().with("sessionId", Json::text(h.session.as_str())).with(
                "seq",
                Json::number(h.seq),
            ).with("kind", Json::text(h.kind.as_str())).with(
                "content",
                Json::text(h.content.as_str()),
            );
            assert(trees(out@.push(j)) =~= trees(out@).push(j@));
            out.push(j);
        }
        i = i + 1;
    }
    assert(hits@.take(hits@.len() as int) =~= hits@);
    Json::object().with("query", Json::text(query)).with("hits", Json::array(out))
}

/// The sessions, of some, that are not among others.
pub open spec fn not_among(all: Seq<Seq<char>>, others: Seq<Seq<char>>) -> Seq<Seq<char>>
    decreases all.len(),
{
    if all.len() == 0 {
        Seq::empty()
    } else if others.contains(all.last()) {
        not_among(all.drop_last(), others)
    } else {
        not_among(all.drop_last(), others).push(all.last())
    }
}

/// The sessions that are to be taken out of the index: those that are gone.
pub fn stale_sessions(indexed: &Vec<String>, live: &Vec<String>) -> (r: Vec<String>)
    ensures
        text_seq(r@) == not_among(text_seq(indexed@), text_seq(live@)),
{
    let ghost all = text_seq(indexed@);
    let mut out: Vec<String> = Vec::new();
    let mut i: usize = 0;
    proof {
        assert(all.take(0) =~= Seq::empty());
        assert(text_seq(out@) =~= Seq::empty());
    }
    while i < indexed.len()
        invariant
            i <= indexed.len(),
            all == text_seq(indexed@),
            text_seq(out@) == not_among(all.take(i as int), text_seq(live@)),
        decreases indexed.len() - i,
    {
        proof {
            assert(all.take(i + 1).drop_last() =~= all.take(i as int));
            assert(all.take(i + 1).last() == indexed@[i as int]@);
        }
        if !contains_text(live, indexed[i].as_str()) {
            let id = indexed[i].clone();
            assert(text_seq(out@.push(id)) =~= text_seq(out@).push(id@));
            out.push(id);
        }
        i = i + 1;
    }
    assert(all.take(all.len() as int) =~= all);
    out
}

// Skills.

/// Something that a session can be asked to do by name.
#[derive(Debug, PartialEq)]
pub struct Skill {
    pub name: String,
    pub description: String,
    pub user_invocable: bool,
    pub model_invocable: bool,
}

/// The skills, of some, that the user can ask for.
pub open spec fn skill_trees(all: Seq<Skill>) -> Seq<JsonTree>
    decreases all.len(),
{
    if all.len() == 0 {
        Seq::empty()
    } else {
        let s = all.last();
        let head = skill_trees(all.drop_last());
        if s.user_invocable {
            head.push(
                JsonTree::object().with("name"@, JsonTree::Text(s.name@)).with(
                    "description"@,
                    JsonTree::Text(s.description@),
                ).with("modelInvocable"@, JsonTree::Bool(s.model_invocable)),
            )
        } else {
            head
        }
    }
}

/// The skills that a session is shown: none where it works for another.
pub fn session_skills(origin: Option<&str>, all: &Vec<Skill>) -> (r: Vec<Json>)
    ensures
        trees(r@) == (if str_view(origin) == Some("subagent"@) {
            Seq::empty()
        } else {
            skill_trees(all@)
        }),
{
    let mut out: Vec<Json> = Vec::new();
    assert(trees(out@) =~= Seq::empty());
    if let Some(o) = origin {
        if same(o, "subagent") {
            return out;
        }
    }
    let mut i: usize = 0;
    assert(all@.take(0) =~= Seq::empty());
    while i < all.len()
        invariant
            i <= all.len(),
            trees(out@) == skill_trees(all@.take(i as int)),
        decreases all.len() - i,
    {
        let s = &all[i];
        proof {
            assert(all@.take(i + 1).drop_last() =~= all@.take(i as int));
            assert(all@.take(i + 1).last() == *s);
        }
        if s.user_invocable {
            let j = Json::object().with("name", Json::text(s.name.as_str())).with(
                "description",
                Json::text(s.description.as_str()),
            ).with("modelInvocable", Json::Bool(s.model_invocable));
            assert(trees(out@.push(j)) =~= trees(out@).push(j@));
            out.push(j);
        }
        i = i + 1;
    }
    assert(all@.take(all@.len() as int) =~= all@);
    out
}

/// Whether an object has a member with a value.
pub open spec fn shows(t: JsonTree, key: Seq<char>, value: JsonTree) -> bool {
    t is Object && t->Object_0.contains((key, value))
}

/// The card of a provider shows what is set of it, whether it has a key, whether its key
/// can be had, and whether its models are known.
pub proof fn law_card_shows_provider(p: ProviderEntry, ready: bool, cached: bool)
    ensures
        ({
            let t = provider_card(p, ready, cached);
            &&& shows(t, "id"@, JsonTree::Text(p.id@))
            &&& shows(t, "base_url"@, JsonTree::Text(p.base_url@))
            &&& shows(t, "dialect"@, JsonTree::Text(p.dialect@))
            &&& shows(t, "models"@, JsonTree::Array(text_trees(p.models@)))
            &&& shows(t, "credential_ref"@, text_or_null(p.credential_ref))
            &&& shows(t, "default_model"@, text_or_null(p.default_model))
            &&& shows(t, "display_name"@, text_or_null(p.display_name))
            &&& shows(
                t,
                "apiKeySet"@,
                JsonTree::Bool(text_view(p.api_key) is Some && text_view(p.api_key)->0.len() > 0),
            )
            &&& shows(t, "credentialReady"@, JsonTree::Bool(ready))
            &&& shows(t, "modelsCached"@, JsonTree::Bool(cached))
        }),
{
    let all = provider_card(p, ready, cached)->Object_0;
    let n = all.len() as int;
    assert(all[0].0 == "id"@ && all[1].0 == "base_url"@ && all[2].0 == "dialect"@);
    assert(all[3].0 == "credential_ref"@ && all[4].0 == "default_model"@ && all[5].0
        == "display_name"@ && all[6].0 == "models"@);
    assert(all[n - 3].0 == "apiKeySet"@ && all[n - 2].0 == "credentialReady"@ && all[n - 1].0
        == "modelsCached"@);
}

/// There is a card for each provider, in order, with its own key's state and models.
pub proof fn law_every_provider_has_a_card(h: HostView, all: Seq<ProviderEntry>, ready: Seq<bool>)
    ensures
        provider_cards(h, all, ready).len() == all.len(),
        forall|i: int|
            0 <= i < all.len() ==> shows(
                #[trigger] provider_cards(h, all, ready)[i],
                "id"@,
                JsonTree::Text(all[i].id@),
            ) && shows(
                provider_cards(h, all, ready)[i],
                "credentialReady"@,
                JsonTree::Bool(ready[i]),
            ) && shows(
                provider_cards(h, all, ready)[i],
                "modelsCached"@,
                JsonTree::Bool(h.models_for(all[i].id@).len() > 0),
            ),
{
    assert forall|i: int| 0 <= i < all.len() implies shows(
        #[trigger] provider_cards(h, all, ready)[i],
        "id"@,
        JsonTree::Text(all[i].id@),
    ) && shows(provider_cards(h, all, ready)[i], "credentialReady"@, JsonTree::Bool(ready[i]))
        && shows(
        provider_cards(h, all, ready)[i],
        "modelsCached"@,
        JsonTree::Bool(h.models_for(all[i].id@).len() > 0),
    ) by {
        law_card_shows_provider(all[i], ready[i], h.models_for(all[i].id@).len() > 0);
        assert(all[i]@.id == all[i].id@);
    }
}

/// The settings page shows what is set.
pub proof fn law_page_shows_settings(host: AppHost, facts: PageFacts)
    ensures
        ({
            let h = host@;
            let t = settings_tree(host, facts);
            let d = h.defaults(h.default_workspace());
            &&& shows(t, "onboarded"@, JsonTree::Bool(host.settings.onboarded))
            &&& shows(t, "language"@, JsonTree::Text(host.settings.language@))
            &&& shows(t, "appearance"@, JsonTree::Text(host.settings.appearance@))
            &&& shows(t, "busyEnter"@, JsonTree::Text(host.settings.busy_enter@))
            &&& shows(t, "sessionsRoot"@, JsonTree::Text(facts.sessions_root@))
            &&& shows(
                t,
                "defaultProvider"@,
                JsonTree::Text(h.provider_for(h.default_workspace()).id),
            )
            &&& shows(
                t,
                "providers"@,
                JsonTree::Array(provider_cards(h, host.settings.providers@, facts.ready@)),
            )
            &&& shows(t, "mcpServers"@, mcp_server_entry_trees(host.settings.mcp_servers@))
            &&& shows(t, "mcpStatus"@, facts.mcp_status@)
            &&& shows(t, "hookBridges"@, hook_bridge_entry_trees(host.settings.hook_bridges@))
            &&& shows(t, "workspaceProviders"@, workspace_providers(h, h.workspaces))
            &&& shows(t, "presetOptions"@, JsonTree::Array(trees(facts.presets@)))
            &&& shows(t, "permissionOptions"@, JsonTree::Array(text_trees(facts.permissions@)))
            &&& d.preset matches Some(p) ==> shows(t, "defaultPreset"@, JsonTree::Text(p))
            &&& d.preset is None ==> shows(t, "defaultPreset"@, JsonTree::Text("standard"@))
            &&& d.default_permission_preset matches Some(p) ==> shows(
                t,
                "defaultPermission"@,
                JsonTree::Text(p),
            )
            &&& d.default_permission_preset is None ==> shows(
                t,
                "defaultPermission"@,
                JsonTree::Text(facts.derived_permission@),
            )
        }),
{
    let all = settings_tree(host, facts)->Object_0;
    assert(all.len() == 16);
    assert(all[0].0 == "onboarded"@ && all[1].0 == "providers"@ && all[2].0 == "mcpServers"@
        && all[3].0 == "mcpStatus"@ && all[4].0 == "hookBridges"@ && all[5].0 == "workspaces"@);
    assert(all[6].0 == "defaultProvider"@ && all[7].0 == "workspaceProviders"@ && all[8].0
        == "busyEnter"@ && all[9].0 == "language"@ && all[10].0 == "appearance"@);
    assert(all[11].0 == "sessionsRoot"@ && all[12].0 == "presetOptions"@ && all[13].0
        == "permissionOptions"@ && all[14].0 == "defaultPreset"@ && all[15].0
        == "defaultPermission"@);
}

/// Each workspace is shown with its own provider; of those of one name the last counts.
pub proof fn law_workspace_has_its_provider(h: HostView, all: Seq<WsView>, i: int)
    requires
        0 <= i < all.len(),
        forall|k: int| i < k < all.len() ==> name_or_empty(#[trigger] all[k]) != name_or_empty(all[i]),
    ensures
        workspace_providers(h, all) is Object,
        workspace_providers(h, all).get(name_or_empty(all[i])) == Some(
            JsonTree::Text(h.provider_for(all[i]).id),
        ),
    decreases all.len(),
{
    lemma_providers_object(h, all);
    let rest = all.drop_last();
    let last = all.last();
    lemma_providers_object(h, rest);
    lemma_set(
        workspace_providers(h, rest),
        name_or_empty(last),
        JsonTree::Text(h.provider_for(last).id),
        name_or_empty(all[i]),
    );
    if i < all.len() - 1 {
        assert forall|k: int| i < k < rest.len() implies name_or_empty(#[trigger] rest[k])
            != name_or_empty(rest[i]) by {
            assert(rest[k] == all[k]);
        }
        law_workspace_has_its_provider(h, rest, i);
        assert(name_or_empty(all[all.len() - 1]) != name_or_empty(all[i]));
    }
}

proof fn lemma_providers_object(h: HostView, all: Seq<WsView>)
    ensures
        workspace_providers(h, all) is Object,
    decreases all.len(),
{
    if all.len() > 0 {
        lemma_providers_object(h, all.drop_last());
    }
}

/// Whether a session is shown under a workspace: it carries the name of the workspace
/// before a slash, or no slash at all where the workspace is the first.
pub open spec fn belongs_under(id: Seq<char>, name: Seq<char>, first: bool) -> bool {
    if id.contains('/') {
        exists|stem: Seq<char>| id == #[trigger] (name + seq!['/'] + stem) && !name.contains('/')
    } else {
        first
    }
}

/// The sessions that are shown under a workspace are all those that belong there, in
/// order.
pub proof fn law_sessions_are_shown_under_workspace(
    ids: Seq<Seq<char>>,
    name: Seq<char>,
    first: bool,
)
    ensures
        shown_under(ids, name, first) == ids.filter(|id: Seq<char>| belongs_under(id, name, first)),
{
    lemma_shown_under(ids, name, first, |id: Seq<char>| belongs_under(id, name, first));
}

proof fn lemma_shown_under(
    ids: Seq<Seq<char>>,
    name: Seq<char>,
    first: bool,
    keep: spec_fn(Seq<char>) -> bool,
)
    requires
        forall|id: Seq<char>| #[trigger] keep(id) == belongs_under(id, name, first),
    ensures
        shown_under(ids, name, first) == ids.filter(keep),
    decreases ids.len(),
{
    reveal(Seq::filter);
    if ids.len() > 0 {
        lemma_shown_under(ids.drop_last(), name, first, keep);
        let id = ids.last();
        assert(keep(id) == belongs_under(id, name, first));
        crate::text::law_parts_make_the_text(id, '/');
        match parted(id, '/') {
            Some((a, b)) => {
                assert(id == a + seq!['/'] + b);
                let k = a.len() as int;
                assert(id[k] == '/');
                assert(id.contains('/'));
                if belongs_under(id, name, first) {
                    let stem = choose|stem: Seq<char>|
                        id == #[trigger] (name + seq!['/'] + stem) && !name.contains('/');
                    let n = name.len() as int;
                    assert(id[n] == '/');
                    if k < n {
                        assert(name[k] == id[k]);
                        assert(name.contains('/'));
                    } else if n < k {
                        assert(a[n] == id[n]);
                        assert(a.contains('/'));
                    }
                    assert(a =~= name) by {
                        assert(id.take(k) =~= a);
                        assert(id.take(n) =~= name);
                    }
                }
            },
            None => {},
        }
    } else {
        assert(shown_under(ids, name, first) =~= ids.filter(keep));
    }
}

/// A line of the list of workspaces is that of its workspace: its name, its path and the
/// title that it was given, else its name.
pub proof fn law_workspace_line(host: AppHost, now: Seq<char>, i: int, line: WorkspaceView)
    requires
        shows_workspace(host, now, i, line),
    ensures
        line.workspace_id@ == names_of(host@.workspaces)[i],
        ws_named(host@.workspaces, line.workspace_id@) matches Some(w) && w.path == line.path@,
        host@.settings.workspace_titles.dom().contains(line.workspace_id@) ==> line.title@
            == host@.settings.workspace_titles[line.workspace_id@],
        !host@.settings.workspace_titles.dom().contains(line.workspace_id@) ==> line.title@
            == line.workspace_id@,
        text_seq(line.session_ids@) == shown_under(
            host.sessions.entries@.map_values(|e: (String, bool)| e.0@),
            line.workspace_id@,
            i == 0,
        ),
{
}

/// The presets that are shown have different ids where those that come with the host
/// have. Each that comes with the host and could be read is shown, and so is each of the
/// workspace, itself or one before it of its id. There is a line for each id.
pub proof fn law_presets_are_shown_once(builtin: Seq<PresetFile>, files: Seq<PresetFile>)
    ensures
        shown_presets(builtin, files).0.len() == shown_presets(builtin, files).1.len(),
        forall|i: int|
            0 <= i < files.len() ==> shown_presets(builtin, files).1.contains(
                (#[trigger] files[i]).id@,
            ),
        forall|i: int|
            0 <= i < builtin.len() && (#[trigger] builtin[i]).manifest is Ok ==> shown_presets(
                builtin,
                files,
            ).1.contains(builtin[i].id@),
        forall|j: int|
            0 <= j < shown_presets(builtin, files).0.len() ==> shows(
                #[trigger] shown_presets(builtin, files).0[j],
                "id"@,
                JsonTree::Text(shown_presets(builtin, files).1[j]),
            ),
        shown_presets(builtin, Seq::empty()).1.no_duplicates() ==> shown_presets(
            builtin,
            files,
        ).1.no_duplicates(),
    decreases builtin.len() + files.len(),
{
    let (shown, ids) = shown_presets(builtin, files);
    if files.len() > 0 {
        let rest = files.drop_last();
        let f = files.last();
        law_presets_are_shown_once(builtin, rest);
        let (was, had) = shown_presets(builtin, rest);
        assert(files[files.len() - 1] == f);
        lemma_preset_id(f);
        assert forall|i: int| 0 <= i < files.len() implies ids.contains(
            (#[trigger] files[i]).id@,
        ) by {
            if i < rest.len() {
                assert(rest[i] == files[i]);
                let j = choose|j: int| 0 <= j < had.len() && had[j] == rest[i].id@;
                assert(ids[j] == rest[i].id@);
            } else if !had.contains(f.id@) {
                assert(ids[ids.len() - 1] == f.id@);
            }
        }
        assert forall|i: int|
            0 <= i < builtin.len() && (#[trigger] builtin[i]).manifest is Ok implies ids.contains(
            builtin[i].id@,
        ) by {
            let j = choose|j: int| 0 <= j < had.len() && had[j] == builtin[i].id@;
            assert(ids[j] == builtin[i].id@);
        }
        assert forall|j: int| 0 <= j < shown.len() implies shows(
            #[trigger] shown[j],
            "id"@,
            JsonTree::Text(ids[j]),
        ) by {
            if j < was.len() {
                assert(shown[j] == was[j] && ids[j] == had[j]);
            }
        }
    } else if builtin.len() > 0 {
        let rest = builtin.drop_last();
        let b = builtin.last();
        law_presets_are_shown_once(rest, files);
        let (was, had) = shown_presets(rest, files);
        assert(builtin[builtin.len() - 1] == b);
        lemma_preset_id(b);
        assert(files =~= Seq::empty());
        assert forall|i: int|
            0 <= i < builtin.len() && (#[trigger] builtin[i]).manifest is Ok implies ids.contains(
            builtin[i].id@,
        ) by {
            if i < rest.len() {
                assert(rest[i] == builtin[i]);
                let j = choose|j: int| 0 <= j < had.len() && had[j] == rest[i].id@;
                assert(ids[j] == rest[i].id@);
            } else {
                assert(ids[ids.len() - 1] == b.id@);
            }
        }
        assert forall|j: int| 0 <= j < shown.len() implies shows(
            #[trigger] shown[j],
            "id"@,
            JsonTree::Text(ids[j]),
        ) by {
            if j < was.len() {
                assert(shown[j] == was[j] && ids[j] == had[j]);
            }
        }
    } else {
        assert(files =~= Seq::empty());
    }
}

proof fn lemma_preset_id(p: PresetFile)
    ensures
        shows(preset_tree(p), "id"@, JsonTree::Text(p.id@)),
{
    let all = preset_tree(p)->Object_0;
    assert(all[0] == ("id"@, JsonTree::Text(p.id@)));
}

/// A preset that could be read is shown under the name that it gives itself, else under
/// its id, with what it says of itself; one that could not be read says why.
pub proof fn law_preset_is_shown(p: PresetFile)
    ensures
        shows(preset_tree(p), "id"@, JsonTree::Text(p.id@)),
        p.manifest matches Ok(m) ==> shows(preset_tree(p), "description"@, m.description@) && shows(
            preset_tree(p),
            "name"@,
            JsonTree::Text(
                if m.display_name is Some {
                    m.display_name->0@
                } else {
                    p.id@
                },
            ),
        ),
        p.manifest matches Err(e) ==> shows(preset_tree(p), "name"@, JsonTree::Text(p.id@)) && shows(
            preset_tree(p),
            "description"@,
            JsonTree::Text("(不可用)"@ + e@),
        ),
{
    lemma_preset_id(p);
    let all = preset_tree(p)->Object_0;
    assert(all.len() == 3);
    assert(all[1].0 == "name"@ && all[2].0 == "description"@);
}

/// How work stands as it is shown: work that runs or failed says so, work that was stopped
/// was killed, work that rests is complete and can be taken up again, and any other is
/// complete.
pub proof fn law_work_is_shown(j: JobRecord)
    ensures
        ({
            let t = job_tree(j);
            let s = j.status@;
            let word = if s == "running"@ {
                "running"@
            } else if s == "cancelled"@ {
                "killed"@
            } else if s == "failed"@ {
                "failed"@
            } else {
                "completed"@
            };
            &&& shows(t, "id"@, JsonTree::Text(j.session_id@))
            &&& shows(t, "label"@, JsonTree::Text(j.task@))
            &&& shows(t, "kind"@, JsonTree::Text("subagent"@))
            &&& shows(t, "status"@, JsonTree::Text(word))
            &&& shows(t, "startedAt"@, int_tree(j.started_at))
            &&& j.ended_at matches Some(e) ==> shows(t, "finishedAt"@, int_tree(e))
            &&& j.prompt@.len() > 0 ==> shows(t, "prompt"@, JsonTree::Text(j.prompt@))
            &&& s == "idle"@ ==> shows(t, "detail"@, JsonTree::Text("可继续"@))
            &&& s != "idle"@ ==> job_status(s).1 is None
        }),
{
    reveal_strlit("running");
    reveal_strlit("idle");
    reveal_strlit("cancelled");
    reveal_strlit("failed");
    assert("running"@.len() == 7 && "idle"@.len() == 4 && "cancelled"@.len() == 9 && "failed"@.len()
        == 6);
    let (status, detail) = job_status(j.status@);
    let all = job_tree(j)->Object_0;
    assert(all[0] == ("id"@, JsonTree::Text(j.session_id@)));
    assert(all[1] == ("kind"@, JsonTree::Text("subagent"@)));
    assert(all[2] == ("label"@, JsonTree::Text(j.task@)));
    assert(all[3] == ("status"@, JsonTree::Text(status)));
    assert(all[4] == ("startedAt"@, int_tree(j.started_at)));
    let a = if detail is Some {
        6int
    } else {
        5
    };
    if detail is Some {
        assert(all[5] == ("detail"@, detail->0));
    }
    if j.ended_at is Some {
        assert(all[a] == ("finishedAt"@, int_tree(j.ended_at->0)));
    }
    if j.prompt@.len() > 0 {
        assert(all[all.len() - 1] == ("prompt"@, JsonTree::Text(j.prompt@)));
    }
}

/// A search shows the places that were found, all of them, or all those in one session, in
/// order, each with its session, its number, its kind and its text.
pub proof fn law_hits_are_shown(all: Seq<Hit>, session: Option<Seq<char>>)
    ensures
        ({
            let kept = hits_in(all, session);
            let out = shown_hits(all, session);
            &&& out.len() == kept.len()
            &&& forall|i: int|
                0 <= i < out.len() ==> shows(
                    #[trigger] out[i],
                    "sessionId"@,
                    JsonTree::Text(kept[i].session@),
                ) && shows(out[i], "seq"@, JsonTree::Number(Num::Unsigned(kept[i].seq))) && shows(
                    out[i],
                    "kind"@,
                    JsonTree::Text(kept[i].kind@),
                ) && shows(out[i], "content"@, JsonTree::Text(kept[i].content@))
        }),
{
    lemma_hits(all, session, |h: Hit| session is None || session == Some(h.session@));
    let kept = hits_in(all, session);
    let out = shown_hits(all, session);
    assert forall|i: int| 0 <= i < out.len() implies shows(
        #[trigger] out[i],
        "sessionId"@,
        JsonTree::Text(kept[i].session@),
    ) && shows(out[i], "seq"@, JsonTree::Number(Num::Unsigned(kept[i].seq))) && shows(
        out[i],
        "kind"@,
        JsonTree::Text(kept[i].kind@),
    ) && shows(out[i], "content"@, JsonTree::Text(kept[i].content@)) by {
        let o = hit_tree(kept[i])->Object_0;
        assert(out[i] == hit_tree(kept[i]));
        assert(o[0] == ("sessionId"@, JsonTree::Text(kept[i].session@)));
        assert(o[1] == ("seq"@, JsonTree::Number(Num::Unsigned(kept[i].seq))));
        assert(o[2] == ("kind"@, JsonTree::Text(kept[i].kind@)));
        assert(o[3] == ("content"@, JsonTree::Text(kept[i].content@)));
    }
}

/// The places in a session, or all where none is named.
pub open spec fn hits_in(all: Seq<Hit>, session: Option<Seq<char>>) -> Seq<Hit> {
    all.filter(|h: Hit| session is None || session == Some(h.session@))
}

proof fn lemma_hits(all: Seq<Hit>, session: Option<Seq<char>>, keep: spec_fn(Hit) -> bool)
    requires
        forall|h: Hit| #[trigger] keep(h) == (session is None || session == Some(h.session@)),
    ensures
        shown_hits(all, session).len() == all.filter(keep).len(),
        forall|i: int|
            0 <= i < shown_hits(all, session).len() ==> #[trigger] shown_hits(all, session)[i]
                == hit_tree(all.filter(keep)[i]),
    decreases all.len(),
{
    reveal(Seq::filter);
    if all.len() > 0 {
        lemma_hits(all.drop_last(), session, keep);
        assert(keep(all.last()) == (session is None || session == Some(all.last().session@)));
    }
}

/// The sessions to be taken out of the index are all that it knows and that are gone, in
/// order.
pub proof fn law_stale_are_those_gone(all: Seq<Seq<char>>, others: Seq<Seq<char>>)
    ensures
        not_among(all, others) == all.filter(|s: Seq<char>| !others.contains(s)),
{
    lemma_not_among(all, others, |s: Seq<char>| !others.contains(s));
}

proof fn lemma_not_among(
    all: Seq<Seq<char>>,
    others: Seq<Seq<char>>,
    keep: spec_fn(Seq<char>) -> bool,
)
    requires
        forall|s: Seq<char>| #[trigger] keep(s) == !others.contains(s),
    ensures
        not_among(all, others) == all.filter(keep),
    decreases all.len(),
{
    reveal(Seq::filter);
    if all.len() > 0 {
        lemma_not_among(all.drop_last(), others, keep);
        assert(keep(all.last()) == !others.contains(all.last()));
    } else {
        assert(not_among(all, others) =~= all.filter(keep));
    }
}

/// The skills, of some, that the user may call.
pub open spec fn callable(all: Seq<Skill>) -> Seq<Skill> {
    all.filter(|s: Skill| s.user_invocable)
}

/// The skills that are shown are all that the user may call, in order, each with its
/// name, what it says of itself, and whether the model may call it too.
pub proof fn law_callable_skills_are_shown(all: Seq<Skill>)
    ensures
        skill_trees(all).len() == callable(all).len(),
        forall|i: int|
            0 <= i < skill_trees(all).len() ==> shows(
                #[trigger] skill_trees(all)[i],
                "name"@,
                JsonTree::Text(callable(all)[i].name@),
            ) && shows(
                skill_trees(all)[i],
                "description"@,
                JsonTree::Text(callable(all)[i].description@),
            ) && shows(
                skill_trees(all)[i],
                "modelInvocable"@,
                JsonTree::Bool(callable(all)[i].model_invocable),
            ),
{
    lemma_skills(all, |s: Skill| s.user_invocable);
}

proof fn lemma_skills(all: Seq<Skill>, keep: spec_fn(Skill) -> bool)
    requires
        forall|s: Skill| #[trigger] keep(s) == s.user_invocable,
    ensures
        skill_trees(all).len() == all.filter(keep).len(),
        forall|i: int|
            0 <= i < skill_trees(all).len() ==> shows(
                #[trigger] skill_trees(all)[i],
                "name"@,
                JsonTree::Text(all.filter(keep)[i].name@),
            ) && shows(
                skill_trees(all)[i],
                "description"@,
                JsonTree::Text(all.filter(keep)[i].description@),
            ) && shows(
                skill_trees(all)[i],
                "modelInvocable"@,
                JsonTree::Bool(all.filter(keep)[i].model_invocable),
            ),
    decreases all.len(),
{
    reveal(Seq::filter);
    if all.len() > 0 {
        lemma_skills(all.drop_last(), keep);
        let s = all.last();
        assert(keep(s) == s.user_invocable);
        let out = skill_trees(all);
        let was = skill_trees(all.drop_last());
        assert forall|i: int| 0 <= i < was.len() implies out[i] == #[trigger] was[i] by {}
        if s.user_invocable {
            let o = out[out.len() - 1]->Object_0;
            assert(o[0] == ("name"@, JsonTree::Text(s.name@)));
            assert(o[1] == ("description"@, JsonTree::Text(s.description@)));
            assert(o[2] == ("modelInvocable"@, JsonTree::Bool(s.model_invocable)));
        }
    }
}

} // verus!
