//! Changes of the host's state: its workspaces, its settings, and what single
//! sessions are set to.
use vstd::prelude::*;
use vstd::string::*;

use crate::host::{AppHost, HostView, contains_text};
use crate::interact::{str_view, text_view};
use crate::paths::{key_of, project_key};
use crate::proto::{ErrorView, RpcError, error_view};
use crate::settings::{SettingsView, WorkspaceDefaults, WorkspaceDefaultsView, text_map, text_seq};
use crate::strmap::id_set;
use crate::text::{first_chars, same, take_chars, trim, trimmed};
use crate::workspaces::{
    Workspace, WsView, add_fault, add_to, remove_fault, remove_from, reorder, reordered,
    without_path, ws_named, ws_views,
};

verus! {

// Workspaces.

/// The paths of workspaces.
pub open spec fn paths_of(all: Seq<WsView>) -> Seq<Seq<char>> {
    all.map_values(|w: WsView| w.path)
}

/// The state with other workspaces, which are registered in the settings.
pub open spec fn with_workspaces(h: HostView, all: Seq<WsView>) -> HostView {
    HostView {
        workspaces: all,
        settings: SettingsView { workspace_paths: paths_of(all), ..h.settings },
        ..h
    }
}

/// The titles of workspaces after one was renamed: an empty title, and one that
/// is the name, go back to the name.
pub open spec fn retitled(
    titles: Map<Seq<char>, Seq<char>>,
    name: Seq<char>,
    title: Seq<char>,
) -> Map<Seq<char>, Seq<char>> {
    let short = first_chars(trimmed(title), 60);
    if short.len() == 0 || short == name {
        titles.remove(name)
    } else {
        titles.insert(name, short)
    }
}

/// The attached sessions of a workspace.
pub open spec fn sessions_under(h: HostView, path: Seq<char>) -> Set<Seq<char>> {
    Set::new(
        |id: Seq<char>| h.sessions.dom().contains(id) && h.workspace_of_session(id).path == path,
    )
}

/// An unknown workspace.
pub open spec fn unknown_workspace() -> ErrorView {
    error_view("bad-request"@, "未知工作区"@)
}

impl AppHost {
    /// Registers the workspaces in the settings.
    pub(crate) fn persist_workspaces(&mut self)
        requires
            old(self).wf(),
        ensures
            final(self).wf(),
            final(self)@ == with_workspaces(old(self)@, old(self)@.workspaces),
    {
        let ghost all = self@.workspaces;
        let ghost wanted = paths_of(all);
        let mut paths: Vec<String> = Vec::new();
        let mut i: usize = 0;
        while i < self.workspaces.len()
            invariant
                i <= self.workspaces.len(),
                all == ws_views(self.workspaces@),
                wanted == paths_of(all),
                text_seq(paths@) == wanted.take(i as int),
            decreases self.workspaces.len() - i,
        {
            let p = self.workspaces[i].path.clone();
            proof {
                assert(all[i as int] == self.workspaces@[i as int]@);
                assert(text_seq(paths@.push(p)) =~= text_seq(paths@).push(p@));
                assert(wanted.take(i + 1) =~= wanted.take(i as int).push(p@));
            }
            paths.push(p);
            i = i + 1;
        }
        assert(wanted.take(wanted.len() as int) =~= wanted);
        self.settings.workspace_paths = paths;
    }

    /// Adds a workspace.
    pub fn add_workspace(&mut self, workspace: Workspace, is_dir: bool) -> (r: Result<
        String,
        RpcError,
    >)
        requires
            old(self).wf(),
        ensures
            final(self).wf(),
            match add_fault(old(self)@.workspaces, workspace@.name, is_dir) {
                Some(e) => r is Err && r->Err_0@ == e && final(self)@ == old(self)@,
                None => {
                    &&& r is Ok
                    &&& Some(r->Ok_0@) == workspace@.name
                    &&& final(self)@ == with_workspaces(
                        old(self)@,
                        old(self)@.workspaces.push(workspace@),
                    )
                },
            },
    {
        match add_to(&mut self.workspaces, workspace, is_dir) {
            Ok(name) => {
                self.persist_workspaces();
                Ok(name)
            },
            Err(e) => Err(e),
        }
    }

    /// The title of a workspace: the one it was given, else its name.
    pub fn workspace_title(&self, name: &str) -> (r: String)
        ensures
            r@ == (if self@.settings.workspace_titles.dom().contains(name@) {
                self@.settings.workspace_titles[name@]
            } else {
                name@
            }),
    {
        match self.settings.workspace_titles.get(name) {
            Some(t) => t.clone(),
            None => name.to_owned(),
        }
    }

    /// Gives a workspace a title.
    pub fn rename_workspace(&mut self, name: &str, title: &str) -> (r: Result<(), RpcError>)
        requires
            old(self).wf(),
        ensures
            final(self).wf(),
            if ws_named(old(self)@.workspaces, name@) is None {
                r is Err && r->Err_0@ == unknown_workspace() && final(self)@ == old(self)@
            } else {
                r is Ok && final(self)@ == (HostView {
                    settings: SettingsView {
                        workspace_titles: retitled(
                            old(self)@.settings.workspace_titles,
                            name@,
                            title@,
                        ),
                        ..old(self)@.settings
                    },
                    ..old(self)@
                })
            },
    {
        if self.workspace_of(name).is_none() {
            return Err(RpcError::bad_request("未知工作区"));
        }
        let trimmed_title = trim(title);
        let short = take_chars(trimmed_title.as_str(), 60);
        let ghost before = self.settings.workspace_titles@;
        if short.as_str().is_empty() || same(short.as_str(), name) {
            let gone = self.settings.workspace_titles.remove(name);
            assert(text_map(self.settings.workspace_titles@) =~= text_map(before).remove(name@));
        } else {
            let ghost shown = short@;
            self.settings.workspace_titles.insert(name.to_owned(), short);
            assert(text_map(self.settings.workspace_titles@) =~= text_map(before).insert(
                name@,
                shown,
            ));
        }
        Ok(())
    }

    /// The attached sessions of a workspace.
    fn find_sessions_under(&self, path: &str) -> (r: Vec<String>)
        ensures
            id_set(r@) == sessions_under(self@, path@),
    {
        let ids = self.sessions.keys();
        let mut out: Vec<String> = Vec::new();
        let mut i: usize = 0;
        while i < ids.len()
            invariant
                i <= ids.len(),
                id_set(ids@) == self@.sessions.dom(),
                forall|k: Seq<char>| #[trigger]
                    id_set(out@).contains(k) <==> id_set(ids@.take(i as int)).contains(k)
                        && self@.workspace_of_session(k).path == path@,
            decreases ids.len() - i,
        {
            let (ws, stem) = self.resolve_session(ids[i].as_str());
            let ghost head = ids@.take(i as int);
            let ghost more = ids@.take(i + 1);
            let ghost id = ids@[i as int]@;
            let ghost seen = out@;
            proof {
                lemma_id_set_push(head, ids@[i as int]);
                assert(more =~= head.push(ids@[i as int]));
            }
            if same(ws.path.as_str(), path) {
                out.push(ids[i].clone());
                proof {
                    lemma_id_set_push(seen, ids@[i as int]);
                }
            }
            i = i + 1;
        }
        proof {
            assert(ids@.take(ids@.len() as int) =~= ids@);
            assert(id_set(out@) =~= sessions_under(self@, path@));
        }
        out
    }

    /// Gives up a workspace, with its attached sessions and its title; the
    /// default one stays.
    pub fn remove_workspace(&mut self, name: &str) -> (r: Result<(), RpcError>)
        requires
            old(self).wf(),
        ensures
            final(self).wf(),
            match remove_fault(old(self)@.workspaces, name@, old(self)@.default_workspace()) {
                Some(e) => r is Err && r->Err_0@ == e && final(self)@ == old(self)@,
                None => {
                    let path = ws_named(old(self)@.workspaces, name@)->0.path;
                    let without = with_workspaces(
                        old(self)@,
                        without_path(old(self)@.workspaces, path),
                    );
                    r is Ok && final(self)@ == (HostView {
                        sessions: old(self)@.sessions.remove_keys(sessions_under(old(self)@, path)),
                        settings: SettingsView {
                            workspace_titles: old(self)@.settings.workspace_titles.remove(name@),
                            ..without.settings
                        },
                        ..without
                    })
                },
            },
    {
        let default = self.default_workspace();
        let ws = match self.workspace_of(name) {
            Some(w) => w,
            None => {
                return Err(RpcError::bad_request("未知工作区"));
            },
        };
        let victims = self.find_sessions_under(ws.path.as_str());
        match remove_from(&mut self.workspaces, name, &default) {
            Err(e) => Err(e),
            Ok(_) => {
                self.sessions.remove_all(&victims);
                self.persist_workspaces();
                let ghost before = self.settings.workspace_titles@;
                let gone = self.settings.workspace_titles.remove(name);
                assert(text_map(self.settings.workspace_titles@) =~= text_map(before).remove(
                    name@,
                ));
                Ok(())
            },
        }
    }

    /// Moves a workspace before another, or to the end.
    pub fn reorder_workspace(&mut self, name: &str, before: Option<&str>) -> (r: Result<
        (),
        RpcError,
    >)
        requires
            old(self).wf(),
        ensures
            final(self).wf(),
            if ws_named(old(self)@.workspaces, name@) is None {
                r is Err && r->Err_0@ == unknown_workspace() && final(self)@ == old(self)@
            } else {
                r is Ok && final(self)@ == with_workspaces(
                    old(self)@,
                    reordered(old(self)@.workspaces, name@, str_view(before)),
                )
            },
    {
        match reorder(&mut self.workspaces, name, before) {
            Ok(_) => {
                self.persist_workspaces();
                Ok(())
            },
            Err(e) => Err(e),
        }
    }
}

pub proof fn lemma_id_set_push(v: Seq<String>, s: String)
    ensures
        forall|k: Seq<char>| #[trigger]
            id_set(v.push(s)).contains(k) <==> id_set(v).contains(k) || k == s@,
{
    let more = v.push(s);
    assert forall|k: Seq<char>| #[trigger]
        id_set(more).contains(k) <==> id_set(v).contains(k) || k == s@ by {
        if id_set(v).contains(k) {
            let j = choose|j: int| 0 <= j < v.len() && (#[trigger] v[j])@ == k;
            assert(more[j]@ == k);
        }
        if k == s@ {
            assert(more[v.len() as int]@ == k);
        }
        if id_set(more).contains(k) && k != s@ {
            let j = choose|j: int| 0 <= j < more.len() && (#[trigger] more[j])@ == k;
            assert(v[j]@ == k);
        }
    }
}

// Preferences.

/// What comes of choosing among what is known.
pub open spec fn chosen(
    s: SettingsView,
    known: bool,
    fault: Seq<char>,
    after: SettingsView,
) -> Result<SettingsView, ErrorView> {
    if known {
        Ok(after)
    } else {
        Err(error_view("bad-request"@, fault))
    }
}

impl AppHost {
    /// The language of the interface.
    pub fn language(&self) -> (r: String)
        ensures
            r@ == self@.settings.language,
    {
        self.settings.language.clone()
    }

    /// The appearance of the interface.
    pub fn appearance(&self) -> (r: String)
        ensures
            r@ == self@.settings.appearance,
    {
        self.settings.appearance.clone()
    }

    /// What a submission does while a turn runs.
    pub fn busy_enter(&self) -> (r: String)
        ensures
            r@ == self@.settings.busy_enter,
    {
        self.settings.busy_enter.clone()
    }

    /// Chooses the language of the interface.
    pub fn set_language(&mut self, id: &str) -> (r: Result<(), RpcError>)
        requires
            old(self).wf(),
        ensures
            final(self).wf(),
            match chosen(
                old(self)@.settings,
                id@ == "zh"@ || id@ == "en"@,
                "不支持的语言"@,
                SettingsView { language: id@, ..old(self)@.settings },
            ) {
                Ok(s) => r is Ok && final(self)@ == (HostView { settings: s, ..old(self)@ }),
                Err(e) => r is Err && r->Err_0@ == e && final(self)@ == old(self)@,
            },
    {
        if !same(id, "zh") && !same(id, "en") {
            return Err(RpcError::bad_request("不支持的语言"));
        }
        self.settings.language = id.to_owned();
        Ok(())
    }

    /// Chooses the appearance of the interface.
    pub fn set_appearance(&mut self, id: &str) -> (r: Result<(), RpcError>)
        requires
            old(self).wf(),
        ensures
            final(self).wf(),
            match chosen(
                old(self)@.settings,
                id@ == "light"@ || id@ == "dark"@ || id@ == "system"@,
                "未知外观"@,
                SettingsView { appearance: id@, ..old(self)@.settings },
            ) {
                Ok(s) => r is Ok && final(self)@ == (HostView { settings: s, ..old(self)@ }),
                Err(e) => r is Err && r->Err_0@ == e && final(self)@ == old(self)@,
            },
    {
        if !same(id, "light") && !same(id, "dark") && !same(id, "system") {
            return Err(RpcError::bad_request("未知外观"));
        }
        self.settings.appearance = id.to_owned();
        Ok(())
    }

    /// Chooses what a submission does while a turn runs.
    pub fn set_busy_enter(&mut self, behavior: &str) -> (r: Result<(), RpcError>)
        requires
            old(self).wf(),
        ensures
            final(self).wf(),
            match chosen(
                old(self)@.settings,
                behavior@ == "queue"@ || behavior@ == "steer"@,
                "未知 Enter 行为"@,
                SettingsView { busy_enter: behavior@, ..old(self)@.settings },
            ) {
                Ok(s) => r is Ok && final(self)@ == (HostView { settings: s, ..old(self)@ }),
                Err(e) => r is Err && r->Err_0@ == e && final(self)@ == old(self)@,
            },
    {
        if !same(behavior, "queue") && !same(behavior, "steer") {
            return Err(RpcError::bad_request("未知 Enter 行为"));
        }
        self.settings.busy_enter = behavior.to_owned();
        Ok(())
    }

    /// Notes that the user was shown around.
    pub fn set_onboarded(&mut self)
        requires
            old(self).wf(),
        ensures
            final(self).wf(),
            final(self)@ == (HostView {
                settings: SettingsView { onboarded: true, ..old(self)@.settings },
                ..old(self)@
            }),
    {
        self.settings.onboarded = true;
    }
}

// Workspace defaults.

/// The settings with other defaults for a workspace.
pub open spec fn with_defaults(h: HostView, ws: WsView, d: WorkspaceDefaultsView) -> HostView {
    HostView {
        settings: SettingsView {
            workspaces: h.settings.workspaces.insert(key_of(ws.path), d),
            ..h.settings
        },
        ..h
    }
}

impl AppHost {
    pub(crate) fn put_defaults(&mut self, ws: &Workspace, d: WorkspaceDefaults)
        requires
            old(self).wf(),
        ensures
            final(self).wf(),
            final(self)@ == with_defaults(old(self)@, ws@, d@),
    {
        let ghost before = self.settings.workspaces@;
        let key = project_key(ws.path.as_str());
        let ghost k = key@;
        self.settings.workspaces.insert(key, d);
        proof {
            let view = |m: Map<Seq<char>, WorkspaceDefaults>| m.map_values(|d: WorkspaceDefaults| d@);
            assert(view(self.settings.workspaces@) =~= view(before).insert(k, d@));
        }
    }

    /// The agent preset of new sessions.
    pub fn default_preset(&self) -> (r: String)
        ensures
            r@ == (match self@.defaults(self@.default_workspace()).preset {
                Some(p) => p,
                None => "standard"@,
            }),
    {
        match self.defaults_for(&self.default_workspace()).preset {
            Some(p) => p,
            None => "standard".to_owned(),
        }
    }

    /// Chooses the agent preset of new sessions, among those that are there.
    pub fn set_default_preset(&mut self, preset: &str, known: &Vec<String>) -> (r: Result<
        (),
        RpcError,
    >)
        requires
            old(self).wf(),
        ensures
            final(self).wf(),
            if text_seq(known@).contains(preset@) {
                let ws = old(self)@.default_workspace();
                r is Ok && final(self)@ == with_defaults(
                    old(self)@,
                    ws,
                    WorkspaceDefaultsView {
                        preset: Some(preset@),
                        ..old(self)@.defaults(ws)
                    },
                )
            } else {
                r is Err && r->Err_0@ == error_view("bad-request"@, "未知 preset"@) && final(self)@
                    == old(self)@
            },
    {
        if !contains_text(known, preset) {
            return Err(RpcError::bad_request("未知 preset"));
        }
        let ws = self.default_workspace();
        let mut d = self.defaults_for(&ws);
        d.preset = Some(preset.to_owned());
        self.put_defaults(&ws, d);
        Ok(())
    }

    /// The permission preset of new sessions: the one that was chosen, else the
    /// given one.
    pub fn default_permission(&self, derived: &str) -> (r: String)
        ensures
            r@ == (match self@.defaults(self@.default_workspace()).default_permission_preset {
                Some(p) => p,
                None => derived@,
            }),
    {
        match self.defaults_for(&self.default_workspace()).default_permission_preset {
            Some(p) => p,
            None => derived.to_owned(),
        }
    }

    /// Chooses the permission preset of new sessions, among those that are
    /// there.
    pub fn set_default_permission_preset(&mut self, preset: &str, known: &Vec<String>) -> (r: Result<
        (),
        RpcError,
    >)
        requires
            old(self).wf(),
        ensures
            final(self).wf(),
            if text_seq(known@).contains(preset@) {
                let ws = old(self)@.default_workspace();
                r is Ok && final(self)@ == with_defaults(
                    old(self)@,
                    ws,
                    WorkspaceDefaultsView {
                        default_permission_preset: Some(preset@),
                        ..old(self)@.defaults(ws)
                    },
                )
            } else {
                r is Err && r->Err_0@ == error_view("bad-request"@, "未知权限预设"@)
                    && final(self)@ == old(self)@
            },
    {
        if !contains_text(known, preset) {
            return Err(RpcError::bad_request("未知权限预设"));
        }
        let ws = self.default_workspace();
        let mut d = self.defaults_for(&ws);
        d.default_permission_preset = Some(preset.to_owned());
        self.put_defaults(&ws, d);
        Ok(())
    }
}

// Sessions.

/// The state after a title was made for a session: it counts unless the session
/// has one.
pub open spec fn with_made_title(h: HostView, id: Seq<char>, title: Seq<char>) -> HostView {
    if h.titles.dom().contains(id) {
        h
    } else {
        HostView { titles: h.titles.insert(id, title), ..h }
    }
}

/// A session that is running.
pub open spec fn is_running(h: HostView, id: Seq<char>) -> bool {
    h.sessions.dom().contains(id) && h.sessions[id]
}

/// The error that a running session must be stopped first.
pub open spec fn stop_first() -> ErrorView {
    error_view("bad-request"@, "会话运行中,请先停止"@)
}

/// What comes of setting something of a session: it must be known, and the
/// session must not be running; the session is let go, to be assembled anew.
pub open spec fn session_set(
    h: HostView,
    id: Seq<char>,
    known: bool,
    fault: Seq<char>,
    after: HostView,
) -> Result<HostView, ErrorView> {
    if !known {
        Err(error_view("bad-request"@, fault))
    } else if is_running(h, id) {
        Err(stop_first())
    } else {
        Ok(HostView { sessions: h.sessions.remove(id), ..after })
    }
}

impl AppHost {
    /// Lets a session go that is not running.
    pub fn detach_if_idle(&mut self, id: &str) -> (r: Result<(), RpcError>)
        requires
            old(self).wf(),
        ensures
            final(self).wf(),
            if is_running(old(self)@, id@) {
                r is Err && r->Err_0@ == stop_first() && final(self)@ == old(self)@
            } else {
                r is Ok && final(self)@ == (HostView {
                    sessions: old(self)@.sessions.remove(id@),
                    ..old(self)@
                })
            },
    {
        if let Some(running) = self.sessions.get(id) {
            if *running {
                return Err(RpcError::bad_request("会话运行中,请先停止"));
            }
        }
        let gone = self.sessions.remove(id);
        Ok(())
    }

    /// Sets the effort of a session, and of those that its workspace will have.
    pub fn set_effort(&mut self, id: &str, effort: &str) -> (r: Result<(), RpcError>)
        requires
            old(self).wf(),
        ensures
            final(self).wf(),
            ({
                let h = old(self)@;
                let ws = h.workspace_of_session(id@);
                match session_set(
                    h,
                    id@,
                    effort@ == "low"@ || effort@ == "high"@ || effort@ == "max"@,
                    "未知推理等级"@,
                    HostView {
                        effort_overrides: h.effort_overrides.insert(id@, effort@),
                        ..with_defaults(
                            h,
                            ws,
                            WorkspaceDefaultsView { effort: Some(effort@), ..h.defaults(ws) },
                        )
                    },
                ) {
                    Ok(after) => r is Ok && final(self)@ == after,
                    Err(e) => r is Err && r->Err_0@ == e && final(self)@ == h,
                }
            }),
    {
        if !same(effort, "low") && !same(effort, "high") && !same(effort, "max") {
            return Err(RpcError::bad_request("未知推理等级"));
        }
        if let Err(e) = self.detach_if_idle(id) {
            return Err(e);
        }
        let (ws, stem) = self.resolve_session(id);
        let ghost before = self.effort_overrides@;
        self.effort_overrides.insert(id.to_owned(), effort.to_owned());
        assert(text_map(self.effort_overrides@) =~= text_map(before).insert(id@, effort@));
        let mut d = self.defaults_for(&ws);
        d.effort = Some(effort.to_owned());
        self.put_defaults(&ws, d);
        Ok(())
    }

    /// Sets the model of a session, and of those that its workspace will have,
    /// among the models of its provider.
    pub fn set_model(&mut self, id: &str, model: &str) -> (r: Result<(), RpcError>)
        requires
            old(self).wf(),
        ensures
            final(self).wf(),
            ({
                let h = old(self)@;
                let ws = h.workspace_of_session(id@);
                match session_set(
                    h,
                    id@,
                    h.models_for(h.provider_for(ws).id).contains(model@),
                    "未知模型"@,
                    HostView {
                        model_overrides: h.model_overrides.insert(id@, model@),
                        ..with_defaults(
                            h,
                            ws,
                            WorkspaceDefaultsView { model: Some(model@), ..h.defaults(ws) },
                        )
                    },
                ) {
                    Ok(after) => r is Ok && final(self)@ == after,
                    Err(e) => r is Err && r->Err_0@ == e && final(self)@ == h,
                }
            }),
    {
        let (ws, stem) = self.resolve_session(id);
        let provider = self.provider_for(&ws);
        let models = self.models_for(provider.id.as_str());
        if !contains_text(&models, model) {
            return Err(RpcError::bad_request("未知模型"));
        }
        if let Err(e) = self.detach_if_idle(id) {
            return Err(e);
        }
        let ghost before = self.model_overrides@;
        self.model_overrides.insert(id.to_owned(), model.to_owned());
        assert(text_map(self.model_overrides@) =~= text_map(before).insert(id@, model@));
        let mut d = self.defaults_for(&ws);
        d.model = Some(model.to_owned());
        self.put_defaults(&ws, d);
        Ok(())
    }

    /// Sets the preset of a session, and of those that its workspace will have,
    /// among those that are there.
    pub fn set_preset(&mut self, id: &str, preset: &str, known: &Vec<String>) -> (r: Result<
        (),
        RpcError,
    >)
        requires
            old(self).wf(),
        ensures
            final(self).wf(),
            ({
                let h = old(self)@;
                let ws = h.workspace_of_session(id@);
                match session_set(
                    h,
                    id@,
                    text_seq(known@).contains(preset@),
                    "未知 preset"@,
                    HostView {
                        preset_overrides: h.preset_overrides.insert(id@, preset@),
                        ..with_defaults(
                            h,
                            ws,
                            WorkspaceDefaultsView { preset: Some(preset@), ..h.defaults(ws) },
                        )
                    },
                ) {
                    Ok(after) => r is Ok && final(self)@ == after,
                    Err(e) => r is Err && r->Err_0@ == e && final(self)@ == h,
                }
            }),
    {
        if !contains_text(known, preset) {
            return Err(RpcError::bad_request("未知 preset"));
        }
        if let Err(e) = self.detach_if_idle(id) {
            return Err(e);
        }
        let (ws, stem) = self.resolve_session(id);
        let ghost before = self.preset_overrides@;
        self.preset_overrides.insert(id.to_owned(), preset.to_owned());
        assert(text_map(self.preset_overrides@) =~= text_map(before).insert(id@, preset@));
        let mut d = self.defaults_for(&ws);
        d.preset = Some(preset.to_owned());
        self.put_defaults(&ws, d);
        Ok(())
    }

    /// Gives a session a title.
    pub fn rename(&mut self, id: &str, title: &str) -> (r: Result<(), RpcError>)
        requires
            old(self).wf(),
        ensures
            final(self).wf(),
            ({
                let short = first_chars(trimmed(title@), 120);
                if short.len() == 0 {
                    r is Err && r->Err_0@ == error_view("bad-request"@, "标题不可为空"@)
                        && final(self)@ == old(self)@
                } else {
                    r is Ok && final(self)@ == (HostView {
                        titles: old(self)@.titles.insert(id@, short),
                        ..old(self)@
                    })
                }
            }),
    {
        let short = take_chars(trim(title).as_str(), 120);
        if short.as_str().is_empty() {
            return Err(RpcError::bad_request("标题不可为空"));
        }
        let ghost before = self.titles@;
        let ghost shown = short@;
        self.titles.insert(id.to_owned(), short);
        assert(text_map(self.titles@) =~= text_map(before).insert(id@, shown));
        Ok(())
    }

    /// The title that is kept for a session: one that it was given, or that was
    /// made for it.
    pub fn kept_title(&self, id: &str) -> (r: Option<String>)
        ensures
            text_view(r) == self@.kept_title(id@),
    {
        match self.titles.get(id) {
            Some(t) => Some(t.clone()),
            None => None,
        }
    }

    /// The title of a session: the one that is kept for it, else the one that its
    /// first message gives.
    pub fn session_title(&self, id: &str, first: Option<&str>) -> (r: Option<String>)
        ensures
            text_view(r) == self@.session_title(id@, str_view(first)),
    {
        match self.titles.get(id) {
            Some(t) => Some(t.clone()),
            None => match first {
                Some(t) => Some(t.to_owned()),
                None => None,
            },
        }
    }

    /// Gives a session a title that was made for it, unless it has one.
    pub fn apply_generated_title(&mut self, id: &str, title: &str)
        requires
            old(self).wf(),
        ensures
            final(self).wf(),
            final(self)@ == with_made_title(old(self)@, id@, title@),
    {
        if !self.titles.contains(id) {
            let ghost before = self.titles@;
            self.titles.insert(id.to_owned(), title.to_owned());
            assert(text_map(self.titles@) =~= text_map(before).insert(id@, title@));
        }
    }
}

/// A session that was never named has the title that its first message gives; one
/// that was named has that name, whatever its first message gives.
pub proof fn law_name_goes_before_first_message(
    h: HostView,
    id: Seq<char>,
    title: Seq<char>,
    first: Option<Seq<char>>,
)
    ensures
        !h.titles.dom().contains(id) ==> h.session_title(id, first) == first,
        (HostView { titles: h.titles.insert(id, title), ..h }).session_title(id, first) == Some(
            title,
        ),
{
}

/// A title that the user gave stays, whatever title is made for the session.
pub proof fn law_given_title_stays(h: HostView, id: Seq<char>, title: Seq<char>, made: Seq<char>)
    ensures
        ({
            let given = HostView { titles: h.titles.insert(id, title), ..h };
            with_made_title(given, id, made) == given
        }),
{
}

/// The workspaces are registered in the settings as they are: each path in its place.
/// Nothing else changes.
pub proof fn law_workspaces_are_registered(h: HostView, all: Seq<WsView>)
    ensures
        ({
            let after = with_workspaces(h, all);
            &&& after.workspaces == all
            &&& after.settings.workspace_paths.len() == all.len()
            &&& forall|i: int|
                0 <= i < all.len() ==> #[trigger] after.settings.workspace_paths[i] == all[i].path
            &&& after == (HostView { workspaces: all, settings: after.settings, ..h })
            &&& after.settings == (SettingsView {
                workspace_paths: after.settings.workspace_paths,
                ..h.settings
            })
        }),
{
}

/// A workspace that is renamed has the title without the white space around it, up to
/// sixty characters; an empty title, and one that is the name, go back to the name. No
/// other workspace is touched.
pub proof fn law_workspace_is_retitled(
    titles: Map<Seq<char>, Seq<char>>,
    name: Seq<char>,
    title: Seq<char>,
    other: Seq<char>,
)
    ensures
        ({
            let after = retitled(titles, name, title);
            let wanted = trimmed(title);
            &&& wanted.len() == 0 || wanted == name && name.len() <= 60 ==> !after.dom().contains(
                name,
            )
            &&& 0 < wanted.len() <= 60 && wanted != name ==> after.dom().contains(name)
                && after[name] == wanted
            &&& after.dom().contains(name) ==> 0 < after[name].len() <= 60 && after[name]
                == wanted.take(after[name].len() as int) && (wanted.len() > 60 ==> after[name].len()
                == 60)
            &&& other != name ==> after.dom().contains(other) == titles.dom().contains(other) && (
            titles.dom().contains(other) ==> after[other] == titles[other])
        }),
{
    let wanted = trimmed(title);
    assert(wanted.take(wanted.len() as int) =~= wanted);
}

/// A title that is made counts exactly where there is none; no other session is touched.
pub proof fn law_made_title_fills_gap(
    h: HostView,
    id: Seq<char>,
    made: Seq<char>,
    other: Seq<char>,
)
    ensures
        !h.titles.dom().contains(id) ==> with_made_title(h, id, made).kept_title(id) == Some(made),
        other != id ==> with_made_title(h, id, made).kept_title(other) == h.kept_title(other),
        with_made_title(h, id, made) == (HostView {
            titles: with_made_title(h, id, made).titles,
            ..h
        }),
{
}

/// Setting something of a session is refused where it is not known, or where the session
/// runs, and then nothing changes; else the session is let go, and only that besides.
pub proof fn law_running_session_is_not_set(
    h: HostView,
    id: Seq<char>,
    known: bool,
    fault: Seq<char>,
    after: HostView,
)
    ensures
        session_set(h, id, known, fault, after) is Ok <==> known && !(h.sessions.dom().contains(id)
            && h.sessions[id]),
        session_set(h, id, known, fault, after) matches Ok(s) ==> s.sessions == h.sessions.remove(id)
            && s == (HostView { sessions: s.sessions, ..after }),
        session_set(h, id, known, fault, after) matches Err(e) ==> e.code == "bad-request"@,
{
}

/// The settings of a workspace are kept under its own key, and no other's are touched.
pub proof fn law_defaults_are_kept(
    h: HostView,
    ws: WsView,
    d: WorkspaceDefaultsView,
    other: WsView,
)
    ensures
        with_defaults(h, ws, d).defaults(ws) == d,
        key_of(other.path) != key_of(ws.path) ==> with_defaults(h, ws, d).defaults(other)
            == h.defaults(other),
        with_defaults(h, ws, d).workspaces == h.workspaces,
        with_defaults(h, ws, d).sessions == h.sessions,
        with_defaults(h, ws, d).settings.providers == h.settings.providers,
{
}

/// The attached sessions of a workspace are those, and no others, whose ids resolve to
/// its path.
pub proof fn law_sessions_under_workspace(h: HostView, path: Seq<char>, id: Seq<char>)
    ensures
        sessions_under(h, path).contains(id) <==> h.sessions.dom().contains(id) && h.resolve(
            id,
        ).0.path == path,
{
}

/// A choice is taken exactly where it is known; another is refused, and the settings stay.
pub proof fn law_known_choices_are_taken(
    s: SettingsView,
    known: bool,
    fault: Seq<char>,
    after: SettingsView,
)
    ensures
        chosen(s, known, fault, after) matches Ok(a) ==> known && a == after,
        chosen(s, known, fault, after) matches Err(e) ==> !known && e.code == "bad-request"@
            && e.message == fault,
{
}

} // verus!
