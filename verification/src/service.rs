//! What a host starts from, and its smaller answers.
use vstd::prelude::*;
use vstd::string::*;

use crate::commands::{CommandDescriptor, builtin_commands, check_mode, is_builtin_list};
use crate::edits::paths_of;
use crate::events::{Event, EventLog, fresh_event};
use crate::feedback::{
    MessageFeedbackItem, MessageFeedbackStore, delete_view, feedback_views, put_view,
};
use crate::frames::{is_push, status_frame};
use crate::host::{AppHost, BaseConfig, HostView};
use crate::ids::{is_hyphenated_uuid, timed_id};
use crate::interact::str_view;
use crate::codec::{read_whole_textmap, read_whole_texts, whole_textmap, whole_texts};
use crate::json::{Json, JsonTree, has_entry, parse, parsed_value, read_err, read_ok, trees};
use crate::logs::title_projection;
use crate::pages::{JobRecord, job_json, job_tree};
use crate::driver::PresetSpec;
use crate::proto::{
    ErrorView, HistoryEntry, HistoryValue, RpcError, ServerRequest, SessionEvent, error_view,
};
use crate::providers::fingerprints;
use crate::pump::{Job, frame};
use crate::settings::{
    McpServerEntry, SettingsFile, SettingsView, copy_servers, mcp_server_entry_views,
    provider_of, text_map, text_seq,
};
use crate::strmap::StrMap;
use crate::text::{chars_of, digits, same, text_between, trim, trimmed, write_decimal};
use crate::workspaces::{
    Candidate, Workspace, WsView, first_list, first_workspaces, has_path, present, ws_views,
};

verus! {

// The start.

/// The paths of candidates.
pub open spec fn candidate_paths(all: Seq<Candidate>) -> Seq<Seq<char>> {
    all.map_values(|c: Candidate| c.workspace.path@)
}

/// The candidates as workspaces.
pub open spec fn candidate_views(all: Seq<Candidate>) -> Seq<WsView> {
    all.map_values(|c: Candidate| c.workspace@)
}

/// The settings that a host starts with: workspaces that come from an older
/// list are registered.
pub open spec fn first_settings(
    settings: SettingsView,
    all: Seq<WsView>,
    registered: Seq<Candidate>,
) -> SettingsView {
    if registered.len() == 0 && all.len() > 1 {
        SettingsView { workspace_paths: paths_of(all), ..settings }
    } else {
        settings
    }
}

/// The state that a host starts from. No session is attached; the providers
/// count as known.
pub open spec fn first_state(
    launch: WsView,
    fake: bool,
    base: BaseConfig,
    settings: SettingsView,
    titles: Map<Seq<char>, Seq<char>>,
    registered: Seq<Candidate>,
    older: Seq<Candidate>,
) -> HostView {
    let all = first_list(launch, registered, older);
    HostView {
        launch,
        workspaces: all,
        fake,
        base,
        settings: first_settings(settings, all, registered),
        provider_fp: fingerprints(settings.providers),
        sessions: Map::empty(),
        model_overrides: Map::empty(),
        preset_overrides: Map::empty(),
        effort_overrides: Map::empty(),
        titles,
        models_cache: Map::empty(),
    }
}

/// The titles that a text holds: an object whose members are all texts; none
/// where it is anything else.
pub open spec fn titles_from(text: Seq<char>) -> Map<Seq<char>, Seq<char>> {
    match parsed_value(text) {
        Ok(t) => match whole_textmap(t) {
            Some(m) => m,
            None => Map::empty(),
        },
        Err(_) => Map::empty(),
    }
}

/// The titles that a text holds.
pub fn titles_in(text: &str) -> (r: StrMap<String>)
    ensures
        r.wf(),
        text_map(r@) == titles_from(text@),
{
    let none: StrMap<String> = StrMap::new();
    assert(text_map(none@) =~= Map::empty());
    match parse(text) {
        Ok(j) => match read_whole_textmap(&j) {
            Some(m) => m,
            None => none,
        },
        Err(_) => none,
    }
}

/// The paths that the text of an older list of workspaces holds: an array whose
/// items are all texts; none where it is anything else.
pub open spec fn older_from(text: Seq<char>) -> Seq<Seq<char>> {
    match parsed_value(text) {
        Ok(t) => match whole_texts(t) {
            Some(v) => v,
            None => Seq::empty(),
        },
        Err(_) => Seq::empty(),
    }
}

/// The paths that the text of an older list of workspaces holds.
pub fn older_paths(text: &str) -> (r: Vec<String>)
    ensures
        text_seq(r@) == older_from(text@),
{
    let none: Vec<String> = Vec::new();
    assert(text_seq(none@) =~= Seq::empty());
    match parse(text) {
        Ok(j) => match read_whole_texts(&j) {
            Some(v) => v,
            None => none,
        },
        Err(_) => none,
    }
}

/// The description of hooks that a text holds, or why it holds none.
pub fn hook_config(text: &str) -> (r: Result<Json, String>)
    ensures
        match r {
            Ok(j) => parsed_value(text@) == read_ok(j@) && j@.canonical(),
            Err(e) => parsed_value(text@) == read_err(e@),
        },
{
    parse(text)
}

impl AppHost {
    /// A host in a directory, with the settings that were found and the text of the
    /// file of titles, where there is one. `registered` are the directories that the
    /// settings name, `older` those of an older list.
    pub fn new_at(
        launch: Workspace,
        fake: bool,
        base: BaseConfig,
        settings: SettingsFile,
        titles_text: Option<&str>,
        registered: &Vec<Candidate>,
        older: &Vec<Candidate>,
    ) -> (r: AppHost)
        requires
            settings.wf(),
            candidate_paths(registered@) == text_seq(settings.workspace_paths@),
        ensures
            r.wf(),
            r@ == first_state(
                launch@,
                fake,
                base,
                settings@,
                match titles_text {
                    Some(t) => titles_from(t@),
                    None => Map::empty(),
                },
                registered@,
                older@,
            ),
    {
        let (workspaces, register) = first_workspaces(&launch, registered, older);
        let ghost all = ws_views(workspaces@);
        let ghost given = settings@;
        let titles: StrMap<String> = match titles_text {
            Some(t) => titles_in(t),
            None => StrMap::new(),
        };
        assert(titles_text is None ==> text_map(titles@) =~= Map::empty());
        let mut host = AppHost {
            launch,
            workspaces,
            fake,
            base,
            settings,
            provider_fp: StrMap::new(),
            sessions: StrMap::new(),
            model_overrides: StrMap::new(),
            preset_overrides: StrMap::new(),
            effort_overrides: StrMap::new(),
            titles,
            models_cache: StrMap::new(),
        };
        proof {
            assert(host@.provider_fp =~= Map::empty());
            assert(host@.model_overrides =~= Map::empty());
            assert(host@.preset_overrides =~= Map::empty());
            assert(host@.effort_overrides =~= Map::empty());
            assert(host@.models_cache =~= Map::empty());
        }
        if register {
            host.persist_workspaces();
        }
        let ghost before = host@;
        let (changed, gone) = host.sync_provider_transports();
        proof {
            let now = fingerprints(given.providers);
            if exists|id: Seq<char>| crate::providers::has_changed(before, id) {
                assert(before.sessions.remove_keys(crate::providers::outdated(before))
                    =~= Map::empty());
            } else {
                assert forall|id: Seq<char>| !now.dom().contains(id) by {
                    assert(!crate::providers::has_changed(before, id));
                }
                assert(now =~= Map::empty());
            }
        }
        host
    }

    /// Whether the key of a provider is at hand, given whether one was found.
    pub fn credential_status(&self, provider_id: &str, found: bool) -> (r: bool)
        requires
            self.wf(),
        ensures
            r == (found && provider_of(self@.settings.providers, Some(provider_id@)).id
                == provider_id@),
    {
        let p = self.settings.provider(Some(provider_id));
        found && same(p.id.as_str(), provider_id)
    }

    /// The servers of tools in the settings.
    pub fn mcp_servers(&self) -> (r: Vec<McpServerEntry>)
        requires
            self.wf(),
        ensures
            mcp_server_entry_views(r@) == self@.settings.mcp_servers,
    {
        copy_servers(&self.settings.mcp_servers)
    }

    /// Where answers come from: the dialect and the model.
    pub fn provider_info(&self) -> (r: ProviderInfo)
        requires
            self.wf(),
        ensures
            r.provider@ == self@.base.dialect@,
            r.model@ == self@.default_model(),
    {
        ProviderInfo { provider: self.base.dialect.clone(), model: self.default_model() }
    }

    /// How many sessions are attached.
    pub fn attached_count(&self) -> (r: usize)
        requires
            self.wf(),
        ensures
            r == self@.sessions.dom().len(),
            self@.sessions.dom().finite(),
    {
        proof {
            lemma_key_count(self.sessions);
        }
        self.sessions.entries.len()
    }

    /// The commands that the host knows.
    pub fn command_list(&self) -> (r: Vec<CommandDescriptor>)
        ensures
            is_builtin_list(r@),
    {
        builtin_commands()
    }

    /// Whether a tool may be asked for: only while a turn is running.
    pub fn may_ask_for_tool(&self, session_id: &str) -> (r: bool)
        ensures
            r == (self@.sessions.dom().contains(session_id@) && self@.sessions[session_id@]),
    {
        match self.sessions.get(session_id) {
            Some(running) => *running,
            None => false,
        }
    }

    /// A page of what happened in a session, given its events as they are shown
    /// and where the page before it ends. The last page, which is the one that is
    /// asked for without saying what it ends before, has the title too.
    pub fn history(
        &self,
        session_id: &str,
        before_seq: Option<u64>,
        log_title: Option<&str>,
        events: Vec<SessionEvent>,
        cut: u64,
        high_water: u64,
    ) -> (r: HistoryValue)
        requires
            self.wf(),
        ensures
            r.events@.len() == events@.len(),
            forall|i: int|
                0 <= i < events@.len() ==> (#[trigger] r.events@[i]).event == events@[i]
                    && r.events@[i].view is None,
            r.has_more == (cut > 0),
            r.cut == cut,
            ({
                let title = if before_seq is Some {
                    None
                } else {
                    self@.session_title(session_id@, str_view(log_title))
                };
                match title {
                    None => r.projections is None,
                    Some(t) => {
                        &&& r.projections is Some
                        &&& r.projections->0.as_of_seq == (if high_water == 0 {
                            -1i64
                        } else {
                            high_water as i64
                        })
                        &&& r.projections->0.values@ == JsonTree::object().with(
                            "title"@,
                            JsonTree::Text(t),
                        )
                    },
                }
            }),
    {
        let ghost all = events@;
        let mut rest = events;
        let mut out: Vec<HistoryEntry> = Vec::new();
        let ghost mut i: int = 0;
        while rest.len() > 0
            invariant
                0 <= i,
                i + rest@.len() == all.len(),
                rest@ == all.skip(i),
                out@.len() == i,
                forall|k: int|
                    0 <= k < i ==> (#[trigger] out@[k]).event == all[k] && out@[k].view is None,
            decreases rest.len(),
        {
            assert(all.skip(i)[0] == all[i]);
            let event = rest.remove(0);
            assert(all.skip(i).remove(0) =~= all.skip(i + 1));
            out.push(HistoryEntry { event, view: None });
            proof {
                i = i + 1;
            }
        }
        let projections = if before_seq.is_some() {
            None
        } else {
            match self.session_title(session_id, log_title) {
                Some(t) => title_projection(Some(t.as_str()), high_water),
                None => title_projection(None, high_water),
            }
        };
        HistoryValue { events: out, has_more: cut > 0, cut, projections }
    }
}

proof fn lemma_key_count<V>(m: StrMap<V>)
    requires
        m.wf(),
    ensures
        m@.dom().finite(),
        m@.dom().len() == m.entries@.len(),
{
    let keys = m.entries@.map_values(|e: (String, V)| e.0@);
    assert(keys.no_duplicates()) by {
        assert forall|i: int, j: int| 0 <= i < j < keys.len() implies keys[i] != keys[j] by {
            assert(m.entries@[i].0@ != m.entries@[j].0@);
        }
    }
    keys.unique_seq_to_set();
    assert forall|k: Seq<char>| keys.to_set().contains(k) == m@.dom().contains(k) by {
        crate::strmap::lemma_key_place(m.entries@, k);
        let p = crate::strmap::key_place(m.entries@, k);
        if p < m.entries@.len() {
            assert(keys[p] == k);
        } else if keys.contains(k) {
            let j = choose|j: int| 0 <= j < keys.len() && keys[j] == k;
            assert(m.entries@[j].0@ != k);
        }
    }
    assert(keys.to_set() =~= m@.dom());
}

/// Workspaces that are still there come back, in their order, when the host is
/// started anew in one of them.
pub proof fn law_restart_keeps_workspaces(
    launch: WsView,
    registered: Seq<Candidate>,
    older: Seq<Candidate>,
)
    requires
        registered.len() > 0,
        forall|i: int| 0 <= i < registered.len() ==> (#[trigger] registered[i]).is_dir,
        has_path(candidate_views(registered), launch.path),
    ensures
        first_list(launch, registered, older) == candidate_views(registered),
{
    lemma_all_present(registered);
}

proof fn lemma_all_present(all: Seq<Candidate>)
    requires
        forall|i: int| 0 <= i < all.len() ==> (#[trigger] all[i]).is_dir,
    ensures
        present(all) == candidate_views(all),
    decreases all.len(),
{
    if all.len() > 0 {
        assert forall|i: int| 0 <= i < all.len() - 1 implies (#[trigger] all.drop_last()[i]).is_dir by {
            assert(all.drop_last()[i] == all[i]);
        }
        lemma_all_present(all.drop_last());
        assert(all.last() == all[all.len() - 1]);
        assert(candidate_views(all) =~= candidate_views(all.drop_last()).push(
            all.last().workspace@,
        ));
    } else {
        assert(candidate_views(all) =~= Seq::empty());
    }
}

/// Where answers come from.
#[derive(Debug, PartialEq)]
pub struct ProviderInfo {
    pub provider: String,
    pub model: String,
}

// Logs from before each session had a directory.

/// The name of a log without its ending, which is `.jsonl`; none where it ends
/// otherwise, or has nothing before it.
pub open spec fn log_stem(file_name: Seq<char>) -> Option<Seq<char>> {
    let n = file_name.len();
    if n > 6 && file_name.skip(n - 6) == ".jsonl"@ {
        Some(file_name.take(n - 6))
    } else {
        None
    }
}

/// Where a log that lies loose in a workspace goes, as the parts of a path below
/// the directory of all sessions.
pub fn legacy_target(project: &str, file_name: &str, archived: bool) -> (r: Option<Vec<String>>)
    ensures
        match log_stem(file_name@) {
            None => r is None,
            Some(stem) => r is Some && text_seq(r->0@) == (if archived {
                seq![project@, ".archive"@, stem, "session.jsonl"@]
            } else {
                seq![project@, stem, "session.jsonl"@]
            }),
        },
{
    let v = chars_of(file_name);
    let n: usize = v.len();
    if n <= 6 {
        return None;
    }
    let tail = text_between(&v, n - 6, n);
    proof {
        assert(file_name@.subrange(n - 6, n as int) =~= file_name@.skip(n - 6));
    }
    if !same(tail.as_str(), ".jsonl") {
        return None;
    }
    let stem = text_between(&v, 0, n - 6);
    assert(file_name@.subrange(0, n - 6) =~= file_name@.take(n - 6));
    let mut out: Vec<String> = Vec::new();
    out.push(project.to_owned());
    if archived {
        out.push(".archive".to_owned());
    }
    out.push(stem);
    out.push("session.jsonl".to_owned());
    proof {
        if archived {
            assert(text_seq(out@) =~= seq![
                project@,
                ".archive"@,
                log_stem(file_name@)->0,
                "session.jsonl"@,
            ]);
        } else {
            assert(text_seq(out@) =~= seq![
                project@,
                log_stem(file_name@)->0,
                "session.jsonl"@,
            ]);
        }
    }
    Some(out)
}

// Directories.

/// The directory that the user chose in a dialog, given whether the dialog came
/// to its end and what it wrote.
pub fn picked_directory(ended: bool, output: &str) -> (r: Result<String, RpcError>)
    ensures
        if !ended {
            r is Err && r->Err_0@ == error_view(
                "bad-request"@,
                "用户取消或系统对话框不可用"@,
            )
        } else if trimmed(output@).len() == 0 {
            r is Err && r->Err_0@ == error_view("bad-request"@, "用户取消"@)
        } else {
            r is Ok && r->Ok_0@ == trimmed(output@)
        },
{
    if !ended {
        return Err(RpcError::bad_request("用户取消或系统对话框不可用"));
    }
    let path = trim(output);
    if path.as_str().is_empty() {
        return Err(RpcError::bad_request("用户取消"));
    }
    Ok(path)
}

// Servers of tools.

/// How a server of tools stands.
#[derive(Debug, PartialEq)]
pub struct PortStatus {
    pub id: String,
    pub status: String,
    /// What went wrong; empty where nothing did.
    pub error: String,
}

/// How a server of tools stands, as it is shown.
pub open spec fn port_tree(p: PortStatus) -> JsonTree {
    JsonTree::object().with("id"@, JsonTree::Text(p.id@)).with(
        "status"@,
        JsonTree::Text(p.status@),
    ).with("error"@, JsonTree::Text(p.error@))
}

/// What happens to a server of tools.
#[derive(Debug, PartialEq)]
pub enum PortEvent {
    Connecting,
    Ready,
    /// It is tried again, after a while.
    Reconnecting { attempt: u64, max_attempts: u64, delay_ms: u64 },
    Failed(String),
    Stopped,
}

/// How a server of tools stands after something happened to it, and the text
/// that goes with it.
pub open spec fn standing(event: PortEvent) -> (Seq<char>, Seq<char>) {
    match event {
        PortEvent::Connecting => ("connecting"@, ""@),
        PortEvent::Ready => ("ready"@, ""@),
        PortEvent::Reconnecting { attempt, max_attempts, delay_ms } => (
            "reconnecting"@,
            "第 "@ + digits(attempt as nat, 10) + "/"@ + digits(max_attempts as nat, 10) + " 次,"@
                + digits(delay_ms as nat, 10) + "ms 后重试"@,
        ),
        PortEvent::Failed(e) => ("failed"@, e@),
        PortEvent::Stopped => ("stopped"@, ""@),
    }
}

/// How a server of tools stands after something happened to it.
pub fn port_status(id: &str, event: &PortEvent) -> (r: PortStatus)
    ensures
        r.id@ == id@,
        r.status@ == standing(*event).0,
        r.error@ == standing(*event).1,
{
    let (status, error): (&str, String) = match event {
        PortEvent::Connecting => ("connecting", "".to_owned()),
        PortEvent::Ready => ("ready", "".to_owned()),
        PortEvent::Reconnecting { attempt, max_attempts, delay_ms } => {
            let mut text = "第 ".to_owned();
            let a = write_decimal(*attempt);
            let m = write_decimal(*max_attempts);
            let d = write_decimal(*delay_ms);
            text.append(a.as_str());
            text.append("/");
            text.append(m.as_str());
            text.append(" 次,");
            text.append(d.as_str());
            text.append("ms 后重试");
            ("reconnecting", text)
        },
        PortEvent::Failed(e) => ("failed", e.clone()),
        PortEvent::Stopped => ("stopped", "".to_owned()),
    };
    PortStatus { id: id.to_owned(), status: status.to_owned(), error }
}

/// The frame that says how a server of tools stands.
pub fn port_frame(p: &PortStatus) -> (r: ServerRequest)
    ensures
        is_push(r),
        r.method@ == "mcp/status"@,
        r.payload@ == JsonTree::object().with("server"@, JsonTree::Text(p.id@)).with(
            "status"@,
            JsonTree::Text(p.status@),
        ).with("error"@, JsonTree::Text(p.error@)),
{
    frame(
        "mcp/status",
        Json::object().with("server", Json::text(p.id.as_str())).with(
            "status",
            Json::text(p.status.as_str()),
        ).with("error", Json::text(p.error.as_str())),
    )
}

/// How the servers of tools stand.
pub fn mcp_server_status(all: &Vec<PortStatus>) -> (r: Json)
    ensures
        r@ == JsonTree::object().with(
            "servers"@,
            JsonTree::Array(all@.map_values(|p: PortStatus| port_tree(p))),
        ),
{
    let ghost wanted = all@.map_values(|p: PortStatus| port_tree(p));
    let mut out: Vec<Json> = Vec::new();
    let mut i: usize = 0;
    while i < all.len()
        invariant
            i <= all.len(),
            wanted == all@.map_values(|p: PortStatus| port_tree(p)),
            trees(out@) == wanted.take(i as int),
        decreases all.len() - i,
    {
        let p = &all[i];
        let j = Json::object().with("id", Json::text(p.id.as_str())).with(
            "status",
            Json::text(p.status.as_str()),
        ).with("error", Json::text(p.error.as_str()));
        proof {
            assert(trees(out@.push(j)) =~= trees(out@).push(j@));
            assert(wanted.take(i + 1) =~= wanted.take(i as int).push(wanted[i as int]));
        }
        out.push(j);
        i = i + 1;
    }
    assert(wanted.take(wanted.len() as int) =~= wanted);
    Json::object().with("servers", Json::array(out))
}

// Work in the background.

/// The frames that say how the work of a session stands: one of all of it for
/// those who watch the session, and for each piece one that says whether it
/// runs, for those who watch the host.
pub fn jobs_frames(parent_id: &str, jobs: &Vec<JobRecord>) -> (r: (
    ServerRequest,
    Vec<ServerRequest>,
))
    ensures
        is_push(r.0),
        r.0.method@ == "session/jobs"@,
        r.0.payload@ == JsonTree::object().with("sessionId"@, JsonTree::Text(parent_id@)).with(
            "jobs"@,
            JsonTree::Array(jobs@.map_values(|j: JobRecord| job_tree(j))),
        ),
        r.1@.len() == jobs@.len(),
        forall|i: int|
            0 <= i < jobs@.len() ==> {
                &&& is_push(#[trigger] r.1@[i])
                &&& r.1@[i].method@ == "host/session-status"@
                &&& r.1@[i].payload@ == JsonTree::object().with(
                    "sessionId"@,
                    JsonTree::Text(jobs@[i].session_id@),
                ).with("running"@, JsonTree::Bool(jobs@[i].status@ == "running"@))
            },
{
    let ghost wanted = jobs@.map_values(|j: JobRecord| job_tree(j));
    let mut shown: Vec<Json> = Vec::new();
    let mut frames: Vec<ServerRequest> = Vec::new();
    let mut i: usize = 0;
    while i < jobs.len()
        invariant
            i <= jobs.len(),
            wanted == jobs@.map_values(|j: JobRecord| job_tree(j)),
            trees(shown@) == wanted.take(i as int),
            frames@.len() == i,
            forall|k: int|
                0 <= k < i ==> {
                    &&& is_push(#[trigger] frames@[k])
                    &&& frames@[k].method@ == "host/session-status"@
                    &&& frames@[k].payload@ == JsonTree::object().with(
                        "sessionId"@,
                        JsonTree::Text(jobs@[k].session_id@),
                    ).with("running"@, JsonTree::Bool(jobs@[k].status@ == "running"@))
                },
        decreases jobs.len() - i,
    {
        let j = job_json(&jobs[i]);
        proof {
            assert(trees(shown@.push(j)) =~= trees(shown@).push(j@));
            assert(wanted.take(i + 1) =~= wanted.take(i as int).push(wanted[i as int]));
        }
        shown.push(j);
        frames.push(
            status_frame(jobs[i].session_id.as_str(), same(jobs[i].status.as_str(), "running")),
        );
        i = i + 1;
    }
    assert(wanted.take(wanted.len() as int) =~= wanted);
    let payload = Json::object().with("sessionId", Json::text(parent_id)).with(
        "jobs",
        Json::array(shown),
    );
    (frame("session/jobs", payload), frames)
}

/// What tells a session that work it had done by another is settled.
pub fn subagent_notice(text: String, source: Json) -> (r: Job)
    ensures
        r matches Job::Notice { id, text: t, source: s } && is_hyphenated_uuid(id@) && t == text
            && s == source,
{
    Job::Notice { id: timed_id(), text, source }
}

// Modes and permissions.

/// Gives a session another mode.
pub fn set_mode(mode: &str) -> (r: Result<Job, RpcError>)
    ensures
        if mode@ == "standard"@ || mode@ == "plan"@ {
            r matches Ok(Job::SetMode(m)) && m@ == mode@
        } else {
            r is Err && r->Err_0@ == error_view(
                "bad-request"@,
                "mode 取值必须为 standard 或 plan"@,
            )
        },
{
    match check_mode(mode) {
        Ok(_) => Ok(Job::SetMode(mode.to_owned())),
        Err(e) => Err(e),
    }
}

/// Gives a session other access, where it is among what can be given.
pub fn set_permission(permission: &str, known: &Vec<String>) -> (r: Result<Job, RpcError>)
    ensures
        if text_seq(known@).contains(permission@) {
            r matches Ok(Job::SetPermission(p)) && p@ == permission@
        } else {
            r is Err && r->Err_0@ == error_view("bad-request"@, "未知访问模式"@)
        },
{
    if crate::host::contains_text(known, permission) {
        Ok(Job::SetPermission(permission.to_owned()))
    } else {
        Err(RpcError::bad_request("未知访问模式"))
    }
}

/// Gives a session another way to ask for approval, where it is known.
pub fn set_approval(policy: &str, known: &Vec<String>) -> (r: Result<Job, RpcError>)
    ensures
        if text_seq(known@).contains(policy@) {
            r matches Ok(Job::SetApproval(p)) && p@ == policy@
        } else {
            r is Err && r->Err_0@ == error_view("bad-request"@, "未知审批策略"@)
        },
{
    if crate::host::contains_text(known, policy) {
        Ok(Job::SetApproval(policy.to_owned()))
    } else {
        Err(RpcError::bad_request("未知审批策略"))
    }
}

/// The names of permission presets.
pub open spec fn preset_names(all: Seq<PresetSpec>) -> Seq<Seq<char>> {
    all.map_values(|p: PresetSpec| p.name@)
}

/// The names of permission presets.
pub fn permissions(presets: &Vec<PresetSpec>) -> (r: Vec<String>)
    ensures
        text_seq(r@) == preset_names(presets@),
{
    let ghost wanted = preset_names(presets@);
    let mut out: Vec<String> = Vec::new();
    let mut i: usize = 0;
    while i < presets.len()
        invariant
            i <= presets.len(),
            wanted == preset_names(presets@),
            text_seq(out@) == wanted.take(i as int),
        decreases presets.len() - i,
    {
        let name = presets[i].name.clone();
        proof {
            assert(text_seq(out@.push(name)) =~= text_seq(out@).push(name@));
            assert(wanted.take(i + 1) =~= wanted.take(i as int).push(wanted[i as int]));
        }
        out.push(name);
        i = i + 1;
    }
    assert(wanted.take(wanted.len() as int) =~= wanted);
    out
}

/// A permission preset to choose.
pub open spec fn option_tree(p: PresetSpec) -> JsonTree {
    JsonTree::object().with("value"@, JsonTree::Text(p.name@)).with(
        "name"@,
        JsonTree::Text(p.name@),
    ).with("sandbox"@, JsonTree::Text(p.sandbox@)).with("approval"@, JsonTree::Text(p.approval@))
}

/// The permission presets to choose from.
pub fn permission_options(presets: &Vec<PresetSpec>) -> (r: Vec<Json>)
    ensures
        trees(r@) == presets@.map_values(|p: PresetSpec| option_tree(p)),
{
    let ghost wanted = presets@.map_values(|p: PresetSpec| option_tree(p));
    let mut out: Vec<Json> = Vec::new();
    let mut i: usize = 0;
    while i < presets.len()
        invariant
            i <= presets.len(),
            wanted == presets@.map_values(|p: PresetSpec| option_tree(p)),
            trees(out@) == wanted.take(i as int),
        decreases presets.len() - i,
    {
        let p = &presets[i];
        let j = Json::object().with("value", Json::text(p.name.as_str())).with(
            "name",
            Json::text(p.name.as_str()),
        ).with("sandbox", Json::text(p.sandbox.as_str())).with(
            "approval",
            Json::text(p.approval.as_str()),
        );
        proof {
            assert(trees(out@.push(j)) =~= trees(out@).push(j@));
            assert(wanted.take(i + 1) =~= wanted.take(i as int).push(wanted[i as int]));
        }
        out.push(j);
        i = i + 1;
    }
    assert(wanted.take(wanted.len() as int) =~= wanted);
    out
}

/// The number of the event that last gave a session a mode.
pub fn last_mode(log: &EventLog) -> (r: Option<usize>)
    ensures
        match r {
            Some(k) => {
                &&& k < log@.len()
                &&& log@[k as int].kind == "session/mode"@
                &&& forall|i: int| k < i < log@.len() ==> (#[trigger] log@[i]).kind
                    != "session/mode"@
            },
            None => forall|i: int|
                0 <= i < log@.len() ==> (#[trigger] log@[i]).kind != "session/mode"@,
        },
{
    let mut k: usize = log.events.len();
    while k > 0
        invariant
            k <= log@.len(),
            log@.len() == log.events@.len(),
            forall|i: int| k <= i < log@.len() ==> (#[trigger] log@[i]).kind != "session/mode"@,
        decreases k,
    {
        k = k - 1;
        assert(log@[k as int] == log.events@[k as int]@);
        if same(log.events[k].kind.as_str(), "session/mode") {
            return Some(k);
        }
    }
    None
}

/// The event that records what hooks add when a session starts.
pub fn session_start_event(text: &str, time: i64) -> (r: Event)
    ensures
        exists|id: Seq<char>|
            is_hyphenated_uuid(id) && r@ == fresh_event(
                "user/message"@,
                time,
                #[trigger] hook_message(id, text@),
            ),
{
    let id = timed_id();
    let source = Json::object().with("kind", Json::text("plugin")).with(
        "plugin",
        Json::text("hooks"),
    ).with("form", Json::text("session-start"));
    let data = Json::object().with("id", Json::text(id.as_str())).with(
        "content",
        Json::text(text),
    ).with("source", source);
    assert(data@ == hook_message(id@, text@));
    Event::new("user/message", time, data)
}

/// A message that hooks add when a session starts.
pub open spec fn hook_message(id: Seq<char>, text: Seq<char>) -> JsonTree {
    JsonTree::object().with("id"@, JsonTree::Text(id)).with("content"@, JsonTree::Text(text)).with(
        "source"@,
        JsonTree::object().with("kind"@, JsonTree::Text("plugin"@)).with(
            "plugin"@,
            JsonTree::Text("hooks"@),
        ).with("form"@, JsonTree::Text("session-start"@)),
    )
}

/// The event that is shown after something was written: the one under the number
/// that it was written under, else the last one.
pub fn echoed(log: &EventLog, seq: Option<u64>) -> (r: Option<usize>)
    ensures
        match seq {
            None => match r {
                Some(k) => k == log@.len() - 1,
                None => log@.len() == 0,
            },
            Some(s) => match r {
                Some(k) => {
                    &&& k < log@.len()
                    &&& log@[k as int].seq == s
                    &&& forall|i: int| 0 <= i < k ==> (#[trigger] log@[i]).seq != s
                },
                None => forall|i: int| 0 <= i < log@.len() ==> (#[trigger] log@[i]).seq != s,
            },
        },
{
    match seq {
        None => if log.events.len() == 0 {
            None
        } else {
            Some(log.events.len() - 1)
        },
        Some(s) => {
            let mut i: usize = 0;
            while i < log.events.len()
                invariant
                    i <= log.events.len(),
                    seq == Some(s),
                    log@.len() == log.events@.len(),
                    forall|k: int| 0 <= k < i ==> (#[trigger] log@[k]).seq != s,
                decreases log.events.len() - i,
            {
                assert(log@[i as int] == log.events@[i as int]@);
                if log.events[i].seq == s {
                    return Some(i);
                }
                i = i + 1;
            }
            None
        },
    }
}

// What is said of messages.

/// What a client is told where something said of a message is refused.
pub open spec fn feedback_refusal(e: Seq<char>) -> ErrorView {
    error_view("version-conflict"@, e)
}

/// All that was said in a session.
pub fn message_feedback_list(
    store: &MessageFeedbackStore,
    stored: Option<Vec<MessageFeedbackItem>>,
) -> (r: Vec<MessageFeedbackItem>)
    ensures
        match stored {
            Some(v) => r == v,
            None => r@.len() == 0,
        },
{
    store.list(stored)
}

/// Says something of a message.
pub fn message_feedback_put(
    store: &MessageFeedbackStore,
    items: &mut Vec<MessageFeedbackItem>,
    message_id: &str,
    rating: &str,
    note: Option<&str>,
    if_version: Option<&str>,
    now: i64,
) -> (r: Result<MessageFeedbackItem, RpcError>)
    ensures
        exists|fresh: Seq<char>|
            is_hyphenated_uuid(fresh) && match #[trigger] put_view(
                feedback_views(old(items)@),
                store.max_note_bytes,
                message_id@,
                rating@,
                str_view(note),
                str_view(if_version),
                fresh,
                now,
            ) {
                Ok((after, item)) => r is Ok && r->Ok_0@ == item && feedback_views(final(items)@)
                    == after,
                Err(e) => r is Err && r->Err_0@ == feedback_refusal(e) && final(items)@ == old(
                    items,
                )@,
            },
{
    match store.put(items, message_id, rating, note, if_version, now) {
        Ok(it) => Ok(it),
        Err(e) => Err(RpcError::plain("version-conflict", e.as_str())),
    }
}

/// Takes back what was said of a message.
pub fn message_feedback_delete(
    store: &MessageFeedbackStore,
    items: &mut Vec<MessageFeedbackItem>,
    message_id: &str,
    if_version: &str,
) -> (r: Result<MessageFeedbackItem, RpcError>)
    ensures
        match delete_view(feedback_views(old(items)@), message_id@, if_version@) {
            Ok((after, item)) => r is Ok && r->Ok_0@ == item && feedback_views(final(items)@)
                == after,
            Err(e) => r is Err && r->Err_0@ == feedback_refusal(e) && final(items)@ == old(items)@,
        },
{
    match store.delete(items, message_id, if_version) {
        Ok(it) => Ok(it),
        Err(e) => Err(RpcError::plain("version-conflict", e.as_str())),
    }
}

/// A host starts from what it is given: no session is attached and nothing is set of any;
/// the titles are those that were kept, and the settings those that were found, but that
/// workspaces of an older list are registered.
pub proof fn law_host_starts_from_what_it_is_given(
    launch: WsView,
    fake: bool,
    base: BaseConfig,
    settings: SettingsView,
    titles: Map<Seq<char>, Seq<char>>,
    registered: Seq<Candidate>,
    older: Seq<Candidate>,
)
    ensures
        ({
            let h = first_state(launch, fake, base, settings, titles, registered, older);
            &&& h.launch == launch && h.fake == fake && h.base == base && h.titles == titles
            &&& h.sessions.dom().is_empty() && h.model_overrides.dom().is_empty()
                && h.preset_overrides.dom().is_empty() && h.effort_overrides.dom().is_empty()
                && h.models_cache.dom().is_empty()
            &&& h.workspaces == first_list(launch, registered, older)
            &&& h.settings == (SettingsView {
                workspace_paths: h.settings.workspace_paths,
                ..settings
            })
            &&& registered.len() > 0 ==> h.settings == settings
            &&& registered.len() == 0 && h.workspaces.len() > 1 ==> h.settings.workspace_paths.len()
                == h.workspaces.len() && forall|i: int|
                0 <= i < h.workspaces.len() ==> #[trigger] h.settings.workspace_paths[i]
                    == h.workspaces[i].path
            &&& forall|id: Seq<char>| !crate::providers::has_changed(h, id)
        }),
{
}

/// The name of a loose log is what stands before its ending, whatever it is; a file of
/// another ending, and one that is nothing but the ending, is no log.
pub proof fn law_loose_logs_are_named(stem: Seq<char>, other: Seq<char>)
    ensures
        stem.len() > 0 ==> log_stem(stem + ".jsonl"@) == Some(stem),
        log_stem(".jsonl"@) is None,
        log_stem(other) matches Some(s) ==> other == s + ".jsonl"@ && s.len() > 0,
{
    reveal_strlit(".jsonl");
    assert(".jsonl"@.len() == 6);
    let name = stem + ".jsonl"@;
    let n = name.len() as int;
    assert(name.skip(n - 6) =~= ".jsonl"@);
    assert(name.take(n - 6) =~= stem);
    if log_stem(other) is Some {
        let m = other.len() as int;
        assert(other =~= other.take(m - 6) + other.skip(m - 6));
    }
}

/// Titles are kept as an object of texts: each title stands under its session. A file that
/// holds anything else holds no titles, and one that is no JSON neither.
pub proof fn law_titles_are_read_whole(text: Seq<char>, t: JsonTree, id: Seq<char>)
    requires
        parsed_value(text) == crate::json::read_ok(t),
    ensures
        t is Object && (forall|i: int|
            0 <= i < t->Object_0.len() ==> (#[trigger] t->Object_0[i]).1 is Text) ==> (titles_from(
            text,
        ).dom().contains(id) <==> t.get(id) is Some) && (t.get(id) matches Some(
            JsonTree::Text(s),
        ) ==> titles_from(text)[id] == s),
        !(t is Object) || (exists|i: int|
            0 <= i < t->Object_0.len() && !((#[trigger] t->Object_0[i]).1 is Text)) ==> titles_from(
            text,
        ).dom().is_empty(),
        t is Array && (forall|i: int|
            0 <= i < t->Array_0.len() ==> (#[trigger] t->Array_0[i]) is Text) ==> older_from(
            text,
        ).len() == t->Array_0.len() && forall|i: int|
            0 <= i < t->Array_0.len() ==> t->Array_0[i] == JsonTree::Text(
                #[trigger] older_from(text)[i],
            ),
        !(t is Array) || (exists|i: int|
            0 <= i < t->Array_0.len() && !((#[trigger] t->Array_0[i]) is Text)) ==> older_from(
            text,
        ).len() == 0,
{
}

/// How a server of tools stands after something happened to it, in one word, with the
/// error where it failed.
pub proof fn law_ports_stand_as_told(e: String, attempt: u32)
    ensures
        standing(PortEvent::Connecting).0 == "connecting"@,
        standing(PortEvent::Ready).0 == "ready"@,
        standing(PortEvent::Stopped).0 == "stopped"@,
        standing(PortEvent::Failed(e)) == ("failed"@, e@),
{
}

/// A permission preset is offered under its name, with the access that it gives and when
/// it asks; the message that hooks add at the start says what they add, and that it comes
/// from them.
pub proof fn law_options_and_hook_messages(p: PresetSpec, id: Seq<char>, text: Seq<char>)
    ensures
        has_entry(option_tree(p), "value"@, JsonTree::Text(p.name@)),
        has_entry(option_tree(p), "name"@, JsonTree::Text(p.name@)),
        has_entry(option_tree(p), "sandbox"@, JsonTree::Text(p.sandbox@)),
        has_entry(option_tree(p), "approval"@, JsonTree::Text(p.approval@)),
        has_entry(hook_message(id, text), "id"@, JsonTree::Text(id)),
        has_entry(hook_message(id, text), "content"@, JsonTree::Text(text)),
        exists|s: JsonTree| #[trigger]
            has_entry(hook_message(id, text), "source"@, s) && has_entry(
                s,
                "kind"@,
                JsonTree::Text("plugin"@),
            ) && has_entry(s, "plugin"@, JsonTree::Text("hooks"@)) && has_entry(
                s,
                "form"@,
                JsonTree::Text("session-start"@),
            ),
{
    let a = option_tree(p)->Object_0;
    assert(a[0].0 == "value"@ && a[1].0 == "name"@ && a[2].0 == "sandbox"@ && a[3].0
        == "approval"@);
    let b = hook_message(id, text)->Object_0;
    assert(b[0].0 == "id"@ && b[1].0 == "content"@ && b[2].0 == "source"@);
    let s = b[2].1;
    let c = s->Object_0;
    assert(c[0].0 == "kind"@ && c[1].0 == "plugin"@ && c[2].0 == "form"@);
    assert(has_entry(hook_message(id, text), "source"@, s));
}

/// How a server of tools is shown: its id, how it stands, and the text that goes with it.
pub proof fn law_port_is_shown(p: PortStatus)
    ensures
        has_entry(port_tree(p), "id"@, JsonTree::Text(p.id@)),
        has_entry(port_tree(p), "status"@, JsonTree::Text(p.status@)),
        has_entry(port_tree(p), "error"@, JsonTree::Text(p.error@)),
{
    let a = port_tree(p)->Object_0;
    assert(a[0].0 == "id"@ && a[1].0 == "status"@ && a[2].0 == "error"@);
}

/// A server of tools that is being connected to anew says how often this was tried, how
/// often it will be, and how long it waits.
pub proof fn law_reconnection_is_told(attempt: u32, max_attempts: u32, delay_ms: u64, e: PortEvent)
    requires
        e matches PortEvent::Reconnecting { attempt: a, max_attempts: m, delay_ms: d } && a
            == attempt && m == max_attempts && d == delay_ms,
    ensures
        standing(e).0 == "reconnecting"@,
        standing(e).1 == "第 "@ + digits(attempt as nat, 10) + "/"@ + digits(
            max_attempts as nat,
            10,
        ) + " 次,"@ + digits(delay_ms as nat, 10) + "ms 后重试"@,
{
}

} // verus!
