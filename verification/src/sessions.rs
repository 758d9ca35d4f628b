//! Listing, making and deleting sessions, and following where they come from.
use vstd::prelude::*;
use vstd::string::*;

use crate::edits::{is_running, stop_first};
use crate::events::{Event, EventLog, EventView, event_views, fresh_event, numbered};
use crate::host::{AppHost, HostView, WorkspaceConfig, contains_text};
use crate::ids::{is_simple_uuid, random_simple_id};
use crate::interact::text_view;
use crate::json::{Json, JsonTree, lemma_with};
use crate::lineage::{Header, latest_first, log_title, sort_sessions};
use crate::paths::key_of;
use crate::proto::{ErrorView, HostSessionAdded, Projections, RpcError, SessionSummary, error_view};
use crate::settings::{copy_text, text_map, text_seq};
use crate::strmap::{StrMap, id_set};
use crate::text::{has_part, joined, parted, same, split_once};
use crate::workspaces::{Workspace, WsView, ws_named};

verus! {

/// What was found in the directory of a workspace's sessions.
#[derive(Debug, PartialEq)]
pub struct Scanned {
    pub workspace: Workspace,
    /// The name of the entry.
    pub stem: String,
    pub is_dir: bool,
    /// Whether there is a log in it.
    pub has_log: bool,
    pub header: Header,
    /// When the log last changed.
    pub updated_at: u64,
    /// Whether no turn has started.
    pub blank: bool,
    /// The text of the first message of the user.
    pub log_title: Option<String>,
}

/// Whether an entry is a session.
pub open spec fn is_session(s: Scanned) -> bool {
    s.is_dir && s.stem@ != ".archive"@ && s.has_log
}

/// The entries that are sessions.
pub open spec fn sessions_in(all: Seq<Scanned>) -> Seq<Scanned>
    decreases all.len(),
{
    if all.len() == 0 {
        Seq::empty()
    } else if is_session(all.last()) {
        sessions_in(all.drop_last()).push(all.last())
    } else {
        sessions_in(all.drop_last())
    }
}

/// A name, or nothing where there is none.
pub open spec fn name_or_empty(ws: WsView) -> Seq<char> {
    match ws.name {
        Some(n) => n,
        None => Seq::empty(),
    }
}

/// What the ids of the sessions of a workspace begin with.
pub open spec fn id_prefix(h: HostView, ws: WsView) -> Seq<char> {
    if name_or_empty(ws) == name_or_empty(h.default_workspace()) {
        Seq::empty()
    } else {
        name_or_empty(ws) + "/"@
    }
}

/// The title that is shown for a session: the one it was given, else the text of
/// its first message.
pub open spec fn shown_title(h: HostView, id: Seq<char>, s: Scanned) -> Option<Seq<char>> {
    if h.titles.dom().contains(id) {
        Some(h.titles[id])
    } else {
        text_view(s.log_title)
    }
}

/// Whether a line of the list is that of an entry.
pub open spec fn summarizes(h: HostView, s: Scanned, line: SessionSummary) -> bool {
    let id = id_prefix(h, s.workspace@) + s.stem@;
    &&& line.session_id@ == id
    &&& line.updated_at == s.updated_at
    &&& line.running == is_running(h, id)
    &&& line.blank == s.blank
    &&& line.parent_session_id == s.header.parent
    &&& line.origin == s.header.origin
    &&& text_view(line.cwd) == Some(s.workspace@.path)
    &&& line.agent_preset is None
    &&& match shown_title(h, id, s) {
        None => line.projections is None,
        Some(t) => line.projections matches Some(p) && p.as_of_seq == 0 && p.values@
            == JsonTree::object().with("title"@, JsonTree::Text(t)),
    }
}

/// Whether a list is that of the sessions among what was found: a line for each, the
/// last changed ones first.
pub open spec fn is_listing(h: HostView, found: Seq<Scanned>, list: Seq<SessionSummary>) -> bool {
    exists|lines: Seq<SessionSummary>|
        list == #[trigger] latest_first(lines) && lines.len() == sessions_in(found).len() && forall|
            i: int,
        |
            0 <= i < lines.len() ==> summarizes(h, sessions_in(found)[i], #[trigger] lines[i])
}

impl AppHost {
    fn prefix_for(&self, ws: &Workspace) -> (r: String)
        ensures
            r@ == id_prefix(self@, ws@),
    {
        let name = match &ws.name {
            Some(n) => n.clone(),
            None => String::new(),
        };
        let default = self.default_workspace_name();
        if same(name.as_str(), default.as_str()) {
            String::new()
        } else {
            joined(name.as_str(), "/")
        }
    }

    fn summarize(&self, s: &Scanned) -> (r: SessionSummary)
        ensures
            summarizes(self@, *s, r),
    {
        let prefix = self.prefix_for(&s.workspace);
        let id = joined(prefix.as_str(), s.stem.as_str());
        let running = match self.sessions.get(id.as_str()) {
            Some(b) => *b,
            None => false,
        };
        let title: Option<String> = match self.kept_title(id.as_str()) {
            Some(t) => Some(t),
            None => copy_text(&s.log_title),
        };
        let projections = match title {
            Some(t) => Some(
                Projections { as_of_seq: 0, values: Json::object().with("title", Json::Text(t)) },
            ),
            None => None,
        };
        SessionSummary {
            session_id: id,
            updated_at: s.updated_at,
            running,
            blank: s.blank,
            parent_session_id: copy_text(&s.header.parent),
            origin: copy_text(&s.header.origin),
            cwd: Some(s.workspace.path.clone()),
            agent_preset: None,
            projections,
        }
    }

    /// The sessions among what was found, the last changed ones first.
    pub fn list_sessions(&self, found: &Vec<Scanned>) -> (r: Vec<SessionSummary>)
        ensures
            is_listing(self@, found@, r@),
    {
        let mut out: Vec<SessionSummary> = Vec::new();
        let mut i: usize = 0;
        assert(found@.take(0) =~= Seq::empty());
        while i < found.len()
            invariant
                i <= found.len(),
                out@.len() == sessions_in(found@.take(i as int)).len(),
                forall|k: int|
                    0 <= k < out@.len() ==> summarizes(
                        self@,
                        sessions_in(found@.take(i as int))[k],
                        #[trigger] out@[k],
                    ),
            decreases found.len() - i,
        {
            proof {
                assert(found@.take(i + 1).drop_last() =~= found@.take(i as int));
                assert(found@.take(i + 1).last() == found@[i as int]);
            }
            let s = &found[i];
            if s.is_dir && !same(s.stem.as_str(), ".archive") && s.has_log {
                out.push(self.summarize(s));
            }
            i = i + 1;
        }
        assert(found@.take(found@.len() as int) =~= found@);
        let ghost lines = out@;
        let r = sort_sessions(out);
        assert(r@ == latest_first(lines));
        r
    }
}

/// The id of a session that was found.
pub open spec fn found_id(h: HostView, s: Scanned) -> Seq<char> {
    id_prefix(h, s.workspace@) + s.stem@
}

/// Whether workspaces can be told apart by their names and by their directories of
/// sessions: each but the first has a name, without a slash in it.
pub open spec fn told_apart(all: Seq<WsView>) -> bool {
    &&& forall|i: int| 0 < i < all.len() ==> (#[trigger] all[i]).name is Some
    &&& forall|i: int| 0 <= i < all.len() ==> has_no_slash(name_or_empty(#[trigger] all[i]))
    &&& forall|i: int, j: int|
        0 <= i < j < all.len() ==> name_or_empty(#[trigger] all[i]) != name_or_empty(
            #[trigger] all[j],
        ) && key_of(all[i].path) != key_of(all[j].path)
}

pub open spec fn has_no_slash(t: Seq<char>) -> bool {
    forall|i: int| 0 <= i < t.len() ==> t[i] != '/'
}

/// Whether what was found is what directories hold: each entry is in the directory
/// of a workspace, its name has no slash in it, and no directory holds two entries of
/// a name.
pub open spec fn entries_of(all: Seq<WsView>, found: Seq<Scanned>) -> bool {
    &&& forall|i: int|
        0 <= i < found.len() ==> all.contains((#[trigger] found[i]).workspace@) && has_no_slash(
            found[i].stem@,
        )
    &&& forall|i: int, j: int|
        0 <= i < j < found.len() && (#[trigger] found[i]).workspace@ == (
        #[trigger] found[j]).workspace@ ==> found[i].stem@ != found[j].stem@
}

proof fn lemma_sessions_in(all: Seq<WsView>, found: Seq<Scanned>)
    requires
        entries_of(all, found),
    ensures
        entries_of(all, sessions_in(found)),
        forall|k: int|
            0 <= k < sessions_in(found).len() ==> is_session(#[trigger] sessions_in(found)[k])
                && found.contains(sessions_in(found)[k]),
        forall|i: int|
            0 <= i < found.len() && is_session(#[trigger] found[i]) ==> sessions_in(found).contains(
                found[i],
            ),
    decreases found.len(),
{
    if found.len() > 0 {
        let rest = found.drop_last();
        let kept = sessions_in(rest);
        let all_kept = sessions_in(found);
        assert(entries_of(all, rest)) by {
            assert forall|i: int, j: int|
                0 <= i < j < rest.len() && (#[trigger] rest[i]).workspace@ == (
                #[trigger] rest[j]).workspace@ implies rest[i].stem@ != rest[j].stem@ by {
                assert(rest[i] == found[i] && rest[j] == found[j]);
            }
        }
        lemma_sessions_in(all, rest);
        assert forall|k: int| 0 <= k < all_kept.len() implies is_session(#[trigger] all_kept[k])
            && found.contains(all_kept[k]) by {
            if k < kept.len() {
                assert(all_kept[k] == kept[k]);
                let i = choose|i: int| 0 <= i < rest.len() && rest[i] == kept[k];
                assert(found[i] == kept[k]);
            } else {
                assert(found[found.len() - 1] == all_kept[k]);
            }
        }
        assert forall|i: int| 0 <= i < found.len() && is_session(
            #[trigger] found[i],
        ) implies all_kept.contains(found[i]) by {
            if i < rest.len() {
                assert(rest[i] == found[i]);
                let k = choose|k: int| 0 <= k < kept.len() && kept[k] == rest[i];
                assert(all_kept[k] == found[i]);
            } else {
                assert(all_kept[all_kept.len() - 1] == found[i]);
            }
        }
        assert forall|i: int, j: int|
            0 <= i < j < all_kept.len() && (#[trigger] all_kept[i]).workspace@ == (
            #[trigger] all_kept[j]).workspace@ implies all_kept[i].stem@ != all_kept[j].stem@ by {
            assert(all_kept[i] == kept[i]);
            if j < kept.len() {
                assert(all_kept[j] == kept[j]);
            } else {
                let m = choose|m: int| 0 <= m < rest.len() && rest[m] == kept[i];
                assert(found[m] == kept[i]);
                assert(found[found.len() - 1] == all_kept[j]);
            }
        }
    }
}

/// Whether what was found says of a log what its text says: whether no turn has
/// started, and the first message of the user.
pub open spec fn tells_of(s: Scanned, text: Seq<char>) -> bool {
    &&& s.blank == !has_part(text, "\"turn/start\""@)
    &&& text_view(s.log_title) == log_title(text)
}

/// Whether a line is that of an entry whose log holds a text. In the default workspace
/// its id is the name of the entry; elsewhere it is the name of the workspace, a slash
/// and the name of the entry. The id leads to the log of the entry. The line is blank
/// where no turn has started, and its title is the one that is kept for the session,
/// else the first message of the user.
pub open spec fn lists(h: HostView, s: Scanned, text: Seq<char>, line: SessionSummary) -> bool {
    let id = line.session_id@;
    &&& id == if s.workspace@ == h.default_workspace() {
        s.stem@
    } else {
        name_or_empty(s.workspace@) + "/"@ + s.stem@
    }
    &&& h.log_path(id) == seq![key_of(s.workspace@.path), s.stem@, "session.jsonl"@]
    &&& line.updated_at == s.updated_at
    &&& line.blank == !has_part(text, "\"turn/start\""@)
    &&& match h.session_title(id, log_title(text)) {
        Some(t) => line.projections is Some && line.projections->0.values@.at("title"@)
            == JsonTree::Text(t),
        None => line.projections is None,
    }
}

/// Whether a list has exactly one line for an entry.
pub open spec fn is_listed_once(
    h: HostView,
    s: Scanned,
    text: Seq<char>,
    list: Seq<SessionSummary>,
) -> bool {
    exists|j: int|
        0 <= j < list.len() && lists(h, s, text, #[trigger] list[j]) && forall|k: int|
            0 <= k < list.len() && lists(h, s, text, #[trigger] list[k]) ==> k == j
}

/// Whether a line is that of a session that was found.
pub open spec fn was_found(
    h: HostView,
    found: Seq<Scanned>,
    texts: Seq<Seq<char>>,
    line: SessionSummary,
) -> bool {
    exists|i: int|
        0 <= i < found.len() && is_session(#[trigger] found[i]) && lists(h, found[i], texts[i], line)
}

/// The id of a session that was found leads back to it.
proof fn lemma_found_id(h: HostView, s: Scanned)
    requires
        told_apart(h.workspaces),
        h.workspaces.contains(s.workspace@),
        has_no_slash(s.stem@),
    ensures
        h.resolve(found_id(h, s)) == (s.workspace@, s.stem@),
        found_id(h, s) == if s.workspace@ == h.default_workspace() {
            s.stem@
        } else {
            name_or_empty(s.workspace@) + "/"@ + s.stem@
        },
{
    let ws = s.workspace@;
    let i = choose|i: int| 0 <= i < h.workspaces.len() && h.workspaces[i] == ws;
    if i == 0 {
        assert(found_id(h, s) =~= s.stem@);
        crate::host::law_bare_session_is_in_default(h, s.stem@);
    } else {
        assert(name_or_empty(h.workspaces[0]) != name_or_empty(h.workspaces[i]));
        let name = name_or_empty(ws);
        assert(h.workspaces[i].name == Some(name));
        crate::workspaces::lemma_ws_place(h.workspaces, name);
        let k = crate::workspaces::ws_place(h.workspaces, name);
        if k < h.workspaces.len() && k != i {
            assert(name_or_empty(h.workspaces[k]) == name);
            assert(k < i || i < k);
        }
        assert(ws_named(h.workspaces, name) == Some(ws));
        reveal_strlit("/");
        assert("/"@ =~= seq!['/']);
        crate::host::law_prefixed_session_resolves(h, name, s.stem@);
    }
}

/// The list has exactly one line for each session that was found, and no other: an
/// entry that is a directory with a log in it, except that of the archive. The last
/// changed ones come first. No two lines have the same id, and no two ids lead to the
/// same log. What a line says is what `lists` says of its entry and the text of the
/// entry's log.
pub proof fn law_list_is_exact(
    h: HostView,
    found: Seq<Scanned>,
    texts: Seq<Seq<char>>,
    list: Seq<SessionSummary>,
)
    requires
        is_listing(h, found, list),
        told_apart(h.workspaces),
        entries_of(h.workspaces, found),
        texts.len() == found.len(),
        forall|i: int| 0 <= i < found.len() ==> tells_of(#[trigger] found[i], texts[i]),
    ensures
        forall|i: int, j: int|
            0 <= i < j < list.len() ==> (#[trigger] list[i]).updated_at >= (
            #[trigger] list[j]).updated_at,
        forall|i: int, j: int|
            0 <= i < j < list.len() ==> (#[trigger] list[i]).session_id@ != (
            #[trigger] list[j]).session_id@,
        forall|i: int, j: int|
            0 <= i < j < list.len() ==> h.log_path((#[trigger] list[i]).session_id@) != h.log_path(
                (#[trigger] list[j]).session_id@,
            ),
        list.len() == sessions_in(found).len(),
        forall|i: int|
            0 <= i < found.len() && is_session(found[i]) ==> #[trigger] is_listed_once(
                h,
                found[i],
                texts[i],
                list,
            ),
        forall|j: int| 0 <= j < list.len() ==> #[trigger] was_found(h, found, texts, list[j]),
{
    let lines = choose|lines: Seq<SessionSummary>|
        list == #[trigger] latest_first(lines) && lines.len() == sessions_in(found).len() && forall|
            i: int,
        |
            0 <= i < lines.len() ==> summarizes(h, sessions_in(found)[i], #[trigger] lines[i]);
    let all = sessions_in(found);
    lemma_sessions_in(h.workspaces, found);
    crate::lineage::law_list_is_ordered(lines);
    list.to_multiset_ensures();
    lines.to_multiset_ensures();
    assert forall|i: int, j: int| 0 <= i < lines.len() && 0 <= j < lines.len() && i
        != j implies lines[i] != lines[j] by {
        lemma_lines_differ(h, all[i], all[j], lines[i], lines[j]);
    }
    lines.lemma_multiset_has_no_duplicates();
    list.lemma_multiset_has_no_duplicates_conv();
    assert forall|i: int, j: int| 0 <= i < j < list.len() implies (
    #[trigger] list[i]).session_id@ != (#[trigger] list[j]).session_id@ && h.log_path(
        list[i].session_id@,
    ) != h.log_path(list[j].session_id@) by {
        let k = lemma_line_of(list, lines, i);
        let m = lemma_line_of(list, lines, j);
        assert(k != m);
        lemma_lines_differ(h, all[k], all[m], lines[k], lines[m]);
    }
    assert forall|i: int| 0 <= i < found.len() && is_session(
        found[i],
    ) implies #[trigger] is_listed_once(h, found[i], texts[i], list) by {
        let k = choose|k: int| 0 <= k < all.len() && all[k] == found[i];
        let j = lemma_line_of(lines, list, k);
        assert(tells_of(found[i], texts[i]));
        lemma_lists(h, found[i], texts[i], list[j]);
        assert forall|m: int| 0 <= m < list.len() && lists(
            h,
            found[i],
            texts[i],
            #[trigger] list[m],
        ) implies m == j by {
            assert(list[m].session_id@ == list[j].session_id@);
            assert(m < j || j < m || m == j);
        }
    }
    assert forall|j: int| 0 <= j < list.len() implies #[trigger] was_found(
        h,
        found,
        texts,
        list[j],
    ) by {
        let k = lemma_line_of(list, lines, j);
        assert(summarizes(h, all[k], lines[k]));
        let i = choose|i: int| 0 <= i < found.len() && found[i] == all[k];
        assert(is_session(found[i]));
        assert(tells_of(found[i], texts[i]));
        lemma_lists(h, found[i], texts[i], list[j]);
    }
}

proof fn lemma_lines_differ(
    h: HostView,
    a: Scanned,
    b: Scanned,
    x: SessionSummary,
    y: SessionSummary,
)
    requires
        told_apart(h.workspaces),
        h.workspaces.contains(a.workspace@),
        h.workspaces.contains(b.workspace@),
        has_no_slash(a.stem@),
        has_no_slash(b.stem@),
        a.workspace@ == b.workspace@ ==> a.stem@ != b.stem@,
        summarizes(h, a, x),
        summarizes(h, b, y),
    ensures
        x.session_id@ != y.session_id@,
        h.log_path(x.session_id@) != h.log_path(y.session_id@),
{
    lemma_found_id(h, a);
    lemma_found_id(h, b);
    assert(h.log_path(x.session_id@)[0] == key_of(a.workspace@.path));
    assert(h.log_path(x.session_id@)[1] == a.stem@);
    assert(h.log_path(y.session_id@)[0] == key_of(b.workspace@.path));
    assert(h.log_path(y.session_id@)[1] == b.stem@);
    if key_of(a.workspace@.path) == key_of(b.workspace@.path) {
        lemma_same_key(h.workspaces, a.workspace@, b.workspace@);
    }
}

proof fn lemma_lists(h: HostView, s: Scanned, text: Seq<char>, line: SessionSummary)
    requires
        told_apart(h.workspaces),
        h.workspaces.contains(s.workspace@),
        has_no_slash(s.stem@),
        tells_of(s, text),
        summarizes(h, s, line),
    ensures
        lists(h, s, text, line),
{
    lemma_found_id(h, s);
    match shown_title(h, line.session_id@, s) {
        Some(t) => {
            lemma_with(JsonTree::object(), "title"@, JsonTree::Text(t));
            assert(line.projections->0.values@.get("title"@) == Some(JsonTree::Text(t)));
        },
        None => {},
    }
}

proof fn lemma_line_of(list: Seq<SessionSummary>, lines: Seq<SessionSummary>, j: int) -> (k: int)
    requires
        0 <= j < list.len(),
        list.to_multiset() == lines.to_multiset(),
    ensures
        0 <= k < lines.len(),
        lines[k] == list[j],
{
    lines.to_multiset_ensures();
    list.to_multiset_ensures();
    assert(list.contains(list[j]));
    assert(lines.to_multiset().count(list[j]) > 0);
    assert(lines.contains(list[j]));
    choose|k: int| 0 <= k < lines.len() && lines[k] == list[j]
}

proof fn lemma_same_key(all: Seq<WsView>, a: WsView, b: WsView)
    requires
        told_apart(all),
        all.contains(a),
        all.contains(b),
        key_of(a.path) == key_of(b.path),
    ensures
        a == b,
{
    let i = choose|i: int| 0 <= i < all.len() && all[i] == a;
    let j = choose|j: int| 0 <= j < all.len() && all[j] == b;
    assert(all[i] == a && all[j] == b);
    assert(i < j || j < i || i == j);
}

// Making sessions.

/// What the id of a new session in a workspace begins with: nothing where no
/// workspace is named, or one that is not known.
pub open spec fn new_prefix(h: HostView, workspace: Option<Seq<char>>) -> Seq<char> {
    match workspace {
        Some(w) => if ws_named(h.workspaces, w) is Some {
            w + "/"@
        } else {
            Seq::empty()
        },
        None => Seq::empty(),
    }
}

/// What the id of a session begins with that comes from another: it stays in
/// its workspace.
pub open spec fn kin_prefix(h: HostView, parent: Seq<char>) -> Seq<char> {
    match parted(parent, '/') {
        Some((ws, stem)) => if ws_named(h.workspaces, ws) is Some {
            ws + "/"@
        } else {
            Seq::empty()
        },
        None => Seq::empty(),
    }
}

/// The state with one more attached session; one that is attached stays as it
/// is.
pub open spec fn registered(h: HostView, id: Seq<char>) -> HostView {
    if h.sessions.dom().contains(id) {
        h
    } else {
        HostView { sessions: h.sessions.insert(id, false), ..h }
    }
}

/// The id of a new session: the name that is asked for, else a fresh one, in its
/// workspace.
pub open spec fn new_id(
    h: HostView,
    workspace: Option<Seq<char>>,
    session_id: Option<Seq<char>>,
    fresh: Seq<char>,
) -> Seq<char> {
    new_prefix(h, workspace) + (match session_id {
        Some(s) => s,
        None => "s-"@ + fresh,
    })
}

/// The state with a new session. A preset counts where it is among those that
/// are there.
pub open spec fn created(
    h: HostView,
    id: Seq<char>,
    preset: Option<Seq<char>>,
    presets: Seq<Seq<char>>,
) -> HostView {
    registered(
        match preset {
            Some(p) => if presets.contains(p) {
                HostView { preset_overrides: h.preset_overrides.insert(id, p), ..h }
            } else {
                h
            },
            None => h,
        },
        id,
    )
}

/// Whether a notice is that of a new session.
pub open spec fn announces(
    h: HostView,
    added: HostSessionAdded,
    id: Seq<char>,
    parent: Option<Seq<char>>,
    origin: Option<Seq<char>>,
    preset: Option<Seq<char>>,
    blank: bool,
) -> bool {
    &&& added.session_id@ == id
    &&& added.blank == blank
    &&& text_view(added.parent_session_id) == parent
    &&& text_view(added.origin) == origin
    &&& text_view(added.cwd) == Some(h.workspace_of_session(id).path)
    &&& text_view(added.agent_preset) == preset
}

impl AppHost {
    fn new_session_prefix(&self, workspace: &Option<String>) -> (r: String)
        ensures
            r@ == new_prefix(self@, text_view(*workspace)),
    {
        match workspace {
            Some(w) => {
                if self.workspace_of(w.as_str()).is_some() {
                    joined(w.as_str(), "/")
                } else {
                    String::new()
                }
            },
            None => String::new(),
        }
    }

    fn kin_session_prefix(&self, parent: &str) -> (r: String)
        ensures
            r@ == kin_prefix(self@, parent@),
    {
        match split_once(parent, '/') {
            Some((ws, stem)) => {
                if self.workspace_of(ws.as_str()).is_some() {
                    joined(ws.as_str(), "/")
                } else {
                    String::new()
                }
            },
            None => String::new(),
        }
    }

    /// Attaches a session, unless it is attached.
    pub fn register_slot(&mut self, id: &str)
        requires
            old(self).wf(),
        ensures
            final(self).wf(),
            final(self)@ == registered(old(self)@, id@),
    {
        if !self.sessions.contains(id) {
            self.sessions.insert(id.to_owned(), false);
        }
    }

    fn added(
        &self,
        id: &str,
        blank: bool,
        parent: Option<String>,
        origin: Option<String>,
        preset: Option<String>,
    ) -> (r: HostSessionAdded)
        ensures
            announces(
                self@,
                r,
                id@,
                text_view(parent),
                text_view(origin),
                text_view(preset),
                blank,
            ),
    {
        let (ws, stem) = self.resolve_session(id);
        HostSessionAdded {
            session_id: id.to_owned(),
            blank,
            parent_session_id: parent,
            origin,
            cwd: Some(ws.path),
            agent_preset: preset,
        }
    }

    /// Makes a session under a name, which is fresh where none is asked for. A
    /// preset counts where it is among those that are there.
    pub fn create_session_as(
        &mut self,
        session_id: Option<String>,
        preset: Option<String>,
        workspace: Option<String>,
        presets: &Vec<String>,
        fresh: &str,
    ) -> (r: (String, HostSessionAdded))
        requires
            old(self).wf(),
        ensures
            final(self).wf(),
            r.0@ == new_id(old(self)@, text_view(workspace), text_view(session_id), fresh@),
            final(self)@ == created(old(self)@, r.0@, text_view(preset), text_seq(presets@)),
            announces(old(self)@, r.1, r.0@, None, None, text_view(preset), true),
    {
        let prefix = self.new_session_prefix(&workspace);
        let id: String = match &session_id {
            Some(s) => joined(prefix.as_str(), s.as_str()),
            None => {
                let name = joined("s-", fresh);
                joined(prefix.as_str(), name.as_str())
            },
        };
        let added = self.added(id.as_str(), true, None, None, copy_text(&preset));
        if let Some(p) = &preset {
            if contains_text(presets, p.as_str()) {
                let ghost before = self.preset_overrides@;
                self.preset_overrides.insert(id.clone(), p.clone());
                assert(text_map(self.preset_overrides@) =~= text_map(before).insert(id@, p@));
            }
        }
        self.register_slot(id.as_str());
        (id, added)
    }

    /// Makes a session, under a fresh name where none is asked for.
    pub fn create_session(
        &mut self,
        session_id: Option<String>,
        preset: Option<String>,
        workspace: Option<String>,
        presets: &Vec<String>,
    ) -> (r: (String, HostSessionAdded))
        requires
            old(self).wf(),
        ensures
            final(self).wf(),
            exists|fresh: Seq<char>|
                is_simple_uuid(fresh) && r.0@ == #[trigger] new_id(
                    old(self)@,
                    text_view(workspace),
                    text_view(session_id),
                    fresh,
                ),
            final(self)@ == created(old(self)@, r.0@, text_view(preset), text_seq(presets@)),
            announces(old(self)@, r.1, r.0@, None, None, text_view(preset), true),
    {
        let fresh = random_simple_id();
        let ghost f = fresh@;
        let r = self.create_session_as(session_id, preset, workspace, presets, fresh.as_str());
        assert(is_simple_uuid(f) && r.0@ == new_id(
            old(self)@,
            text_view(workspace),
            text_view(session_id),
            f,
        ));
        r
    }

    /// Makes a session that another has work done in.
    pub fn create_subagent_session_as(&mut self, parent: &str, fresh: &str) -> (r: (
        String,
        HostSessionAdded,
    ))
        requires
            old(self).wf(),
        ensures
            final(self).wf(),
            r.0@ == kin_prefix(old(self)@, parent@) + ("s-a"@ + fresh@),
            final(self)@ == registered(old(self)@, r.0@),
            announces(old(self)@, r.1, r.0@, Some(parent@), Some("subagent"@), None, true),
    {
        let prefix = self.kin_session_prefix(parent);
        let name = joined("s-a", fresh);
        let id = joined(prefix.as_str(), name.as_str());
        let added = self.added(
            id.as_str(),
            true,
            Some(parent.to_owned()),
            Some("subagent".to_owned()),
            None,
        );
        self.register_slot(id.as_str());
        (id, added)
    }

    /// Makes a session that another has work done in, under a fresh name.
    pub fn create_subagent_session(&mut self, parent: &str) -> (r: (String, HostSessionAdded))
        requires
            old(self).wf(),
        ensures
            final(self).wf(),
            exists|fresh: Seq<char>|
                is_simple_uuid(fresh) && r.0@ == #[trigger] (kin_prefix(old(self)@, parent@) + (
                "s-a"@ + fresh)),
            final(self)@ == registered(old(self)@, r.0@),
            announces(old(self)@, r.1, r.0@, Some(parent@), Some("subagent"@), None, true),
    {
        let fresh = random_simple_id();
        let ghost f = fresh@;
        let r = self.create_subagent_session_as(parent, fresh.as_str());
        assert(is_simple_uuid(f) && r.0@ == kin_prefix(old(self)@, parent@) + ("s-a"@ + f));
        r
    }

    /// The session that another is forked into, under a given name: it carries on
    /// with the model, the preset and the effort of the other.
    pub fn fork_session_as(&mut self, parent: &str, cfg: &WorkspaceConfig, fresh: &str) -> (r: (
        String,
        HostSessionAdded,
    ))
        requires
            old(self).wf(),
        ensures
            final(self).wf(),
            r.0@ == kin_prefix(old(self)@, parent@) + ("s-"@ + fresh@),
            final(self)@ == forked(old(self)@, parent@, *cfg, r.0@),
            announces(old(self)@, r.1, r.0@, Some(parent@), Some("fork"@), None, false),
    {
        let ghost h = self@;
        let model = self.session_model(parent, cfg);
        let preset = self.session_preset(parent, cfg);
        let effort = match self.session_effort(parent, cfg) {
            Some(e) => e,
            None => String::new(),
        };
        let prefix = self.kin_session_prefix(parent);
        let name = joined("s-", fresh);
        let id = joined(prefix.as_str(), name.as_str());
        let added = self.added(
            id.as_str(),
            false,
            Some(parent.to_owned()),
            Some("fork".to_owned()),
            None,
        );
        let ghost m = self.model_overrides@;
        let ghost p = self.preset_overrides@;
        let ghost e = self.effort_overrides@;
        self.model_overrides.insert(id.clone(), model);
        self.preset_overrides.insert(id.clone(), preset);
        self.effort_overrides.insert(id.clone(), effort);
        proof {
            assert(text_map(self.model_overrides@) =~= text_map(m).insert(id@, model@));
            assert(text_map(self.preset_overrides@) =~= text_map(p).insert(id@, preset@));
            assert(text_map(self.effort_overrides@) =~= text_map(e).insert(id@, effort@));
            assert(self@ == forked(h, parent@, *cfg, id@));
        }
        (id, added)
    }

    /// The session that another is forked into, under a fresh name: it carries on with
    /// the model, the preset and the effort of the other.
    pub fn fork_session(&mut self, parent: &str, cfg: &WorkspaceConfig) -> (r: (
        String,
        HostSessionAdded,
    ))
        requires
            old(self).wf(),
        ensures
            final(self).wf(),
            exists|fresh: Seq<char>|
                is_simple_uuid(fresh) && r.0@ == #[trigger] (kin_prefix(old(self)@, parent@) + (
                "s-"@ + fresh)),
            final(self)@ == forked(old(self)@, parent@, *cfg, r.0@),
            announces(old(self)@, r.1, r.0@, Some(parent@), Some("fork"@), None, false),
    {
        let fresh = random_simple_id();
        let ghost f = fresh@;
        let r = self.fork_session_as(parent, cfg, fresh.as_str());
        assert(is_simple_uuid(f) && r.0@ == kin_prefix(old(self)@, parent@) + ("s-"@ + f));
        r
    }
}

/// The state after a session was forked into another: what was in use for the one is
/// set for the other.
pub open spec fn forked(h: HostView, parent: Seq<char>, cfg: WorkspaceConfig, id: Seq<char>) -> HostView {
    HostView {
        model_overrides: h.model_overrides.insert(id, h.session_model(parent, cfg)),
        preset_overrides: h.preset_overrides.insert(id, h.session_preset(parent, cfg)),
        effort_overrides: h.effort_overrides.insert(id, h.session_effort(parent, cfg)),
        ..h
    }
}

/// A fork runs on what its parent ran on when it was forked, whatever its workspace
/// says; no other session is touched.
pub proof fn law_fork_carries_on(
    h: HostView,
    parent: Seq<char>,
    cfg: WorkspaceConfig,
    id: Seq<char>,
    other: Seq<char>,
    now: WorkspaceConfig,
)
    ensures
        forked(h, parent, cfg, id).session_model(id, now) == h.session_model(parent, cfg),
        forked(h, parent, cfg, id).session_preset(id, now) == h.session_preset(parent, cfg),
        forked(h, parent, cfg, id).session_effort(id, now) == h.session_effort(parent, cfg),
        other != id ==> forked(h, parent, cfg, id).session_model(other, now) == h.session_model(
            other,
            now,
        ) && forked(h, parent, cfg, id).session_preset(other, now) == h.session_preset(other, now)
            && forked(h, parent, cfg, id).session_effort(other, now) == h.session_effort(other, now),
{
}

/// The events that a session begins with that another has work done in: it has
/// the access of the other, and asks for nothing.
pub open spec fn delegation_views(sandbox: Seq<char>, time: i64) -> Seq<EventView> {
    seq![
        numbered(
            fresh_event(
                "sandbox/mode"@,
                time,
                JsonTree::object().with("mode"@, JsonTree::Text(sandbox)).with(
                    "source"@,
                    JsonTree::Text("delegation"@),
                ),
            ),
            1,
        ),
        numbered(
            fresh_event(
                "approval/policy"@,
                time,
                JsonTree::object().with("policy"@, JsonTree::Text("never"@)).with(
                    "source"@,
                    JsonTree::Text("delegation"@),
                ),
            ),
            2,
        ),
    ]
}

/// The events that a session begins with that another has work done in.
pub fn delegation_events(sandbox: &str, time: i64) -> (r: Vec<Event>)
    ensures
        event_views(r@) == delegation_views(sandbox@, time),
{
    let mut first = Event::new(
        "sandbox/mode",
        time,
        Json::object().with("mode", Json::text(sandbox)).with("source", Json::text("delegation")),
    );
    first.seq = 1;
    let mut second = Event::new(
        "approval/policy",
        time,
        Json::object().with("policy", Json::text("never")).with("source", Json::text("delegation")),
    );
    second.seq = 2;
    let mut out: Vec<Event> = Vec::new();
    out.push(first);
    out.push(second);
    assert(event_views(out@) =~= delegation_views(sandbox@, time));
    out
}

/// A session that comes from another is in the same workspace: its id resolves
/// to the workspace that the other's id resolves to.
pub proof fn law_kin_shares_workspace(h: HostView, parent: Seq<char>, stem: Seq<char>)
    requires
        forall|i: int| 0 <= i < stem.len() ==> stem[i] != '/',
    ensures
        h.workspace_of_session(kin_prefix(h, parent) + stem) == h.workspace_of_session(parent),
{
    reveal_strlit("/");
    match parted(parent, '/') {
        Some((ws, rest)) => {
            crate::text::lemma_char_place(parent, '/');
            assert forall|i: int| 0 <= i < ws.len() implies ws[i] != '/' by {
                assert(ws[i] == parent[i]);
            }
            if ws_named(h.workspaces, ws) is Some {
                assert(kin_prefix(h, parent) + stem =~= ws + seq!['/'] + stem) by {
                    assert("/"@ =~= seq!['/']);
                }
                crate::host::law_prefixed_session_resolves(h, ws, stem);
            } else {
                assert(kin_prefix(h, parent) + stem =~= stem);
                crate::host::law_bare_session_is_in_default(h, stem);
            }
        },
        None => {
            assert(kin_prefix(h, parent) + stem =~= stem);
            crate::host::law_bare_session_is_in_default(h, stem);
        },
    }
}

// Descent.

/// Whether one session comes from another.
pub open spec fn comes_from(
    parents: Map<Seq<char>, Seq<char>>,
    child: Seq<char>,
    parent: Seq<char>,
) -> bool {
    parents.dom().contains(child) && parents[child] == parent
}

/// The session that a log says it was forked from.
pub open spec fn fork_parent_view(log: Seq<EventView>) -> Option<Seq<char>>
    decreases log.len(),
{
    if log.len() == 0 {
        None
    } else if log.last().kind == "session/forked"@ {
        log.last().data.at("parent"@).as_text()
    } else {
        fork_parent_view(log.drop_last())
    }
}

/// The session that a log says it was forked from.
pub fn fork_parent(log: &EventLog) -> (r: Option<String>)
    ensures
        text_view(r) == fork_parent_view(log@),
{
    let mut i: usize = log.events.len();
    assert(log@.take(i as int) =~= log@);
    while i > 0
        invariant
            i <= log.events.len(),
            fork_parent_view(log@) == fork_parent_view(log@.take(i as int)),
        decreases i,
    {
        let ev = &log.events[i - 1];
        assert(log@.take(i as int).last() == ev@);
        assert(log@.take(i as int).drop_last() =~= log@.take(i - 1));
        if same(ev.kind.as_str(), "session/forked") {
            return match ev.data.str_at("parent") {
                Some(s) => Some(s.to_owned()),
                None => None,
            };
        }
        i = i - 1;
    }
    None
}

/// The session before the `i`th of a chain that begins with a session.
pub open spec fn link(id: Seq<char>, chain: Seq<Seq<char>>, i: int) -> Seq<char> {
    if i == 0 {
        id
    } else {
        chain[i - 1]
    }
}

/// Whether a chain is that of the sessions that a session comes from: each comes
/// from the next, none comes twice, and it goes on as long as it can.
pub open spec fn is_ancestry(
    parents: Map<Seq<char>, Seq<char>>,
    id: Seq<char>,
    chain: Seq<Seq<char>>,
) -> bool {
    &&& forall|i: int| 0 <= i < chain.len() ==> comes_from(parents, link(id, chain, i), #[trigger] chain[i])
    &&& forall|i: int, j: int| 0 <= i < j < chain.len() ==> chain[i] != chain[j]
    &&& !chain.contains(id)
    &&& ({
        let last = link(id, chain, chain.len() as int);
        parents.dom().contains(last) ==> parents[last] == id || chain.contains(parents[last])
    })
}

proof fn lemma_id_set_finite(v: Seq<String>)
    ensures
        id_set(v).finite(),
        id_set(v).len() <= v.len(),
    decreases v.len(),
{
    if v.len() == 0 {
        assert(id_set(v) =~= Set::empty());
    } else {
        let rest = v.drop_last();
        lemma_id_set_finite(rest);
        assert(v =~= rest.push(v.last()));
        crate::edits::lemma_id_set_push(rest, v.last());
        assert(id_set(v) =~= id_set(rest).insert(v.last()@));
    }
}

/// The sessions that a session comes from, the nearest first.
pub fn ancestors(parents: &StrMap<String>, id: &str) -> (r: Vec<String>)
    ensures
        is_ancestry(text_map(parents@), id@, text_seq(r@)),
{
    let keys = parents.keys();
    let ghost dom = parents@.dom();
    let ghost mut visited: Set<Seq<char>> = Set::empty();
    proof {
        lemma_id_set_finite(keys@);
    }
    let mut out: Vec<String> = Vec::new();
    let mut cur: String = id.to_owned();
    let ghost map = text_map(parents@);
    assert(text_seq(out@) =~= Seq::empty());
    loop
        invariant
            map == text_map(parents@),
            dom == parents@.dom(),
            dom.finite(),
            visited.finite(),
            visited.subset_of(dom),
            visited.len() == out@.len(),
            cur@ == link(id@, text_seq(out@), out@.len() as int),
            forall|i: int|
                0 <= i < out@.len() ==> comes_from(
                    map,
                    link(id@, text_seq(out@), i),
                    #[trigger] text_seq(out@)[i],
                ),
            forall|i: int, j: int|
                0 <= i < j < out@.len() ==> text_seq(out@)[i] != text_seq(out@)[j],
            !text_seq(out@).contains(id@),
            forall|k: Seq<char>| #[trigger]
                visited.contains(k) ==> k == id@ || text_seq(out@).contains(k),
            !visited.contains(cur@),
        decreases dom.len() - visited.len(),
    {
        let ghost chain = text_seq(out@);
        let parent: String = match parents.get(cur.as_str()) {
            Some(p) => p.clone(),
            None => {
                return out;
            },
        };
        assert(map.dom().contains(cur@) && map[cur@] == parent@);
        if same(parent.as_str(), id) || contains_text(&out, parent.as_str()) {
            return out;
        }
        proof {
            let more = chain.push(parent@);
            vstd::set_lib::lemma_len_subset(visited.insert(cur@), dom);
            visited = visited.insert(cur@);
            assert(text_seq(out@.push(parent)) =~= more);
            assert forall|i: int| 0 <= i < more.len() implies comes_from(
                map,
                link(id@, more, i),
                #[trigger] more[i],
            ) by {
                if i < chain.len() {
                    assert(more[i] == chain[i]);
                    assert(link(id@, more, i) == link(id@, chain, i));
                }
            }
            assert forall|i: int, j: int| 0 <= i < j < more.len() implies more[i] != more[j] by {
                if j == chain.len() {
                    assert(chain.contains(chain[i]));
                }
            }
            assert forall|k: Seq<char>| #[trigger] visited.contains(k) implies k == id@
                || more.contains(k) by {
                if k == cur@ {
                    if chain.len() > 0 {
                        assert(more[chain.len() - 1] == k);
                    }
                } else if k != id@ {
                    let j = choose|j: int| 0 <= j < chain.len() && chain[j] == k;
                    assert(more[j] == k);
                }
            }
            assert(!more.contains(id@)) by {
                if more.contains(id@) {
                    let j = choose|j: int| 0 <= j < more.len() && more[j] == id@;
                    if j < chain.len() {
                        assert(chain[j] == id@);
                        assert(chain.contains(id@));
                    }
                }
            }
            assert(!visited.contains(parent@)) by {
                if visited.contains(parent@) {
                    if parent@ == cur@ {
                        if chain.len() > 0 {
                            assert(chain[chain.len() - 1] == parent@);
                            assert(chain.contains(parent@));
                        }
                    }
                }
            }
        }
        cur = parent.clone();
        out.push(parent);
    }
}

/// The sessions, of some, that come from a session directly.
pub open spec fn children_of(
    parents: Map<Seq<char>, Seq<char>>,
    ids: Seq<Seq<char>>,
    id: Seq<char>,
) -> Seq<Seq<char>>
    decreases ids.len(),
{
    if ids.len() == 0 {
        Seq::empty()
    } else {
        let head = children_of(parents, ids.drop_last(), id);
        if ids.last() != id && comes_from(parents, ids.last(), id) {
            head.push(ids.last())
        } else {
            head
        }
    }
}

/// The sessions, of some, that come from a session directly.
pub fn children(parents: &StrMap<String>, ids: &Vec<String>, id: &str) -> (r: Vec<String>)
    ensures
        text_seq(r@) == children_of(text_map(parents@), text_seq(ids@), id@),
{
    let ghost all = text_seq(ids@);
    let ghost map = text_map(parents@);
    let mut out: Vec<String> = Vec::new();
    let mut i: usize = 0;
    proof {
        assert(all.take(0) =~= Seq::empty());
        assert(text_seq(out@) =~= Seq::empty());
    }
    while i < ids.len()
        invariant
            i <= ids.len(),
            all == text_seq(ids@),
            map == text_map(parents@),
            text_seq(out@) == children_of(map, all.take(i as int), id@),
        decreases ids.len() - i,
    {
        proof {
            assert(all.take(i + 1).drop_last() =~= all.take(i as int));
            assert(all.take(i + 1).last() == ids@[i as int]@);
        }
        if !same(ids[i].as_str(), id) && is_child(parents, ids[i].as_str(), id) {
            let c = ids[i].clone();
            assert(text_seq(out@.push(c)) =~= text_seq(out@).push(c@));
            out.push(c);
        }
        i = i + 1;
    }
    assert(all.take(all.len() as int) =~= all);
    out
}

fn is_child(parents: &StrMap<String>, child: &str, parent: &str) -> (r: bool)
    ensures
        r == comes_from(text_map(parents@), child@, parent@),
{
    match parents.get(child) {
        Some(p) => {
            assert(text_map(parents@)[child@] == p@);
            same(p.as_str(), parent)
        },
        None => false,
    }
}

/// The line of descent of a session: the sessions that it comes from, and those
/// that come from it directly.
pub fn session_trace(parents: &StrMap<String>, ids: &Vec<String>, id: &str) -> (r: Json)
    ensures
        exists|chain: Seq<String>|
            is_ancestry(text_map(parents@), id@, text_seq(chain)) && r@
                == JsonTree::object().with("session"@, JsonTree::Text(id@)).with(
                "ancestors"@,
                JsonTree::Array(#[trigger] crate::json::text_trees(chain)),
            ).with(
                "children"@,
                JsonTree::Array(
                    children_of(text_map(parents@), text_seq(ids@), id@).map_values(
                        |s: Seq<char>| JsonTree::Text(s),
                    ),
                ),
            ),
{
    let chain = ancestors(parents, id);
    let kids = children(parents, ids, id);
    proof {
        let wanted = children_of(text_map(parents@), text_seq(ids@), id@).map_values(
            |s: Seq<char>| JsonTree::Text(s),
        );
        assert(crate::json::text_trees(kids@) =~= wanted) by {
            assert forall|i: int| 0 <= i < kids@.len() implies text_seq(kids@)[i] == kids@[i]@ by {}
        }
    }
    Json::object().with("session", Json::text(id)).with(
        "ancestors",
        crate::json::texts_json(&chain),
    ).with("children", crate::json::texts_json(&kids))
}

/// How many of some texts are not among others.
pub open spec fn missing_count(ids: Seq<Seq<char>>, out: Seq<Seq<char>>) -> nat
    decreases ids.len(),
{
    if ids.len() == 0 {
        0
    } else {
        missing_count(ids.drop_last(), out) + if out.contains(ids.last()) {
            0nat
        } else {
            1nat
        }
    }
}

proof fn lemma_missing_count(ids: Seq<Seq<char>>, out: Seq<Seq<char>>, x: Seq<char>)
    ensures
        missing_count(ids, out.push(x)) <= missing_count(ids, out),
        ids.contains(x) && !out.contains(x) ==> missing_count(ids, out.push(x)) < missing_count(
            ids,
            out,
        ),
    decreases ids.len(),
{
    if ids.len() > 0 {
        let rest = ids.drop_last();
        lemma_missing_count(rest, out, x);
        let more = out.push(x);
        assert(out.contains(ids.last()) ==> more.contains(ids.last())) by {
            if out.contains(ids.last()) {
                let j = choose|j: int| 0 <= j < out.len() && out[j] == ids.last();
                assert(more[j] == ids.last());
            }
        }
        if ids.contains(x) && !out.contains(x) {
            if ids.last() == x {
                assert(more[out.len() as int] == x);
            } else {
                let j = choose|j: int| 0 <= j < ids.len() && ids[j] == x;
                assert(rest[j] == x);
            }
        }
    }
}

/// Whether a list goes on from another by the descent of a session, as far as
/// given: each that it adds comes from the session or from one that it added
/// before, none comes twice, and whatever comes from one that it added, or is
/// among the first `n` of all and comes from the session, is on it.
pub open spec fn descends(
    parents: Map<Seq<char>, Seq<char>>,
    ids: Seq<Seq<char>>,
    id: Seq<char>,
    before: Seq<Seq<char>>,
    after: Seq<Seq<char>>,
    n: int,
) -> bool {
    &&& before.len() <= after.len()
    &&& after.take(before.len() as int) == before
    &&& forall|j: int|
        before.len() <= j < after.len() ==> ids.contains(#[trigger] after[j]) && (comes_from(
            parents,
            after[j],
            id,
        ) || exists|m: int|
            before.len() <= m < j && comes_from(parents, after[j], #[trigger] after[m]))
    &&& forall|i: int, j: int|
        0 <= i < j && before.len() <= j < after.len() ==> after[i] != after[j]
    &&& forall|k: int|
        0 <= k < n && comes_from(parents, #[trigger] ids[k], id) ==> after.contains(ids[k])
    &&& forall|j: int, k: int|
        before.len() <= j < after.len() && 0 <= k < ids.len() && comes_from(
            parents,
            #[trigger] ids[k],
            #[trigger] after[j],
        ) ==> after.contains(ids[k])
}

proof fn lemma_descends_step(
    parents: Map<Seq<char>, Seq<char>>,
    ids: Seq<Seq<char>>,
    id: Seq<char>,
    before: Seq<Seq<char>>,
    mid: Seq<Seq<char>>,
    after: Seq<Seq<char>>,
    n: int,
)
    requires
        0 <= n < ids.len(),
        descends(parents, ids, id, before, mid, n),
        comes_from(parents, ids[n], id),
        !mid.contains(ids[n]),
        descends(parents, ids, ids[n], mid.push(ids[n]), after, ids.len() as int),
    ensures
        descends(parents, ids, id, before, after, n + 1),
{
    let c = ids[n];
    let pushed = mid.push(c);
    assert(after.take(pushed.len() as int) == pushed);
    assert forall|j: int| 0 <= j < pushed.len() implies after[j] == pushed[j] by {
        assert(after.take(pushed.len() as int)[j] == after[j]);
    }
    assert(after.take(before.len() as int) =~= before) by {
        assert forall|j: int| 0 <= j < before.len() implies after[j] == before[j] by {
            assert(mid.take(before.len() as int)[j] == mid[j]);
            assert(pushed[j] == mid[j]);
        }
    }
    let at = mid.len() as int;
    assert(after[at] == c);
    assert forall|j: int| before.len() <= j < after.len() implies ids.contains(#[trigger] after[j])
        && (comes_from(parents, after[j], id) || exists|m: int|
        before.len() <= m < j && comes_from(parents, after[j], #[trigger] after[m])) by {
        if j < at {
            assert(after[j] == mid[j]);
            if !comes_from(parents, mid[j], id) {
                let m = choose|m: int|
                    before.len() <= m < j && comes_from(parents, mid[j], #[trigger] mid[m]);
                assert(after[m] == mid[m]);
            }
        } else if j == at {
            assert(ids[n] == after[j]);
        } else {
            if comes_from(parents, after[j], c) {
                assert(comes_from(parents, after[j], after[at]));
            } else {
                let m = choose|m: int|
                    pushed.len() <= m < j && comes_from(parents, after[j], #[trigger] after[m]);
                assert(comes_from(parents, after[j], after[m]));
            }
        }
    }
    assert forall|i: int, j: int| 0 <= i < j && before.len() <= j < after.len() implies after[i]
        != after[j] by {
        if j < at {
            assert(after[i] == mid[i] && after[j] == mid[j]);
        } else if j == at {
            assert(after[i] == mid[i]);
            assert(mid.contains(mid[i]));
        }
    }
    assert forall|x: Seq<char>| mid.contains(x) implies after.contains(x) by {
        let j = choose|j: int| 0 <= j < mid.len() && mid[j] == x;
        assert(after[j] == x);
    }
    assert(after.contains(c));
    assert forall|k: int| 0 <= k < n + 1 && comes_from(parents, #[trigger] ids[k], id) implies after.contains(
        ids[k],
    ) by {
        if k < n {
            assert(mid.contains(ids[k]));
        }
    }
    assert forall|j: int, k: int|
        before.len() <= j < after.len() && 0 <= k < ids.len() && comes_from(
            parents,
            #[trigger] ids[k],
            #[trigger] after[j],
        ) implies after.contains(ids[k]) by {
        if j < at {
            assert(after[j] == mid[j]);
            assert(mid.contains(ids[k]));
        } else if j == at {
            assert(comes_from(parents, ids[k], c));
        }
    }
}

/// Adds to a list the sessions, of some, that come from a session, directly or
/// through others.
fn add_descendants(parents: &StrMap<String>, ids: &Vec<String>, id: &str, out: &mut Vec<String>)
    ensures
        descends(
            text_map(parents@),
            text_seq(ids@),
            id@,
            text_seq(old(out)@),
            text_seq(final(out)@),
            ids@.len() as int,
        ),
        missing_count(text_seq(ids@), text_seq(final(out)@)) <= missing_count(
            text_seq(ids@),
            text_seq(old(out)@),
        ),
    decreases missing_count(text_seq(ids@), text_seq(old(out)@)),
{
    let ghost map = text_map(parents@);
    let ghost all = text_seq(ids@);
    let ghost start = text_seq(out@);
    let mut k: usize = 0;
    assert(start.take(start.len() as int) =~= start);
    while k < ids.len()
        invariant
            k <= ids.len(),
            map == text_map(parents@),
            all == text_seq(ids@),
            start == text_seq(old(out)@),
            descends(map, all, id@, start, text_seq(out@), k as int),
            missing_count(all, text_seq(out@)) <= missing_count(all, start),
        decreases ids.len() - k,
    {
        assert(all[k as int] == ids@[k as int]@);
        if is_child(parents, ids[k].as_str(), id) && !contains_text(out, ids[k].as_str()) {
            let ghost mid = text_seq(out@);
            let name = ids[k].clone();
            proof {
                lemma_missing_count(all, mid, name@);
                assert(all.contains(all[k as int]));
                assert(text_seq(out@.push(name)) =~= mid.push(name@));
            }
            out.push(name);
            add_descendants(parents, ids, ids[k].as_str(), out);
            proof {
                lemma_descends_step(map, all, id@, start, mid, text_seq(out@), k as int);
            }
        }
        k = k + 1;
    }
}

/// The sessions, of some, that come from a session, directly or through others;
/// each behind the one that it comes from.
pub fn descendants_of(parents: &StrMap<String>, ids: &Vec<String>, id: &str) -> (r: Vec<String>)
    ensures
        descends(
            text_map(parents@),
            text_seq(ids@),
            id@,
            Seq::empty(),
            text_seq(r@),
            ids@.len() as int,
        ),
{
    let mut out: Vec<String> = Vec::new();
    assert(text_seq(out@) =~= Seq::empty());
    add_descendants(parents, ids, id, &mut out);
    out
}

// Deleting sessions.

/// Whether a session is one that another has work done in.
pub open spec fn is_subagent(s: SessionSummary) -> bool {
    text_view(s.origin) == Some("subagent"@)
}

/// Where the sessions come from that others have work done in.
pub open spec fn subagent_map(list: Seq<SessionSummary>) -> Map<Seq<char>, Seq<char>>
    decreases list.len(),
{
    if list.len() == 0 {
        Map::empty()
    } else {
        let head = subagent_map(list.drop_last());
        let s = list.last();
        match text_view(s.parent_session_id) {
            Some(p) if is_subagent(s) => head.insert(s.session_id@, p),
            _ => head,
        }
    }
}

/// The ids of sessions.
pub open spec fn ids_in(list: Seq<SessionSummary>) -> Seq<Seq<char>> {
    list.map_values(|s: SessionSummary| s.session_id@)
}

fn says_subagent(s: &SessionSummary) -> (r: bool)
    ensures
        r == is_subagent(*s),
{
    match &s.origin {
        Some(o) => same(o.as_str(), "subagent"),
        None => false,
    }
}

fn map_subagents(list: &Vec<SessionSummary>) -> (r: StrMap<String>)
    ensures
        r.wf(),
        text_map(r@) == subagent_map(list@),
{
    let mut out: StrMap<String> = StrMap::new();
    let mut i: usize = 0;
    proof {
        assert(list@.take(0) =~= Seq::empty());
        assert(text_map(out@) =~= Map::empty());
    }
    while i < list.len()
        invariant
            i <= list.len(),
            out.wf(),
            text_map(out@) == subagent_map(list@.take(i as int)),
        decreases list.len() - i,
    {
        let s = &list[i];
        proof {
            assert(list@.take(i + 1).drop_last() =~= list@.take(i as int));
            assert(list@.take(i + 1).last() == *s);
        }
        if says_subagent(s) {
            if let Some(p) = &s.parent_session_id {
                let ghost before = out@;
                out.insert(s.session_id.clone(), p.clone());
                assert(text_map(out@) =~= text_map(before).insert(s.session_id@, p@));
            }
        }
        i = i + 1;
    }
    assert(list@.take(list@.len() as int) =~= list@);
    out
}

/// The ids of sessions.
pub fn session_ids(list: &Vec<SessionSummary>) -> (r: Vec<String>)
    ensures
        text_seq(r@) == ids_in(list@),
{
    let ghost wanted = ids_in(list@);
    let mut out: Vec<String> = Vec::new();
    let mut i: usize = 0;
    assert(text_seq(out@) =~= wanted.take(0));
    while i < list.len()
        invariant
            i <= list.len(),
            wanted == ids_in(list@),
            text_seq(out@) == wanted.take(i as int),
        decreases list.len() - i,
    {
        let id = list[i].session_id.clone();
        proof {
            assert(text_seq(out@.push(id)) =~= text_seq(out@).push(id@));
            assert(wanted.take(i + 1) =~= wanted.take(i as int).push(id@));
        }
        out.push(id);
        i = i + 1;
    }
    assert(wanted.take(wanted.len() as int) =~= wanted);
    out
}

/// Whether any of some sessions is running.
pub open spec fn any_running(h: HostView, ids: Seq<Seq<char>>) -> bool {
    exists|i: int| 0 <= i < ids.len() && is_running(h, #[trigger] ids[i])
}

/// A session that is not there.
pub open spec fn no_session(id: Seq<char>) -> ErrorView {
    error_view("session-not-found"@, "session not found: "@ + id)
}

/// What comes of deleting a session, given all that came from it by having work
/// done: where one of them is running nothing is deleted; else they go first,
/// and the session last, unless it is not there.
pub open spec fn deleted(
    h: HostView,
    id: Seq<char>,
    kin: Seq<Seq<char>>,
    on_disk: bool,
    after: HostView,
    gone: Seq<Seq<char>>,
    r: Result<(), RpcError>,
) -> bool {
    if any_running(h, kin.push(id)) {
        r is Err && r->Err_0@ == stop_first() && gone.len() == 0 && after == h
    } else {
        &&& after == (HostView { sessions: h.sessions.remove_keys(kin.push(id).to_set()), ..h })
        &&& if on_disk {
            r is Ok && gone == kin.reverse().push(id)
        } else {
            r is Err && r->Err_0@ == no_session(id) && gone == kin.reverse()
        }
    }
}

proof fn lemma_id_set_is_to_set(v: Seq<String>)
    ensures
        id_set(v) == text_seq(v).to_set(),
{
    assert forall|k: Seq<char>| id_set(v).contains(k) == text_seq(v).to_set().contains(k) by {
        if id_set(v).contains(k) {
            let j = choose|j: int| 0 <= j < v.len() && (#[trigger] v[j])@ == k;
            assert(text_seq(v)[j] == k);
        }
        if text_seq(v).contains(k) {
            let j = choose|j: int| 0 <= j < text_seq(v).len() && text_seq(v)[j] == k;
            assert(v[j]@ == k);
        }
    }
    assert(id_set(v) =~= text_seq(v).to_set());
}

impl AppHost {
    /// Deletes a session, and first those that it had work done in. The first
    /// result names what is to be deleted, in this order.
    pub fn delete_session(&mut self, list: &Vec<SessionSummary>, id: &str, on_disk: bool) -> (r: (
        Vec<String>,
        Result<(), RpcError>,
    ))
        requires
            old(self).wf(),
        ensures
            final(self).wf(),
            exists|kin: Seq<Seq<char>>|
                #[trigger] descends(
                    subagent_map(list@),
                    ids_in(list@),
                    id@,
                    Seq::empty(),
                    kin,
                    list@.len() as int,
                ) && deleted(
                    old(self)@,
                    id@,
                    kin,
                    on_disk,
                    final(self)@,
                    text_seq(r.0@),
                    r.1,
                ),
    {
        let parents = map_subagents(list);
        let ids = session_ids(list);
        let mut all = descendants_of(&parents, &ids, id);
        let ghost kin = text_seq(all@);
        assert(ids@.len() == list@.len()) by {
            assert(text_seq(ids@).len() == ids@.len());
        }
        let n: usize = all.len();
        let own = id.to_owned();
        assert(text_seq(all@.push(own)) =~= kin.push(id@));
        all.push(own);
        let ghost whole = kin.push(id@);
        let mut i: usize = 0;
        while i < all.len()
            invariant
                i <= all.len(),
                whole == text_seq(all@),
                self@ == old(self)@,
                self.wf(),
                forall|k: int| 0 <= k < i ==> !is_running(self@, #[trigger] whole[k]),
                whole == kin.push(id@),
                descends(
                    subagent_map(list@),
                    ids_in(list@),
                    id@,
                    Seq::empty(),
                    kin,
                    list@.len() as int,
                ),
            decreases all.len() - i,
        {
            assert(whole[i as int] == all@[i as int]@);
            let running = match self.sessions.get(all[i].as_str()) {
                Some(b) => *b,
                None => false,
            };
            if running {
                assert(is_running(self@, whole[i as int]));
                let none: Vec<String> = Vec::new();
                let e = RpcError::bad_request("会话运行中,请先停止");
                let r: Result<(), RpcError> = Err(e);
                assert(deleted(old(self)@, id@, kin, on_disk, self@, text_seq(none@), r));
                return (none, r);
            }
            i = i + 1;
        }
        self.sessions.remove_all(&all);
        proof {
            lemma_id_set_is_to_set(all@);
            assert(!any_running(old(self)@, whole));
        }
        let mut gone: Vec<String> = Vec::new();
        let mut k: usize = n;
        assert(text_seq(gone@) =~= Seq::empty());
        while k > 0
            invariant
                k <= n,
                n == kin.len(),
                all@.len() == n + 1,
                text_seq(all@) == kin.push(id@),
                text_seq(gone@) == kin.skip(k as int).reverse(),
            decreases k,
        {
            let name = all[k - 1].clone();
            proof {
                assert(text_seq(all@)[k - 1] == name@);
                assert(text_seq(gone@.push(name)) =~= text_seq(gone@).push(name@));
                assert(kin.skip(k - 1).reverse() =~= kin.skip(k as int).reverse().push(kin[k - 1]));
            }
            gone.push(name);
            k = k - 1;
        }
        assert(kin.skip(0) =~= kin);
        let r: Result<(), RpcError> = if on_disk {
            let own2 = id.to_owned();
            assert(text_seq(gone@.push(own2)) =~= text_seq(gone@).push(id@));
            gone.push(own2);
            Ok(())
        } else {
            Err(RpcError::session_not_found(id))
        };
        assert(deleted(old(self)@, id@, kin, on_disk, self@, text_seq(gone@), r));
        (gone, r)
    }

    /// Lets a session go that is put away; it must not be running, and must be
    /// there.
    pub fn archive_session(&mut self, id: &str, on_disk: bool) -> (r: Result<(), RpcError>)
        requires
            old(self).wf(),
        ensures
            final(self).wf(),
            if is_running(old(self)@, id@) {
                r is Err && r->Err_0@ == stop_first() && final(self)@ == old(self)@
            } else {
                &&& final(self)@ == (HostView {
                    sessions: old(self)@.sessions.remove(id@),
                    ..old(self)@
                })
                &&& if on_disk {
                    r is Ok
                } else {
                    r is Err && r->Err_0@ == no_session(id@)
                }
            },
    {
        if let Err(e) = self.detach_if_idle(id) {
            return Err(e);
        }
        if on_disk {
            Ok(())
        } else {
            Err(RpcError::session_not_found(id))
        }
    }
}

/// Whether a session is one that another had work done in that is gone.
pub open spec fn is_orphan(list: Seq<SessionSummary>, s: SessionSummary) -> bool {
    is_subagent(s) && (match text_view(s.parent_session_id) {
        Some(p) => !ids_in(list).contains(p),
        None => true,
    })
}

/// The ids of the orphans among the first sessions of a list.
pub open spec fn orphans_among(list: Seq<SessionSummary>, head: Seq<SessionSummary>) -> Seq<
    Seq<char>,
>
    decreases head.len(),
{
    if head.len() == 0 {
        Seq::empty()
    } else if is_orphan(list, head.last()) {
        orphans_among(list, head.drop_last()).push(head.last().session_id@)
    } else {
        orphans_among(list, head.drop_last())
    }
}

/// The sessions that others had work done in that are gone: they are to be
/// deleted.
pub fn orphan_subagents(list: &Vec<SessionSummary>) -> (r: Vec<String>)
    ensures
        text_seq(r@) == orphans_among(list@, list@),
{
    let ids = session_ids(list);
    let mut out: Vec<String> = Vec::new();
    let mut i: usize = 0;
    proof {
        assert(list@.take(0) =~= Seq::empty());
        assert(text_seq(out@) =~= Seq::empty());
    }
    while i < list.len()
        invariant
            i <= list.len(),
            text_seq(ids@) == ids_in(list@),
            text_seq(out@) == orphans_among(list@, list@.take(i as int)),
        decreases list.len() - i,
    {
        let s = &list[i];
        proof {
            assert(list@.take(i + 1).drop_last() =~= list@.take(i as int));
            assert(list@.take(i + 1).last() == *s);
        }
        let alone = match &s.parent_session_id {
            Some(p) => !contains_text(&ids, p.as_str()),
            None => true,
        };
        if says_subagent(s) && alone {
            let id = s.session_id.clone();
            assert(text_seq(out@.push(id)) =~= text_seq(out@).push(id@));
            out.push(id);
        }
        i = i + 1;
    }
    assert(list@.take(list@.len() as int) =~= list@);
    out
}

/// The ids of the sessions on a list that another has work done in.
pub open spec fn working_for(list: Seq<SessionSummary>, parent: Seq<char>) -> Seq<Seq<char>>
    decreases list.len(),
{
    if list.len() == 0 {
        Seq::empty()
    } else if is_subagent(list.last()) && text_view(list.last().parent_session_id) == Some(parent) {
        working_for(list.drop_last(), parent).push(list.last().session_id@)
    } else {
        working_for(list.drop_last(), parent)
    }
}

/// The sessions that another has work done in.
pub fn subagents_of(list: &Vec<SessionSummary>, parent: &str) -> (r: Vec<String>)
    ensures
        text_seq(r@) == working_for(list@, parent@),
{
    let mut out: Vec<String> = Vec::new();
    let mut i: usize = 0;
    proof {
        assert(list@.take(0) =~= Seq::empty());
        assert(text_seq(out@) =~= Seq::empty());
    }
    while i < list.len()
        invariant
            i <= list.len(),
            text_seq(out@) == working_for(list@.take(i as int), parent@),
        decreases list.len() - i,
    {
        let s = &list[i];
        proof {
            assert(list@.take(i + 1).drop_last() =~= list@.take(i as int));
            assert(list@.take(i + 1).last() == *s);
        }
        let own = match &s.parent_session_id {
            Some(p) => same(p.as_str(), parent),
            None => false,
        };
        if says_subagent(s) && own {
            let id = s.session_id.clone();
            assert(text_seq(out@.push(id)) =~= text_seq(out@).push(id@));
            out.push(id);
        }
        i = i + 1;
    }
    assert(list@.take(list@.len() as int) =~= list@);
    out
}

proof fn lemma_mapped_is_subagent(list: Seq<SessionSummary>, c: Seq<char>)
    requires
        subagent_map(list).dom().contains(c),
    ensures
        exists|i: int|
            0 <= i < list.len() && (#[trigger] list[i]).session_id@ == c && is_subagent(list[i])
                && text_view(list[i].parent_session_id) == Some(subagent_map(list)[c]),
    decreases list.len(),
{
    if list.len() > 0 {
        let rest = list.drop_last();
        let s = list.last();
        let here = is_subagent(s) && s.parent_session_id is Some && s.session_id@ == c;
        if here {
            assert(list[list.len() - 1] == s);
        } else {
            lemma_mapped_is_subagent(rest, c);
            let i = choose|i: int|
                0 <= i < rest.len() && (#[trigger] rest[i]).session_id@ == c && is_subagent(rest[i])
                    && text_view(rest[i].parent_session_id) == Some(subagent_map(rest)[c]);
            assert(list[i] == rest[i]);
        }
    }
}

/// Only sessions that had work done for another go with it: whatever is deleted
/// with a session is on the list as one of those, not as a fork.
pub proof fn law_delete_spares_forks(
    list: Seq<SessionSummary>,
    id: Seq<char>,
    kin: Seq<Seq<char>>,
    k: int,
)
    requires
        descends(
            subagent_map(list),
            ids_in(list),
            id,
            Seq::empty(),
            kin,
            list.len() as int,
        ),
        0 <= k < kin.len(),
    ensures
        exists|i: int|
            0 <= i < list.len() && (#[trigger] list[i]).session_id@ == kin[k] && is_subagent(
                list[i],
            ),
{
    let map = subagent_map(list);
    assert(ids_in(list).contains(kin[k]));
    if !comes_from(map, kin[k], id) {
        let m = choose|m: int| 0 <= m < k && comes_from(map, kin[k], #[trigger] kin[m]);
        assert(map.dom().contains(kin[k]));
    }
    lemma_mapped_is_subagent(list, kin[k]);
    let i = choose|i: int|
        0 <= i < list.len() && (#[trigger] list[i]).session_id@ == kin[k] && is_subagent(list[i])
            && text_view(list[i].parent_session_id) == Some(map[kin[k]]);
    assert(list[i].session_id@ == kin[k] && is_subagent(list[i]));
}

// Taking work up again.

/// How a session stands that another has work done in, when a new process finds
/// it.
#[derive(Debug, PartialEq)]
pub struct Resumable {
    /// Whether it was broken off: then its log is to be mended first.
    pub interrupted: bool,
    pub label: String,
    pub prompt: String,
}

/// The first event of a kind.
pub open spec fn first_of_kind(log: Seq<EventView>, kind: Seq<char>) -> Option<EventView>
    decreases log.len(),
{
    if log.len() == 0 {
        None
    } else if log[0].kind == kind {
        Some(log[0])
    } else {
        first_of_kind(log.drop_first(), kind)
    }
}

/// How a session stands by its log: it can be taken up where it was described,
/// and was broken off unless it had come to its end.
pub fn resumable_child(log: &EventLog) -> (r: Option<Resumable>)
    ensures
        match first_of_kind(log@, "subagent/descriptor"@) {
            None => r is None,
            Some(e) => {
                &&& r is Some
                &&& r->0.interrupted == (log@.last().kind != "subagent/settled"@)
                &&& r->0.label@ == crate::json::text_at(e.data, "label"@)
                &&& r->0.prompt@ == crate::json::text_at(e.data, "prompt"@)
            },
        },
{
    let mut i: usize = 0;
    assert(log@.skip(0) =~= log@);
    while i < log.events.len()
        invariant
            i <= log.events.len(),
            first_of_kind(log@, "subagent/descriptor"@) == first_of_kind(
                log@.skip(i as int),
                "subagent/descriptor"@,
            ),
        decreases log.events.len() - i,
    {
        let ev = &log.events[i];
        assert(log@.skip(i as int)[0] == ev@);
        assert(log@.skip(i as int).drop_first() =~= log@.skip(i + 1));
        if same(ev.kind.as_str(), "subagent/descriptor") {
            let last = &log.events[log.events.len() - 1];
            assert(log@.last() == last@);
            return Some(
                Resumable {
                    interrupted: !same(last.kind.as_str(), "subagent/settled"),
                    label: crate::json::text_of(&ev.data, "label"),
                    prompt: crate::json::text_of(&ev.data, "prompt"),
                },
            );
        }
        i = i + 1;
    }
    None
}

/// The sessions that come from another directly are all those, and no others, in the
/// order of the list.
pub proof fn law_children_are_all(
    parents: Map<Seq<char>, Seq<char>>,
    ids: Seq<Seq<char>>,
    id: Seq<char>,
)
    ensures
        children_of(parents, ids, id) == ids.filter(
            |c: Seq<char>| c != id && parents.dom().contains(c) && parents[c] == id,
        ),
{
    lemma_children(
        parents,
        ids,
        id,
        |c: Seq<char>| c != id && parents.dom().contains(c) && parents[c] == id,
    );
}

proof fn lemma_children(
    parents: Map<Seq<char>, Seq<char>>,
    ids: Seq<Seq<char>>,
    id: Seq<char>,
    keep: spec_fn(Seq<char>) -> bool,
)
    requires
        forall|c: Seq<char>|
            #[trigger] keep(c) == (c != id && parents.dom().contains(c) && parents[c] == id),
    ensures
        children_of(parents, ids, id) == ids.filter(keep),
    decreases ids.len(),
{
    reveal(Seq::filter);
    if ids.len() > 0 {
        lemma_children(parents, ids.drop_last(), id, keep);
        assert(keep(ids.last()) == (ids.last() != id && comes_from(parents, ids.last(), id)));
    } else {
        assert(children_of(parents, ids, id) =~= ids.filter(keep));
    }
}

/// Whether a line leads from a session to another: the first of it comes from the one,
/// each comes from the one before it, and all are on a list.
pub open spec fn leads(
    parents: Map<Seq<char>, Seq<char>>,
    ids: Seq<Seq<char>>,
    id: Seq<char>,
    line: Seq<Seq<char>>,
) -> bool {
    &&& line.len() > 0
    &&& forall|i: int|
        0 <= i < line.len() ==> ids.contains(#[trigger] line[i]) && parents.dom().contains(line[i])
            && parents[line[i]] == link(id, line, i)
}

/// Whether a line leads from a session to another.
pub open spec fn has_line(
    parents: Map<Seq<char>, Seq<char>>,
    ids: Seq<Seq<char>>,
    id: Seq<char>,
    to: Seq<char>,
) -> bool {
    exists|line: Seq<Seq<char>>| #[trigger] leads(parents, ids, id, line) && line.last() == to
}

/// What comes from a session, directly or through others, is exactly what a line leads
/// to; each comes once.
pub proof fn law_descent_is_all(
    parents: Map<Seq<char>, Seq<char>>,
    ids: Seq<Seq<char>>,
    id: Seq<char>,
    kin: Seq<Seq<char>>,
    line: Seq<Seq<char>>,
)
    requires
        descends(parents, ids, id, Seq::empty(), kin, ids.len() as int),
    ensures
        leads(parents, ids, id, line) ==> kin.contains(line.last()),
        forall|j: int| 0 <= j < kin.len() ==> has_line(parents, ids, id, #[trigger] kin[j]),
        kin.no_duplicates(),
{
    if leads(parents, ids, id, line) {
        lemma_line_is_kin(parents, ids, id, kin, line);
    }
    assert forall|j: int| 0 <= j < kin.len() implies has_line(
        parents,
        ids,
        id,
        #[trigger] kin[j],
    ) by {
        lemma_kin_has_line(parents, ids, id, kin, j);
    }
    assert forall|i: int, j: int| 0 <= i < kin.len() && 0 <= j < kin.len() && i != j implies kin[i]
        != kin[j] by {
        if i < j {
            assert(kin[i] != kin[j]);
        } else {
            assert(kin[j] != kin[i]);
        }
    }
}

proof fn lemma_line_is_kin(
    parents: Map<Seq<char>, Seq<char>>,
    ids: Seq<Seq<char>>,
    id: Seq<char>,
    kin: Seq<Seq<char>>,
    line: Seq<Seq<char>>,
)
    requires
        descends(parents, ids, id, Seq::empty(), kin, ids.len() as int),
        leads(parents, ids, id, line),
    ensures
        kin.contains(line.last()),
    decreases line.len(),
{
    let n = line.len() as int;
    let c = line[n - 1];
    let k = choose|k: int| 0 <= k < ids.len() && ids[k] == c;
    if n == 1 {
        assert(comes_from(parents, ids[k], id));
    } else {
        let rest = line.drop_last();
        assert forall|i: int| 0 <= i < rest.len() implies ids.contains(#[trigger] rest[i])
            && parents.dom().contains(rest[i]) && parents[rest[i]] == link(id, rest, i) by {
            assert(rest[i] == line[i]);
            assert(link(id, rest, i) == link(id, line, i));
        }
        lemma_line_is_kin(parents, ids, id, kin, rest);
        let j = choose|j: int| 0 <= j < kin.len() && kin[j] == rest.last();
        assert(rest.last() == line[n - 2]);
        assert(comes_from(parents, ids[k], kin[j]));
    }
}

proof fn lemma_kin_has_line(
    parents: Map<Seq<char>, Seq<char>>,
    ids: Seq<Seq<char>>,
    id: Seq<char>,
    kin: Seq<Seq<char>>,
    j: int,
)
    requires
        descends(parents, ids, id, Seq::empty(), kin, ids.len() as int),
        0 <= j < kin.len(),
    ensures
        has_line(parents, ids, id, kin[j]),
    decreases j,
{
    assert(ids.contains(kin[j]));
    if comes_from(parents, kin[j], id) {
        let l = seq![kin[j]];
        assert(leads(parents, ids, id, l));
        assert(l.last() == kin[j]);
    } else {
        let m = choose|m: int| 0 <= m < j && comes_from(parents, kin[j], #[trigger] kin[m]);
        lemma_kin_has_line(parents, ids, id, kin, m);
        lemma_line_goes_on(parents, ids, id, kin[m], kin[j]);
    }
}

proof fn lemma_line_goes_on(
    parents: Map<Seq<char>, Seq<char>>,
    ids: Seq<Seq<char>>,
    id: Seq<char>,
    from: Seq<char>,
    to: Seq<char>,
)
    requires
        has_line(parents, ids, id, from),
        ids.contains(to),
        comes_from(parents, to, from),
    ensures
        has_line(parents, ids, id, to),
{
    let l = choose|l: Seq<Seq<char>>| #[trigger] leads(parents, ids, id, l) && l.last() == from;
    let more = l.push(to);
    assert forall|i: int| 0 <= i < more.len() implies ids.contains(#[trigger] more[i])
        && parents.dom().contains(more[i]) && parents[more[i]] == link(id, more, i) by {
        if i < l.len() {
            assert(more[i] == l[i]);
            assert(link(id, more, i) == link(id, l, i));
        } else {
            assert(more[i - 1] == l.last());
        }
    }
    assert(leads(parents, ids, id, more));
    assert(more.last() == to);
}

/// Whether a session of a run stands before the one that it comes from.
pub open spec fn goes_before(
    parents: Map<Seq<char>, Seq<char>>,
    gone: Seq<Seq<char>>,
    i: int,
) -> bool {
    exists|j: int| i < j < gone.len() && comes_from(parents, gone[i], #[trigger] gone[j])
}

/// Deleting a session takes it, and all that it had work done in; none of them is
/// attached afterwards, and every other session stays as it was. What works for another
/// goes before it, and the session itself last. Where one of them runs, nothing is
/// deleted.
pub proof fn law_delete_takes_all_kin(
    h: HostView,
    parents: Map<Seq<char>, Seq<char>>,
    ids: Seq<Seq<char>>,
    id: Seq<char>,
    kin: Seq<Seq<char>>,
    on_disk: bool,
    after: HostView,
    gone: Seq<Seq<char>>,
    r: Result<(), RpcError>,
)
    requires
        descends(parents, ids, id, Seq::empty(), kin, ids.len() as int),
        deleted(h, id, kin, on_disk, after, gone, r),
    ensures
        (exists|i: int| 0 <= i < kin.len() && is_running(h, #[trigger] kin[i])) || is_running(h, id)
            ==> r is Err && gone.len() == 0 && after == h,
        r is Ok ==> on_disk && !is_running(h, id) && gone.len() == kin.len() + 1 && gone.last()
            == id && forall|i: int| 0 <= i < kin.len() ==> gone.contains(#[trigger] kin[i]),
        r is Ok ==> !after.sessions.dom().contains(id) && forall|i: int|
            0 <= i < kin.len() ==> !after.sessions.dom().contains(#[trigger] kin[i]),
        forall|s: Seq<char>|
            s != id && !kin.contains(s) ==> (#[trigger] after.sessions.dom().contains(s)
                == h.sessions.dom().contains(s)),
        after == (HostView { sessions: after.sessions, ..h }),
        r is Ok ==> forall|i: int|
            0 <= i < kin.len() ==> #[trigger] goes_before(parents, gone, i),
{
    let all = kin.push(id);
    let n = kin.len() as int;
    assert(all[n] == id);
    if exists|i: int| 0 <= i < kin.len() && is_running(h, #[trigger] kin[i]) {
        let i = choose|i: int| 0 <= i < kin.len() && is_running(h, #[trigger] kin[i]);
        assert(all[i] == kin[i]);
        assert(any_running(h, all));
    }
    if is_running(h, id) {
        assert(is_running(h, all[n]));
    }
    if !any_running(h, all) {
        assert forall|s: Seq<char>| s != id && !kin.contains(s) implies (
        #[trigger] after.sessions.dom().contains(s) == h.sessions.dom().contains(s)) by {
            if all.to_set().contains(s) {
                let k = choose|k: int| 0 <= k < all.len() && all[k] == s;
                if k < n {
                    assert(kin[k] == s);
                }
            }
        }
        assert(all.contains(id));
        assert forall|i: int| 0 <= i < n implies all.contains(#[trigger] kin[i]) by {
            assert(all[i] == kin[i]);
        }
    }
    if r is Ok {
        assert(gone == kin.reverse().push(id));
        assert forall|i: int| 0 <= i < n implies gone.contains(#[trigger] kin[i]) by {
            assert(gone[n - 1 - i] == kin[i]);
        }
        assert forall|i: int| 0 <= i < n implies #[trigger] goes_before(parents, gone, i) by {
            let a = n - 1 - i;
            assert(gone[i] == kin[a]);
            if comes_from(parents, kin[a], id) {
                assert(gone[n] == id);
                assert(comes_from(parents, gone[i], gone[n]));
            } else {
                let m = choose|m: int| 0 <= m < a && comes_from(parents, kin[a], #[trigger] kin[m]);
                assert(gone[n - 1 - m] == kin[m]);
                assert(comes_from(parents, gone[i], gone[n - 1 - m]));
            }
        }
    }
}

/// Whether a list says of a session that it has work done for another.
pub open spec fn says_works_for(list: Seq<SessionSummary>, c: Seq<char>, p: Seq<char>) -> bool {
    exists|i: int|
        0 <= i < list.len() && (#[trigger] list[i]).session_id@ == c && text_view(list[i].origin)
            == Some("subagent"@) && text_view(list[i].parent_session_id) == Some(p)
}

proof fn lemma_says_works_for(list: Seq<SessionSummary>, c: Seq<char>, p: Seq<char>)
    requires
        list.len() > 0,
    ensures
        says_works_for(list, c, p) <==> says_works_for(list.drop_last(), c, p) || (
        list.last().session_id@ == c && is_subagent(list.last()) && text_view(
            list.last().parent_session_id,
        ) == Some(p)),
{
    let rest = list.drop_last();
    assert(list[list.len() - 1] == list.last());
    if says_works_for(rest, c, p) {
        let i = choose|i: int|
            0 <= i < rest.len() && (#[trigger] rest[i]).session_id@ == c && text_view(rest[i].origin)
                == Some("subagent"@) && text_view(rest[i].parent_session_id) == Some(p);
        assert(list[i] == rest[i]);
    }
    if says_works_for(list, c, p) {
        let i = choose|i: int|
            0 <= i < list.len() && (#[trigger] list[i]).session_id@ == c && text_view(list[i].origin)
                == Some("subagent"@) && text_view(list[i].parent_session_id) == Some(p);
        if i < rest.len() {
            assert(rest[i] == list[i]);
        }
    }
}

proof fn lemma_subagent_map(list: Seq<SessionSummary>, c: Seq<char>, p: Seq<char>)
    requires
        forall|i: int, j: int|
            0 <= i < j < list.len() ==> (#[trigger] list[i]).session_id@ != (
            #[trigger] list[j]).session_id@,
    ensures
        comes_from(subagent_map(list), c, p) <==> says_works_for(list, c, p),
    decreases list.len(),
{
    if list.len() > 0 {
        let rest = list.drop_last();
        assert forall|i: int, j: int| 0 <= i < j < rest.len() implies (
        #[trigger] rest[i]).session_id@ != (#[trigger] rest[j]).session_id@ by {
            assert(list[i].session_id@ != list[j].session_id@);
        }
        lemma_subagent_map(rest, c, p);
        lemma_says_works_for(list, c, p);
        let s = list.last();
        if s.session_id@ == c {
            if says_works_for(rest, c, p) {
                let i = choose|i: int|
                    0 <= i < rest.len() && (#[trigger] rest[i]).session_id@ == c && text_view(
                        rest[i].origin,
                    ) == Some("subagent"@) && text_view(rest[i].parent_session_id) == Some(p);
                assert(list[i].session_id@ != list[list.len() - 1].session_id@);
            }
        }
    }
}

/// A session works for another exactly where the list says so of it: it says that it is
/// one that has work done, and for whom.
pub proof fn law_work_is_done_for_the_named(list: Seq<SessionSummary>, c: Seq<char>, p: Seq<char>)
    requires
        forall|i: int, j: int|
            0 <= i < j < list.len() ==> (#[trigger] list[i]).session_id@ != (
            #[trigger] list[j]).session_id@,
    ensures
        comes_from(subagent_map(list), c, p) <==> says_works_for(list, c, p),
        working_for(list, p).contains(c) <==> says_works_for(list, c, p),
{
    lemma_subagent_map(list, c, p);
    lemma_working_for(list, c, p);
}

proof fn lemma_working_for(list: Seq<SessionSummary>, c: Seq<char>, p: Seq<char>)
    ensures
        working_for(list, p).contains(c) <==> says_works_for(list, c, p),
    decreases list.len(),
{
    let out = working_for(list, p);
    if list.len() > 0 {
        let rest = list.drop_last();
        let kept = working_for(rest, p);
        lemma_working_for(rest, c, p);
        lemma_says_works_for(list, c, p);
        if out.contains(c) {
            let j = choose|j: int| 0 <= j < out.len() && out[j] == c;
            if j < kept.len() {
                assert(kept[j] == c);
            }
        } else {
            if kept.contains(c) {
                let j = choose|j: int| 0 <= j < kept.len() && kept[j] == c;
                assert(out[j] == c);
            }
            if is_subagent(list.last()) && text_view(list.last().parent_session_id) == Some(p)
                && list.last().session_id@ == c {
                assert(out[out.len() - 1] == c);
            }
        }
    }
}

/// A session is an orphan exactly where it had work done for another that the list does
/// not have, or that it does not name; every orphan is found.
pub proof fn law_orphans_are_all(list: Seq<SessionSummary>, c: Seq<char>)
    ensures
        orphans_among(list, list).contains(c) <==> exists|i: int|
            0 <= i < list.len() && (#[trigger] list[i]).session_id@ == c && text_view(list[i].origin)
                == Some("subagent"@) && (text_view(list[i].parent_session_id) matches Some(p)
                ==> forall|k: int| 0 <= k < list.len() ==> (#[trigger] list[k]).session_id@ != p),
{
    lemma_orphans(list, list, c);
    assert forall|i: int| 0 <= i < list.len() implies (is_orphan(list, #[trigger] list[i]) <==> (
    text_view(list[i].origin) == Some("subagent"@) && (text_view(list[i].parent_session_id)
        matches Some(p) ==> forall|k: int|
        0 <= k < list.len() ==> (#[trigger] list[k]).session_id@ != p))) by {
        if text_view(list[i].parent_session_id) is Some {
            let p = text_view(list[i].parent_session_id)->0;
            let ids = ids_in(list);
            if ids.contains(p) {
                let k = choose|k: int| 0 <= k < ids.len() && ids[k] == p;
                assert(list[k].session_id@ == p);
            } else {
                assert forall|k: int| 0 <= k < list.len() implies (#[trigger] list[k]).session_id@
                    != p by {
                    assert(ids[k] == list[k].session_id@);
                }
            }
        }
    }
}

proof fn lemma_orphans(list: Seq<SessionSummary>, head: Seq<SessionSummary>, c: Seq<char>)
    ensures
        orphans_among(list, head).contains(c) <==> exists|i: int|
            0 <= i < head.len() && (#[trigger] head[i]).session_id@ == c && is_orphan(list, head[i]),
    decreases head.len(),
{
    let out = orphans_among(list, head);
    if head.len() > 0 {
        let rest = head.drop_last();
        let kept = orphans_among(list, rest);
        lemma_orphans(list, rest, c);
        assert(head[head.len() - 1] == head.last());
        if out.contains(c) {
            let j = choose|j: int| 0 <= j < out.len() && out[j] == c;
            if j < kept.len() {
                assert(kept[j] == c);
                let i = choose|i: int|
                    0 <= i < rest.len() && (#[trigger] rest[i]).session_id@ == c && is_orphan(
                        list,
                        rest[i],
                    );
                assert(head[i] == rest[i]);
            } else {
                assert(head[head.len() - 1].session_id@ == c);
            }
        } else {
            if kept.contains(c) {
                let j = choose|j: int| 0 <= j < kept.len() && kept[j] == c;
                assert(out[j] == c);
            }
            assert forall|i: int| 0 <= i < head.len() && is_orphan(list, #[trigger] head[i]) implies head[i].session_id@
                != c by {
                if i < rest.len() {
                    assert(rest[i] == head[i]);
                } else if head[i].session_id@ == c {
                    assert(out[out.len() - 1] == c);
                }
            }
        }
    }
}

/// A log says that it was forked from the session that its last event about that names.
pub proof fn law_last_fork_counts(log: Seq<EventView>, i: int)
    requires
        0 <= i < log.len(),
        log[i].kind == "session/forked"@,
        forall|k: int| i < k < log.len() ==> (#[trigger] log[k]).kind != "session/forked"@,
    ensures
        fork_parent_view(log) == (match log[i].data.at("parent"@) {
            JsonTree::Text(p) => Some(p),
            _ => None,
        }),
    decreases log.len(),
{
    if i < log.len() - 1 {
        let rest = log.drop_last();
        assert(log[log.len() - 1].kind != "session/forked"@);
        assert forall|k: int| i < k < rest.len() implies (#[trigger] rest[k]).kind
            != "session/forked"@ by {
            assert(rest[k] == log[k]);
        }
        law_last_fork_counts(rest, i);
    }
}

/// A session that another has work done in has the access of the other and asks for
/// nothing.
pub proof fn law_delegated_sessions_never_ask(sandbox: Seq<char>, time: i64)
    ensures
        ({
            let all = delegation_views(sandbox, time);
            &&& all.len() == 2
            &&& all[0].kind == "sandbox/mode"@ && all[0].data.at("mode"@) == JsonTree::Text(sandbox)
            &&& all[1].kind == "approval/policy"@ && all[1].data.at("policy"@) == JsonTree::Text(
                "never"@,
            )
            &&& all[0].data.at("source"@) == JsonTree::Text("delegation"@)
            &&& all[1].data.at("source"@) == JsonTree::Text("delegation"@)
            &&& all[0].seq == 1 && all[1].seq == 2
        }),
{
    reveal_strlit("mode");
    reveal_strlit("policy");
    reveal_strlit("source");
    assert("mode"@.len() == 4 && "policy"@.len() == 6 && "source"@.len() == 6 && "policy"@[0] == 'p'
        && "source"@[0] == 's');
    let by = JsonTree::Text("delegation"@);
    let t0 = JsonTree::object();
    let a = t0.with("mode"@, JsonTree::Text(sandbox));
    let b = t0.with("policy"@, JsonTree::Text("never"@));
    lemma_with(t0, "mode"@, JsonTree::Text(sandbox));
    lemma_with(a, "source"@, by);
    lemma_with(t0, "policy"@, JsonTree::Text("never"@));
    lemma_with(b, "source"@, by);
    assert(a.with("source"@, by).get("mode"@) == Some(JsonTree::Text(sandbox)));
    assert(a.with("source"@, by).get("source"@) == Some(by));
    assert(b.with("source"@, by).get("policy"@) == Some(JsonTree::Text("never"@)));
    assert(b.with("source"@, by).get("source"@) == Some(by));
}

/// The first event of a kind is of the kind, and none before it is.
pub proof fn law_first_of_kind_is_first(log: Seq<EventView>, kind: Seq<char>, i: int)
    requires
        0 <= i < log.len(),
        log[i].kind == kind,
        forall|k: int| 0 <= k < i ==> (#[trigger] log[k]).kind != kind,
    ensures
        first_of_kind(log, kind) == Some(log[i]),
    decreases i,
{
    if i > 0 {
        assert(log[0].kind != kind);
        let rest = log.drop_first();
        assert forall|k: int| 0 <= k < i - 1 implies (#[trigger] rest[k]).kind != kind by {
            assert(rest[k] == log[k + 1]);
        }
        law_first_of_kind_is_first(rest, kind, i - 1);
    }
}

/// A new session is attached, under the name that is asked for, or a fresh one, in the
/// workspace that is named; its preset counts where there is such a preset. Nothing else
/// of the host changes.
pub proof fn law_new_session_is_attached(
    h: HostView,
    ws: Seq<char>,
    name: Seq<char>,
    fresh: Seq<char>,
    preset: Seq<char>,
    presets: Seq<Seq<char>>,
    other: Seq<char>,
)
    requires
        !h.sessions.dom().contains(new_id(h, Some(ws), Some(name), fresh)),
    ensures
        new_id(h, None, Some(name), fresh) == name,
        new_id(h, None, None, fresh) == "s-"@ + fresh,
        ws_named(h.workspaces, ws) is Some ==> new_id(h, Some(ws), Some(name), fresh) == ws + "/"@
            + name,
        ws_named(h.workspaces, ws) is None ==> new_id(h, Some(ws), Some(name), fresh) == name,
        ({
            let id = new_id(h, Some(ws), Some(name), fresh);
            let after = created(h, id, Some(preset), presets);
            &&& after.sessions == h.sessions.insert(id, false)
            &&& presets.contains(preset) ==> after.preset_overrides == h.preset_overrides.insert(
                id,
                preset,
            )
            &&& !presets.contains(preset) ==> after.preset_overrides == h.preset_overrides
            &&& after == (HostView {
                sessions: after.sessions,
                preset_overrides: after.preset_overrides,
                ..h
            })
        }),
{
    assert(Seq::<char>::empty() + name =~= name);
    assert(Seq::<char>::empty() + ("s-"@ + fresh) =~= "s-"@ + fresh);
}

/// What a line of the list says of a session that was found: under which id it can be asked
/// for, when it changed, where it comes from and where it works, and the title that it was
/// given or, else, that its log begins with.
pub proof fn law_line_tells_of_its_session(h: HostView, s: Scanned, line: SessionSummary)
    requires
        summarizes(h, s, line),
    ensures
        name_or_empty(s.workspace@) == name_or_empty(h.default_workspace()) ==> line.session_id@
            == s.stem@,
        name_or_empty(s.workspace@) != name_or_empty(h.default_workspace()) ==> line.session_id@
            == name_or_empty(s.workspace@) + "/"@ + s.stem@,
        line.updated_at == s.updated_at,
        line.blank == s.blank,
        line.parent_session_id == s.header.parent,
        line.origin == s.header.origin,
        line.cwd matches Some(c) && c@ == s.workspace@.path,
        line.running <==> h.sessions.dom().contains(line.session_id@)
            && h.sessions[line.session_id@],
        h.titles.dom().contains(line.session_id@) ==> line.projections is Some
            && line.projections->0.values@ == JsonTree::Object(
            seq![("title"@, JsonTree::Text(h.titles[line.session_id@]))],
        ),
        !h.titles.dom().contains(line.session_id@) ==> match s.log_title {
            Some(t) => line.projections is Some && line.projections->0.values@ == JsonTree::Object(
                seq![("title"@, JsonTree::Text(t@))],
            ),
            None => line.projections is None,
        },
{
    if name_or_empty(s.workspace@) == name_or_empty(h.default_workspace()) {
        assert(Seq::<char>::empty() + s.stem@ =~= s.stem@);
    }
    assert(shown_title(h, line.session_id@, s) matches Some(t) ==> JsonTree::object().with(
        "title"@,
        JsonTree::Text(t),
    ) == JsonTree::Object(seq![("title"@, JsonTree::Text(t))])) by {
        if shown_title(h, line.session_id@, s) is Some {
            let t = shown_title(h, line.session_id@, s)->0;
            assert(Seq::<(Seq<char>, JsonTree)>::empty().push(("title"@, JsonTree::Text(t)))
                =~= seq![("title"@, JsonTree::Text(t))]);
        }
    }
}

/// A new session has the name that it was given, or a fresh one; in a workspace that is
/// known the name of the workspace goes before it, and nothing else does.
pub proof fn law_new_session_is_named(
    h: HostView,
    ws: Seq<char>,
    given: Seq<char>,
    fresh: Seq<char>,
)
    ensures
        new_id(h, None, Some(given), fresh) == given,
        new_id(h, None, None, fresh) == "s-"@ + fresh,
        (exists|i: int| 0 <= i < h.workspaces.len() && (#[trigger] h.workspaces[i]).name == Some(ws))
            ==> new_id(h, Some(ws), Some(given), fresh) == ws + "/"@ + given && new_id(
            h,
            Some(ws),
            None,
            fresh,
        ) == ws + "/"@ + ("s-"@ + fresh),
        !(exists|i: int|
            0 <= i < h.workspaces.len() && (#[trigger] h.workspaces[i]).name == Some(ws)) ==> new_id(
            h,
            Some(ws),
            Some(given),
            fresh,
        ) == given,
{
    assert(Seq::<char>::empty() + given =~= given);
    assert(Seq::<char>::empty() + ("s-"@ + fresh) =~= "s-"@ + fresh);
    crate::workspaces::law_workspace_is_found_by_name(h.workspaces, ws);
}

/// What is told of a new session: its id, whether it is blank, whom it comes from and how,
/// where it works and its preset.
pub proof fn law_new_session_is_told(
    h: HostView,
    added: HostSessionAdded,
    id: Seq<char>,
    parent: Option<Seq<char>>,
    origin: Option<Seq<char>>,
    preset: Option<Seq<char>>,
    blank: bool,
)
    requires
        announces(h, added, id, parent, origin, preset, blank),
    ensures
        added.session_id@ == id,
        added.blank == blank,
        parent is Some <==> added.parent_session_id is Some,
        added.parent_session_id matches Some(p) ==> p@ == parent->0,
        origin is Some <==> added.origin is Some,
        added.origin matches Some(o) ==> o@ == origin->0,
        added.cwd matches Some(c) && c@ == h.workspace_of_session(id).path,
        preset is Some <==> added.agent_preset is Some,
        added.agent_preset matches Some(p) ==> p@ == preset->0,
{
}

} // verus!
