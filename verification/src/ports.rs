//! Keeping the running servers of tools in step with the settings.
use vstd::prelude::*;
use vstd::string::*;

use crate::interact::text_view;
use crate::settings::{
    McpServerEntry, McpServerView, copy_strings, copy_text, copy_text_map, mcp_server_entry_views,
    text_map, text_seq,
};
use crate::strmap::StrMap;
use crate::text::same;

verus! {

/// How a server is reached.
#[derive(Debug, PartialEq)]
pub enum McpTransport {
    StreamableHttp { url: String, headers: StrMap<String> },
    Stdio { command: String, args: Vec<String>, env: StrMap<String>, cwd: Option<String> },
}

/// What a server is run with.
#[derive(Debug, PartialEq)]
pub struct McpServerConfig {
    pub server_name: String,
    pub transport: McpTransport,
    pub tool_call_timeout_ms: u64,
}

/// The model of how a server is reached.
pub enum TransportView {
    StreamableHttp { url: Seq<char>, headers: Map<Seq<char>, Seq<char>> },
    Stdio {
        command: Seq<char>,
        args: Seq<Seq<char>>,
        env: Map<Seq<char>, Seq<char>>,
        cwd: Option<Seq<char>>,
    },
}

/// The model of what a server is run with.
pub struct ConfigView {
    pub server_name: Seq<char>,
    pub transport: TransportView,
    pub tool_call_timeout_ms: u64,
}

impl View for McpTransport {
    type V = TransportView;

    open spec fn view(&self) -> TransportView {
        match self {
            McpTransport::StreamableHttp { url, headers } => TransportView::StreamableHttp {
                url: url@,
                headers: text_map(headers@),
            },
            McpTransport::Stdio { command, args, env, cwd } => TransportView::Stdio {
                command: command@,
                args: text_seq(args@),
                env: text_map(env@),
                cwd: text_view(*cwd),
            },
        }
    }
}

impl View for McpServerConfig {
    type V = ConfigView;

    open spec fn view(&self) -> ConfigView {
        ConfigView {
            server_name: self.server_name@,
            transport: self.transport@,
            tool_call_timeout_ms: self.tool_call_timeout_ms,
        }
    }
}

/// What a server of the settings is run with. A call may take a minute unless
/// the settings say otherwise.
pub open spec fn config_view(e: McpServerView) -> ConfigView {
    ConfigView {
        server_name: e.id,
        transport: match e.url {
            Some(url) => TransportView::StreamableHttp { url, headers: e.headers },
            None => TransportView::Stdio {
                command: e.command,
                args: e.args,
                env: e.env,
                cwd: e.cwd,
            },
        },
        tool_call_timeout_ms: match e.tool_call_timeout_ms {
            Some(ms) => ms,
            None => 60_000,
        },
    }
}

/// What a server of the settings is run with.
pub fn mcp_config_of(entry: &McpServerEntry) -> (r: McpServerConfig)
    ensures
        r@ == config_view(entry@),
{
    let transport = match &entry.url {
        Some(url) => McpTransport::StreamableHttp {
            url: url.clone(),
            headers: copy_text_map(&entry.headers),
        },
        None => McpTransport::Stdio {
            command: entry.command.clone(),
            args: copy_strings(&entry.args),
            env: copy_text_map(&entry.env),
            cwd: copy_text(&entry.cwd),
        },
    };
    McpServerConfig {
        server_name: entry.id.clone(),
        transport,
        tool_call_timeout_ms: match entry.tool_call_timeout_ms {
            Some(ms) => ms,
            None => 60_000,
        },
    }
}

fn covers(a: &StrMap<String>, b: &StrMap<String>) -> (r: bool)
    ensures
        r == (forall|i: int|
            0 <= i < a.entries@.len() ==> b@.dom().contains((#[trigger] a.entries@[i]).0@)
                && a@.dom().contains(a.entries@[i].0@) && b@[a.entries@[i].0@]@
                == a@[a.entries@[i].0@]@),
{
    let mut i: usize = 0;
    while i < a.entries.len()
        invariant
            i <= a.entries.len(),
            forall|k: int|
                0 <= k < i ==> b@.dom().contains((#[trigger] a.entries@[k]).0@) && a@.dom().contains(
                    a.entries@[k].0@,
                ) && b@[a.entries@[k].0@]@ == a@[a.entries@[k].0@]@,
        decreases a.entries.len() - i,
    {
        let key = a.entries[i].0.as_str();
        assert(key@ == a.entries@[i as int].0@);
        let good = match (a.get(key), b.get(key)) {
            (Some(x), Some(y)) => same(x.as_str(), y.as_str()),
            _ => false,
        };
        if !good {
            return false;
        }
        i = i + 1;
    }
    true
}

/// Every key of a map stands in one of its entries.
proof fn lemma_key_has_entry(m: StrMap<String>, k: Seq<char>)
    requires
        m@.dom().contains(k),
    ensures
        exists|i: int| 0 <= i < m.entries@.len() && (#[trigger] m.entries@[i]).0@ == k,
{
    crate::strmap::lemma_key_place(m.entries@, k);
    let i = crate::strmap::key_place(m.entries@, k);
    assert(m.entries@[i].0@ == k);
}

/// The key of every entry is in the map.
proof fn lemma_entry_has_key(m: StrMap<String>, i: int)
    requires
        0 <= i < m.entries@.len(),
    ensures
        m@.dom().contains(m.entries@[i].0@),
{
    let k = m.entries@[i].0@;
    crate::strmap::lemma_key_place(m.entries@, k);
    let p = crate::strmap::key_place(m.entries@, k);
    if p == m.entries@.len() {
        assert(m.entries@[i].0@ != k);
    }
}

fn same_map(a: &StrMap<String>, b: &StrMap<String>) -> (r: bool)
    ensures
        r == (text_map(a@) == text_map(b@)),
{
    let r = covers(a, b) && covers(b, a);
    proof {
        if r {
            assert forall|k: Seq<char>| text_map(a@).dom().contains(k) == text_map(b@).dom().contains(
                k,
            ) by {
                if a@.dom().contains(k) {
                    lemma_key_has_entry(*a, k);
                }
                if b@.dom().contains(k) {
                    lemma_key_has_entry(*b, k);
                }
            }
            assert forall|k: Seq<char>| text_map(a@).dom().contains(k) implies text_map(a@)[k]
                == text_map(b@)[k] by {
                lemma_key_has_entry(*a, k);
            }
            assert(text_map(a@) =~= text_map(b@));
        } else if text_map(a@) == text_map(b@) {
            assert forall|i: int| 0 <= i < a.entries@.len() implies b@.dom().contains(
                (#[trigger] a.entries@[i]).0@,
            ) && a@.dom().contains(a.entries@[i].0@) && b@[a.entries@[i].0@]@
                == a@[a.entries@[i].0@]@ by {
                lemma_entry_has_key(*a, i);
                let k = a.entries@[i].0@;
                assert(text_map(a@).dom().contains(k));
                assert(text_map(b@).dom().contains(k));
                assert(text_map(a@)[k] == a@[k]@);
                assert(text_map(b@)[k] == b@[k]@);
            }
            assert forall|i: int| 0 <= i < b.entries@.len() implies a@.dom().contains(
                (#[trigger] b.entries@[i]).0@,
            ) && b@.dom().contains(b.entries@[i].0@) && a@[b.entries@[i].0@]@
                == b@[b.entries@[i].0@]@ by {
                lemma_entry_has_key(*b, i);
                let k = b.entries@[i].0@;
                assert(text_map(b@).dom().contains(k));
                assert(text_map(a@).dom().contains(k));
                assert(text_map(a@)[k] == a@[k]@);
                assert(text_map(b@)[k] == b@[k]@);
            }
        }
    }
    r
}

fn same_texts(a: &Vec<String>, b: &Vec<String>) -> (r: bool)
    ensures
        r == (text_seq(a@) == text_seq(b@)),
{
    if a.len() != b.len() {
        assert(text_seq(a@).len() != text_seq(b@).len());
        return false;
    }
    let mut i: usize = 0;
    while i < a.len()
        invariant
            i <= a.len() == b.len(),
            forall|k: int| 0 <= k < i ==> text_seq(a@)[k] == text_seq(b@)[k],
        decreases a.len() - i,
    {
        if !same(a[i].as_str(), b[i].as_str()) {
            assert(text_seq(a@)[i as int] != text_seq(b@)[i as int]);
            return false;
        }
        i = i + 1;
    }
    assert(text_seq(a@) =~= text_seq(b@));
    true
}

/// Whether two texts that may be missing are the same.
pub fn same_option(a: &Option<String>, b: &Option<String>) -> (r: bool)
    ensures
        r == (text_view(*a) == text_view(*b)),
{
    match (a, b) {
        (Some(x), Some(y)) => same(x.as_str(), y.as_str()),
        (None, None) => true,
        _ => false,
    }
}

/// Whether two servers are run with the same.
pub fn same_config(a: &McpServerConfig, b: &McpServerConfig) -> (r: bool)
    ensures
        r == (a@ == b@),
{
    if !same(a.server_name.as_str(), b.server_name.as_str()) || a.tool_call_timeout_ms
        != b.tool_call_timeout_ms {
        return false;
    }
    match (&a.transport, &b.transport) {
        (
            McpTransport::StreamableHttp { url: u1, headers: h1 },
            McpTransport::StreamableHttp { url: u2, headers: h2 },
        ) => same(u1.as_str(), u2.as_str()) && same_map(h1, h2),
        (
            McpTransport::Stdio { command: c1, args: a1, env: e1, cwd: d1 },
            McpTransport::Stdio { command: c2, args: a2, env: e2, cwd: d2 },
        ) => same(c1.as_str(), c2.as_str()) && same_texts(a1, a2) && same_map(e1, e2)
            && same_option(d1, d2),
        _ => false,
    }
}

/// What is to be done to the running servers.
#[derive(Debug, PartialEq)]
pub enum PortAction {
    /// Stop the server.
    Stop(String),
    /// Start a server, in the place of the one of its id.
    Start(McpServerConfig),
}

/// The model of what is to be done.
pub enum PortView {
    Stop(Seq<char>),
    Start(ConfigView),
}

impl View for PortAction {
    type V = PortView;

    open spec fn view(&self) -> PortView {
        match self {
            PortAction::Stop(id) => PortView::Stop(id@),
            PortAction::Start(c) => PortView::Start(c@),
        }
    }
}

pub open spec fn port_views(v: Seq<PortAction>) -> Seq<PortView> {
    v.map_values(|a: PortAction| a@)
}

/// What the running servers are run with.
pub type Held = Map<Seq<char>, ConfigView>;

/// The model of what the running servers are run with.
pub open spec fn held_view(m: Map<Seq<char>, McpServerConfig>) -> Held {
    m.map_values(|c: McpServerConfig| c@)
}

/// Whether a server is in use.
pub open spec fn wanted(servers: Seq<McpServerView>, id: Seq<char>) -> bool {
    exists|i: int| 0 <= i < servers.len() && (#[trigger] servers[i]).enabled && servers[i].id == id
}

/// The ids, of some, that are not in use.
pub open spec fn unwanted(ids: Seq<Seq<char>>, servers: Seq<McpServerView>) -> Seq<PortView>
    decreases ids.len(),
{
    if ids.len() == 0 {
        Seq::empty()
    } else if wanted(servers, ids.last()) {
        unwanted(ids.drop_last(), servers)
    } else {
        unwanted(ids.drop_last(), servers).push(PortView::Stop(ids.last()))
    }
}

/// What starting the servers in use does: one that runs with what it is to be
/// run with goes on, any other is started.
pub open spec fn started(held: Held, servers: Seq<McpServerView>) -> (Held, Seq<PortView>)
    decreases servers.len(),
{
    if servers.len() == 0 {
        (held, Seq::empty())
    } else {
        let (now, done) = started(held, servers.drop_last());
        let e = servers.last();
        if !e.enabled || (now.dom().contains(e.id) && now[e.id] == config_view(e)) {
            (now, done)
        } else {
            (now.insert(e.id, config_view(e)), done.push(PortView::Start(config_view(e))))
        }
    }
}

/// The running servers without those that are not in use.
pub open spec fn kept(held: Held, servers: Seq<McpServerView>) -> Held {
    held.restrict(Set::new(|id: Seq<char>| wanted(servers, id)))
}

/// The ids of a map's entries.
pub open spec fn ids_of(entries: Seq<(String, McpServerConfig)>) -> Seq<Seq<char>> {
    entries.map_values(|e: (String, McpServerConfig)| e.0@)
}

fn is_wanted(servers: &Vec<McpServerEntry>, id: &str) -> (r: bool)
    ensures
        r == wanted(mcp_server_entry_views(servers@), id@),
{
    let ghost all = mcp_server_entry_views(servers@);
    let mut i: usize = 0;
    while i < servers.len()
        invariant
            i <= servers.len(),
            all == mcp_server_entry_views(servers@),
            forall|k: int| 0 <= k < i ==> !((#[trigger] all[k]).enabled && all[k].id == id@),
        decreases servers.len() - i,
    {
        assert(all[i as int] == servers@[i as int]@);
        if servers[i].enabled && same(servers[i].id.as_str(), id) {
            return true;
        }
        i = i + 1;
    }
    false
}

fn stop_unwanted(held: &mut StrMap<McpServerConfig>, servers: &Vec<McpServerEntry>) -> (r: Vec<
    PortAction,
>)
    requires
        old(held).wf(),
    ensures
        final(held).wf(),
        held_view(final(held)@) == kept(held_view(old(held)@), mcp_server_entry_views(servers@)),
        port_views(r@) == unwanted(ids_of(old(held).entries@), mcp_server_entry_views(servers@)),
{
    let ghost all = mcp_server_entry_views(servers@);
    let ghost first = held.entries@;
    let ghost ids = ids_of(first);
    let mut names: Vec<String> = Vec::new();
    let mut n: usize = 0;
    while n < held.entries.len()
        invariant
            n <= held.entries.len(),
            held.entries@ == first,
            names@.len() == n,
            forall|k: int| 0 <= k < n ==> (#[trigger] names@[k])@ == first[k].0@,
        decreases held.entries.len() - n,
    {
        names.push(held.entries[n].0.clone());
        n = n + 1;
    }
    let ghost start = held@;
    let mut out: Vec<PortAction> = Vec::new();
    let mut i: usize = 0;
    proof {
        assert(ids.take(0) =~= Seq::empty());
        assert(port_views(out@) =~= Seq::empty());
        assert forall|k: Seq<char>| start.dom().contains(k) implies exists|j: int|
            0 <= j < ids.len() && #[trigger] ids[j] == k by {
            crate::strmap::lemma_key_place(first, k);
            let p = crate::strmap::key_place(first, k);
            assert(ids[p] == k);
        }
    }
    while i < names.len()
        invariant
            i <= names.len(),
            names@.len() == ids.len(),
            ids == ids_of(first),
            first.len() == ids.len(),
            all == mcp_server_entry_views(servers@),
            held.wf(),
            forall|k: int| 0 <= k < names@.len() ==> (#[trigger] names@[k])@ == first[k].0@,
            port_views(out@) == unwanted(ids.take(i as int), all),
            forall|k: Seq<char>| #[trigger]
                held@.dom().contains(k) <==> start.dom().contains(k) && !(exists|j: int|
                    0 <= j < i && #[trigger] ids[j] == k && !wanted(all, k)),
            forall|k: Seq<char>| #[trigger] held@.dom().contains(k) ==> held@[k] == start[k],
        decreases names.len() - i,
    {
        let name = names[i].as_str();
        proof {
            assert(ids.take(i + 1).drop_last() =~= ids.take(i as int));
            assert(ids.take(i + 1).last() == name@);
            assert(ids[i as int] == name@);
        }
        if !is_wanted(servers, name) {
            let ghost before = held@;
            let gone = held.remove(name);
            let stop = PortAction::Stop(names[i].clone());
            assert(port_views(out@.push(stop)) =~= port_views(out@).push(stop@));
            out.push(stop);
            proof {
                assert forall|k: Seq<char>| #[trigger] held@.dom().contains(k) <==> start.dom().contains(
                    k,
                ) && !(exists|j: int| 0 <= j < i + 1 && #[trigger] ids[j] == k && !wanted(all, k)) by {
                    if k == name@ {
                        assert(ids[i as int] == k && !wanted(all, k));
                    } else {
                        assert(held@.dom().contains(k) == before.dom().contains(k));
                    }
                }
            }
        } else {
            proof {
                assert forall|k: Seq<char>| #[trigger] held@.dom().contains(k) <==> start.dom().contains(
                    k,
                ) && !(exists|j: int| 0 <= j < i + 1 && #[trigger] ids[j] == k && !wanted(all, k)) by {}
            }
        }
        i = i + 1;
    }
    proof {
        assert(ids.take(ids.len() as int) =~= ids);
        let wantedset = Set::new(|id: Seq<char>| wanted(all, id));
        assert(held_view(held@) =~= kept(held_view(start), all)) by {
            assert forall|k: Seq<char>| held_view(held@).dom().contains(k) == kept(
                held_view(start),
                all,
            ).dom().contains(k) by {
                assert(held_view(held@).dom().contains(k) == held@.dom().contains(k));
                if start.dom().contains(k) {
                    let j = choose|j: int| 0 <= j < ids.len() && #[trigger] ids[j] == k;
                    assert(ids[j] == k);
                }
            }
        }
    }
    out
}

/// Brings the running servers in step with the settings: those that are not in
/// use any more are stopped, those that are new or changed are started, the
/// others are left alone.
pub fn sync_mcp_ports(held: &mut StrMap<McpServerConfig>, servers: &Vec<McpServerEntry>) -> (r: Vec<
    PortAction,
>)
    requires
        old(held).wf(),
    ensures
        final(held).wf(),
        ({
            let all = mcp_server_entry_views(servers@);
            let (now, starts) = started(kept(held_view(old(held)@), all), all);
            &&& held_view(final(held)@) == now
            &&& port_views(r@) == unwanted(ids_of(old(held).entries@), all) + starts
        }),
{
    let ghost all = mcp_server_entry_views(servers@);
    let mut out = stop_unwanted(held, servers);
    let ghost stops = port_views(out@);
    let ghost base = held_view(held@);
    let mut i: usize = 0;
    proof {
        assert(all.take(0) =~= Seq::empty());
        assert(stops + Seq::<PortView>::empty() =~= stops);
    }
    while i < servers.len()
        invariant
            i <= servers.len(),
            all == mcp_server_entry_views(servers@),
            held.wf(),
            held_view(held@) == started(base, all.take(i as int)).0,
            port_views(out@) == stops + started(base, all.take(i as int)).1,
        decreases servers.len() - i,
    {
        let entry = &servers[i];
        proof {
            assert(all.take(i + 1).drop_last() =~= all.take(i as int));
            assert(all.take(i + 1).last() == entry@);
        }
        if entry.enabled {
            let config = mcp_config_of(entry);
            let ghost now = held@;
            let stale = match held.get(entry.id.as_str()) {
                Some(h) => {
                    proof {
                        assert(held_view(now).dom().contains(entry@.id));
                        assert(held_view(now)[entry@.id] == h@);
                    }
                    !same_config(h, &config)
                },
                None => {
                    assert(!held_view(now).dom().contains(entry@.id));
                    true
                },
            };
            if stale {
                let second = mcp_config_of(entry);
                held.insert(entry.id.clone(), second);
                let start = PortAction::Start(config);
                proof {
                    assert(held_view(held@) =~= held_view(now).insert(entry@.id, config_view(entry@)));
                    assert(port_views(out@.push(start)) =~= port_views(out@).push(start@));
                    let done = started(base, all.take(i as int)).1;
                    assert((stops + done).push(start@) =~= stops + done.push(start@));
                }
                out.push(start);
            }
        }
        i = i + 1;
    }
    assert(all.take(all.len() as int) =~= all);
    out
}

proof fn lemma_started(held: Held, servers: Seq<McpServerView>)
    ensures
        forall|id: Seq<char>| #[trigger]
            started(held, servers).0.dom().contains(id) <==> held.dom().contains(id) || wanted(
                servers,
                id,
            ),
    decreases servers.len(),
{
    if servers.len() > 0 {
        let rest = servers.drop_last();
        lemma_started(held, rest);
        let e = servers.last();
        assert forall|id: Seq<char>| wanted(servers, id) == (wanted(rest, id) || (e.enabled && e.id
            == id)) by {
            if wanted(rest, id) {
                let i = choose|i: int|
                    0 <= i < rest.len() && (#[trigger] rest[i]).enabled && rest[i].id == id;
                assert(servers[i] == rest[i]);
            }
            if e.enabled && e.id == id {
                assert(servers[servers.len() - 1].enabled);
            }
            if wanted(servers, id) && !(e.enabled && e.id == id) {
                let i = choose|i: int|
                    0 <= i < servers.len() && (#[trigger] servers[i]).enabled && servers[i].id == id;
                assert(rest[i] == servers[i]);
            }
        }
        assert forall|id: Seq<char>| #[trigger]
            started(held, servers).0.dom().contains(id) <==> held.dom().contains(id) || wanted(
                servers,
                id,
            ) by {
            assert(started(held, rest).0.dom().contains(id) <==> held.dom().contains(id) || wanted(
                rest,
                id,
            ));
        }
    }
}

/// After the servers are brought in step, exactly those in use are running.
pub proof fn law_running_are_those_in_use(held: Held, servers: Seq<McpServerView>, id: Seq<char>)
    ensures
        started(kept(held, servers), servers).0.dom().contains(id) <==> wanted(servers, id),
{
    lemma_started(kept(held, servers), servers);
}

proof fn lemma_started_settled(held: Held, servers: Seq<McpServerView>)
    requires
        forall|i: int|
            0 <= i < servers.len() && (#[trigger] servers[i]).enabled ==> held.dom().contains(
                servers[i].id,
            ) && held[servers[i].id] == config_view(servers[i]),
    ensures
        started(held, servers) == (held, Seq::<PortView>::empty()),
    decreases servers.len(),
{
    if servers.len() > 0 {
        let rest = servers.drop_last();
        assert forall|i: int| 0 <= i < rest.len() && (#[trigger] rest[i]).enabled implies held.dom().contains(
            rest[i].id,
        ) && held[rest[i].id] == config_view(rest[i]) by {
            assert(servers[i] == rest[i]);
        }
        lemma_started_settled(held, rest);
        assert(servers[servers.len() - 1] == servers.last());
    }
}

proof fn lemma_started_has_configs(held: Held, servers: Seq<McpServerView>)
    requires
        forall|i: int, j: int|
            0 <= i < j < servers.len() ==> (#[trigger] servers[i]).id != (#[trigger] servers[j]).id,
    ensures
        forall|i: int|
            0 <= i < servers.len() && (#[trigger] servers[i]).enabled ==> started(
                held,
                servers,
            ).0.dom().contains(servers[i].id) && started(held, servers).0[servers[i].id]
                == config_view(servers[i]),
    decreases servers.len(),
{
    if servers.len() > 0 {
        let rest = servers.drop_last();
        assert forall|i: int, j: int| 0 <= i < j < rest.len() implies (#[trigger] rest[i]).id != (
        #[trigger] rest[j]).id by {
            assert(rest[i] == servers[i] && rest[j] == servers[j]);
        }
        lemma_started_has_configs(held, rest);
        let e = servers.last();
        assert forall|i: int| 0 <= i < servers.len() && (#[trigger] servers[i]).enabled implies started(
            held,
            servers,
        ).0.dom().contains(servers[i].id) && started(held, servers).0[servers[i].id]
            == config_view(servers[i]) by {
            if i < rest.len() {
                assert(rest[i] == servers[i]);
                assert(servers[i].id != servers[servers.len() - 1].id);
            }
        }
    }
}

/// Bringing the servers in step twice does nothing the second time, where the
/// settings hold no id twice.
pub proof fn law_sync_settles(held: Held, servers: Seq<McpServerView>)
    requires
        forall|i: int, j: int|
            0 <= i < j < servers.len() ==> (#[trigger] servers[i]).id != (#[trigger] servers[j]).id,
    ensures
        ({
            let now = started(kept(held, servers), servers).0;
            kept(now, servers) == now && started(now, servers) == (now, Seq::<PortView>::empty())
        }),
{
    let now = started(kept(held, servers), servers).0;
    lemma_started_has_configs(kept(held, servers), servers);
    lemma_started_settled(now, servers);
    assert(kept(now, servers) =~= now) by {
        assert forall|id: Seq<char>| now.dom().contains(id) implies wanted(servers, id) by {
            law_running_are_those_in_use(held, servers, id);
        }
    }
}

/// A server is run with what the settings say of it: under its id; one with a URL by its
/// URL and headers, any other by its command, arguments, variables and directory; a call
/// may take as long as is set, else a minute.
pub proof fn law_server_is_run_as_set(e: McpServerView)
    ensures
        config_view(e).server_name == e.id,
        e.url matches Some(u) ==> (config_view(e).transport matches TransportView::StreamableHttp {
            url,
            headers,
        } && url == u && headers == e.headers),
        e.url is None ==> (config_view(e).transport matches TransportView::Stdio {
            command,
            args,
            env,
            cwd,
        } && command == e.command && args == e.args && env == e.env && cwd == e.cwd),
        e.tool_call_timeout_ms matches Some(ms) ==> config_view(e).tool_call_timeout_ms == ms,
        e.tool_call_timeout_ms is None ==> config_view(e).tool_call_timeout_ms == 60_000,
{
}

proof fn lemma_unwanted(ids: Seq<Seq<char>>, servers: Seq<McpServerView>, id: Seq<char>)
    ensures
        unwanted(ids, servers).contains(PortView::Stop(id)) <==> ids.contains(id) && !wanted(
            servers,
            id,
        ),
        forall|j: int|
            0 <= j < unwanted(ids, servers).len() ==> #[trigger] unwanted(ids, servers)[j] is Stop,
    decreases ids.len(),
{
    let out = unwanted(ids, servers);
    if ids.len() > 0 {
        let rest = ids.drop_last();
        let kept = unwanted(rest, servers);
        lemma_unwanted(rest, servers, id);
        assert(ids[ids.len() - 1] == ids.last());
        if ids.contains(id) && !wanted(servers, id) {
            let k = choose|k: int| 0 <= k < ids.len() && ids[k] == id;
            if k < rest.len() {
                assert(rest[k] == id);
                let j = choose|j: int| 0 <= j < kept.len() && kept[j] == PortView::Stop(id);
                assert(out[j] == PortView::Stop(id));
            } else {
                assert(out[out.len() - 1] == PortView::Stop(id));
            }
        }
        if out.contains(PortView::Stop(id)) {
            let j = choose|j: int| 0 <= j < out.len() && out[j] == PortView::Stop(id);
            if j < kept.len() {
                assert(kept[j] == PortView::Stop(id));
                let k = choose|k: int| 0 <= k < rest.len() && rest[k] == id;
                assert(ids[k] == id);
            }
        }
    }
}

proof fn lemma_started_elsewhere(held: Held, servers: Seq<McpServerView>, id: Seq<char>)
    requires
        forall|i: int| 0 <= i < servers.len() ==> (#[trigger] servers[i]).id != id,
    ensures
        started(held, servers).0.dom().contains(id) == held.dom().contains(id),
        started(held, servers).0[id] == held[id],
    decreases servers.len(),
{
    if servers.len() > 0 {
        let rest = servers.drop_last();
        assert forall|i: int| 0 <= i < rest.len() implies (#[trigger] rest[i]).id != id by {
            assert(servers[i].id != id);
        }
        lemma_started_elsewhere(held, rest, id);
        assert(servers[servers.len() - 1].id != id);
    }
}

proof fn lemma_started_exactly(held: Held, servers: Seq<McpServerView>, c: ConfigView)
    requires
        forall|i: int, j: int|
            0 <= i < j < servers.len() ==> (#[trigger] servers[i]).id != (#[trigger] servers[j]).id,
    ensures
        started(held, servers).1.contains(PortView::Start(c)) <==> exists|i: int|
            0 <= i < servers.len() && (#[trigger] servers[i]).enabled && config_view(servers[i]) == c
                && !(held.dom().contains(servers[i].id) && held[servers[i].id] == c),
        forall|j: int|
            0 <= j < started(held, servers).1.len() ==> #[trigger] started(held, servers).1[j]
                is Start,
    decreases servers.len(),
{
    if servers.len() > 0 {
        let rest = servers.drop_last();
        let e = servers.last();
        let n = servers.len() - 1;
        assert(servers[n] == e);
        assert forall|i: int, j: int| 0 <= i < j < rest.len() implies (#[trigger] rest[i]).id != (
        #[trigger] rest[j]).id by {
            assert(servers[i].id != servers[j].id);
        }
        lemma_started_exactly(held, rest, c);
        let (now, done) = started(held, rest);
        let (after, all) = started(held, servers);
        assert forall|i: int| 0 <= i < rest.len() implies (#[trigger] rest[i]).id != e.id by {
            assert(servers[i].id != servers[n].id);
        }
        lemma_started_elsewhere(held, rest, e.id);
        if all.contains(PortView::Start(c)) {
            let j = choose|j: int| 0 <= j < all.len() && all[j] == PortView::Start(c);
            if j < done.len() {
                assert(done[j] == PortView::Start(c));
                let i = choose|i: int|
                    0 <= i < rest.len() && (#[trigger] rest[i]).enabled && config_view(rest[i]) == c
                        && !(held.dom().contains(rest[i].id) && held[rest[i].id] == c);
                assert(servers[i] == rest[i]);
            } else {
                assert(servers[n].enabled && config_view(servers[n]) == c);
            }
        }
        if exists|i: int|
            0 <= i < servers.len() && (#[trigger] servers[i]).enabled && config_view(servers[i]) == c
                && !(held.dom().contains(servers[i].id) && held[servers[i].id] == c) {
            let i = choose|i: int|
                0 <= i < servers.len() && (#[trigger] servers[i]).enabled && config_view(servers[i])
                    == c && !(held.dom().contains(servers[i].id) && held[servers[i].id] == c);
            if i < rest.len() {
                assert(rest[i] == servers[i]);
                let j = choose|j: int| 0 <= j < done.len() && done[j] == PortView::Start(c);
                assert(all[j] == PortView::Start(c));
            } else {
                assert(all[all.len() - 1] == PortView::Start(c));
            }
        }
    }
}

/// Bringing the running servers in step stops exactly those that run and are not in use,
/// and starts exactly those in use that do not run with what is set; a server that runs
/// with what is set is left alone. What is stopped is stopped before anything starts.
pub proof fn law_only_changed_servers_are_touched(
    held: Held,
    ids: Seq<Seq<char>>,
    servers: Seq<McpServerView>,
    id: Seq<char>,
    c: ConfigView,
)
    requires
        forall|i: int, j: int|
            0 <= i < j < servers.len() ==> (#[trigger] servers[i]).id != (#[trigger] servers[j]).id,
    ensures
        unwanted(ids, servers).contains(PortView::Stop(id)) <==> ids.contains(id) && !wanted(
            servers,
            id,
        ),
        forall|j: int|
            0 <= j < unwanted(ids, servers).len() ==> #[trigger] unwanted(ids, servers)[j] is Stop,
        started(kept(held, servers), servers).1.contains(PortView::Start(c)) <==> exists|i: int|
            0 <= i < servers.len() && (#[trigger] servers[i]).enabled && config_view(servers[i]) == c
                && !(held.dom().contains(servers[i].id) && held[servers[i].id] == c),
        forall|j: int|
            0 <= j < started(kept(held, servers), servers).1.len() ==> #[trigger] started(
                kept(held, servers),
                servers,
            ).1[j] is Start,
{
    lemma_unwanted(ids, servers, id);
    let left = kept(held, servers);
    lemma_started_exactly(left, servers, c);
    assert forall|i: int| 0 <= i < servers.len() && (#[trigger] servers[i]).enabled implies (
    left.dom().contains(servers[i].id) && left[servers[i].id] == c) == (held.dom().contains(
        servers[i].id,
    ) && held[servers[i].id] == c) by {
        assert(wanted(servers, servers[i].id));
    }
}

/// A server is wanted where one under its id is in use.
pub proof fn law_wanted_servers_are_in_use(servers: Seq<McpServerView>, id: Seq<char>)
    ensures
        !wanted(servers, id) <==> forall|i: int|
            0 <= i < servers.len() && (#[trigger] servers[i]).id == id ==> !servers[i].enabled,
{
}

} // verus!
