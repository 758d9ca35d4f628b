//! Servers of tools: reading them out of JSON, keeping them in the settings,
//! and keeping the running ones in step with the settings.
use vstd::prelude::*;
use vstd::string::*;

use crate::interact::text_view;
use crate::json::{
    Json, JsonTree, ascending, entry_trees, items_at, items_of, lemma_lookup_push, lookup, member,
    parse, parsed_value, trees,
};
use crate::proto::{ErrorView, RpcError, error_view};
use crate::settings::{
    McpServerEntry, McpServerView, SettingsFile, SettingsView, bare_server, mcp_server_entry_views,
    text_map, text_seq,
};
use crate::strmap::StrMap;
use crate::text::{
    blank, chars_of, is_blank, joined, lemma_text_before_differs, lower, lowered, same, text_before,
};

verus! {

/// The texts that an object holds; a member that is no text counts as empty.
pub open spec fn object_texts(entries: Seq<(Seq<char>, JsonTree)>) -> Map<Seq<char>, Seq<char>> {
    Map::new(
        |k: Seq<char>| lookup(entries, k) is Some,
        |k: Seq<char>|
            match lookup(entries, k)->0.as_text() {
                Some(s) => s,
                None => Seq::empty(),
            },
    )
}

/// The texts under a key; none where there is no object.
pub open spec fn texts_under(t: JsonTree, key: Seq<char>) -> Map<Seq<char>, Seq<char>> {
    match t.at(key) {
        JsonTree::Object(entries) => object_texts(entries),
        _ => Map::empty(),
    }
}

/// The texts of some values; one that is no text counts as empty.
pub open spec fn texts_or_empty(all: Seq<JsonTree>) -> Seq<Seq<char>> {
    all.map_values(
        |t: JsonTree|
            match t.as_text() {
                Some(s) => s,
                None => Seq::empty(),
            },
    )
}

/// The member under one key, or under another where there is none.
pub open spec fn either(t: JsonTree, first: Seq<char>, second: Seq<char>) -> Option<JsonTree> {
    match t.get(first) {
        Some(v) => Some(v),
        None => t.get(second),
    }
}

/// The way to reach a server that its description names.
pub open spec fn declared(spec_tree: JsonTree) -> Option<Seq<char>> {
    match either(spec_tree, "transport"@, "type"@) {
        Some(t) => match t.as_text() {
            Some(s) => Some(lowered(s)),
            None => None,
        },
        None => None,
    }
}

/// Whether a description is that of a server under a URL: it says so, or it
/// says nothing and has a URL.
pub open spec fn described_http(spec_tree: JsonTree) -> bool {
    match declared(spec_tree) {
        Some(d) => d == "http"@ || d == "streamable-http"@,
        None => spec_tree.get("url"@) is Some,
    }
}

/// The server that a description stands for, or what is wrong with it.
pub open spec fn server_from(name: Seq<char>, spec_tree: JsonTree) -> Result<
    McpServerView,
    Seq<char>,
> {
    if declared(spec_tree) == Some("sse"@) {
        Err(name + ": 暂不支持 SSE 传输(仅 stdio / streamable-http)"@)
    } else if described_http(spec_tree) {
        match spec_tree.at("url"@).as_text() {
            Some(url) => if is_blank(url) {
                Err(name + ": http 传输需要 url"@)
            } else {
                Ok(
                    McpServerView {
                        url: Some(url),
                        headers: texts_under(spec_tree, "headers"@),
                        ..bare_server(name)
                    },
                )
            },
            None => Err(name + ": http 传输需要 url"@),
        }
    } else {
        match spec_tree.at("command"@).as_text() {
            Some(command) => Ok(
                McpServerView {
                    command,
                    args: texts_or_empty(items_at(spec_tree, "args"@)),
                    env: texts_under(spec_tree, "env"@),
                    cwd: spec_tree.at("cwd"@).as_text(),
                    ..bare_server(name)
                },
            ),
            None => Err(name + ": 缺少 command(http 传输需 url)"@),
        }
    }
}

/// The servers that descriptions stand for, or what is wrong with the first bad
/// one.
pub open spec fn servers_from(entries: Seq<(Seq<char>, JsonTree)>) -> Result<
    Seq<McpServerView>,
    Seq<char>,
>
    decreases entries.len(),
{
    if entries.len() == 0 {
        Ok(Seq::empty())
    } else {
        match servers_from(entries.drop_last()) {
            Err(e) => Err(e),
            Ok(done) => match server_from(entries.last().0, entries.last().1) {
                Err(e) => Err(e),
                Ok(s) => Ok(done.push(s)),
            },
        }
    }
}

/// The descriptions that a document holds: a map of them, or a single one that
/// names itself.
pub open spec fn descriptions(doc: JsonTree) -> Result<Seq<(Seq<char>, JsonTree)>, Seq<char>> {
    match doc.get("mcpServers"@) {
        Some(JsonTree::Object(entries)) => Ok(entries),
        _ => if doc.get("command"@) is Some || doc.get("url"@) is Some || doc.get("id"@) is Some
            || doc.get("name"@) is Some {
            match either(doc, "id"@, "name"@) {
                Some(JsonTree::Text(name)) => Ok(seq![(name, doc)]),
                _ => Err("单 server 形态需要 id 或 name 字段"@),
            }
        } else {
            Err("缺少 mcpServers 映射"@)
        },
    }
}

/// The servers that a document describes: all of them, or what is wrong.
pub open spec fn described_servers(doc: JsonTree) -> Result<Seq<McpServerView>, Seq<char>> {
    match descriptions(doc) {
        Err(e) => Err(e),
        Ok(entries) => if entries.len() == 0 {
            Err("mcpServers 为空"@)
        } else {
            servers_from(entries)
        },
    }
}

pub proof fn lemma_object_texts_push(
    entries: Seq<(Seq<char>, JsonTree)>,
    key: Seq<char>,
    value: JsonTree,
)
    ensures
        object_texts(entries.push((key, value))) == (if lookup(entries, key) is Some {
            object_texts(entries)
        } else {
            object_texts(entries).insert(
                key,
                match value.as_text() {
                    Some(s) => s,
                    None => Seq::empty(),
                },
            )
        }),
{
    let more = entries.push((key, value));
    let wanted = if lookup(entries, key) is Some {
        object_texts(entries)
    } else {
        object_texts(entries).insert(
            key,
            match value.as_text() {
                Some(s) => s,
                None => Seq::empty(),
            },
        )
    };
    assert forall|k: Seq<char>| object_texts(more).dom().contains(k) == wanted.dom().contains(k) by {
        lemma_lookup_push(entries, key, value, k);
    }
    assert forall|k: Seq<char>| object_texts(more).dom().contains(k) implies object_texts(more)[k]
        == wanted[k] by {
        lemma_lookup_push(entries, key, value, k);
    }
    assert(object_texts(more) =~= wanted);
}

fn texts_map(j: &Json, key: &str) -> (r: StrMap<String>)
    ensures
        r.wf(),
        text_map(r@) == texts_under(j@, key@),
{
    let mut out: StrMap<String> = StrMap::new();
    assert(text_map(out@) =~= Map::empty());
    let object = match j.get(key) {
        Some(v) => v,
        None => {
            return out;
        },
    };
    let entries = match object.as_object() {
        Some(v) => v,
        None => {
            return out;
        },
    };
    let ghost all = entry_trees(entries@);
    let mut i: usize = 0;
    assert(object_texts(all.take(0)) =~= Map::empty()) by {
        assert(all.take(0) =~= Seq::empty());
    }
    while i < entries.len()
        invariant
            i <= entries.len(),
            all == entry_trees(entries@),
            out.wf(),
            text_map(out@) == object_texts(all.take(i as int)),
        decreases entries.len() - i,
    {
        let name = entries[i].0.as_str();
        let ghost seen = all.take(i as int);
        let ghost before = out@;
        proof {
            assert(all.take(i + 1) =~= seen.push(all[i as int]));
            assert(all[i as int] == (name@, entries@[i as int].1@));
            lemma_object_texts_push(seen, name@, entries@[i as int].1@);
            assert(object_texts(seen).dom().contains(name@) == (lookup(seen, name@) is Some));
            assert(text_map(before).dom().contains(name@) == before.dom().contains(name@));
        }
        if !out.contains(name) {
            let text = match entries[i].1.as_str() {
                Some(s) => s.to_owned(),
                None => String::new(),
            };
            out.insert(name.to_owned(), text);
            assert(text_map(out@) =~= text_map(before).insert(name@, text@));
        }
        i = i + 1;
    }
    assert(all.take(all.len() as int) =~= all);
    out
}

fn texts_list(j: &Json, key: &str) -> (r: Vec<String>)
    ensures
        text_seq(r@) == texts_or_empty(items_at(j@, key@)),
{
    let none: Vec<Json> = Vec::new();
    let items = items_of(j, key, &none);
    let ghost wanted = texts_or_empty(trees(items@));
    let mut out: Vec<String> = Vec::new();
    let mut i: usize = 0;
    while i < items.len()
        invariant
            i <= items.len(),
            wanted == texts_or_empty(trees(items@)),
            text_seq(out@) == wanted.take(i as int),
        decreases items.len() - i,
    {
        let text = match items[i].as_str() {
            Some(s) => s.to_owned(),
            None => String::new(),
        };
        proof {
            assert(trees(items@)[i as int] == items@[i as int]@);
            assert(wanted[i as int] =~= text@);
            assert(text_seq(out@.push(text)) =~= text_seq(out@).push(text@));
            assert(wanted.take(i + 1) =~= wanted.take(i as int).push(text@));
        }
        out.push(text);
        i = i + 1;
    }
    assert(wanted.take(wanted.len() as int) =~= wanted);
    out
}

fn declared_transport(description: &Json) -> (r: Option<String>)
    ensures
        text_view(r) == declared(description@),
{
    let hit = match description.get("transport") {
        Some(v) => Some(v),
        None => description.get("type"),
    };
    match hit {
        Some(v) => match v.as_str() {
            Some(s) => Some(lower(s)),
            None => None,
        },
        None => None,
    }
}

/// Reads one server out of its description.
pub fn parse_server(name: &str, description: &Json) -> (r: Result<McpServerEntry, String>)
    ensures
        match server_from(name@, description@) {
            Ok(v) => r is Ok && r->Ok_0@ == v && r->Ok_0.wf(),
            Err(e) => r is Err && r->Err_0@ == e,
        },
{
    let transport = declared_transport(description);
    let is_http = match &transport {
        Some(d) => {
            if same(d.as_str(), "sse") {
                return Err(
                    joined(name, ": 暂不支持 SSE 传输(仅 stdio / streamable-http)"),
                );
            }
            same(d.as_str(), "http") || same(d.as_str(), "streamable-http")
        },
        None => match description.get("url") {
            Some(_) => true,
            None => false,
        },
    };
    if is_http {
        let url = match description.str_at("url") {
            Some(s) => s,
            None => {
                return Err(joined(name, ": http 传输需要 url"));
            },
        };
        if blank(url) {
            return Err(joined(name, ": http 传输需要 url"));
        }
        let mut entry = McpServerEntry::bare(name.to_owned());
        entry.url = Some(url.to_owned());
        entry.headers = texts_map(description, "headers");
        Ok(entry)
    } else {
        let command = match description.str_at("command") {
            Some(s) => s,
            None => {
                return Err(joined(name, ": 缺少 command(http 传输需 url)"));
            },
        };
        let mut entry = McpServerEntry::bare(name.to_owned());
        entry.command = command.to_owned();
        entry.args = texts_list(description, "args");
        entry.env = texts_map(description, "env");
        entry.cwd = match description.str_at("cwd") {
            Some(s) => Some(s.to_owned()),
            None => None,
        };
        Ok(entry)
    }
}

proof fn lemma_first_bad(entries: Seq<(Seq<char>, JsonTree)>, n: int, e: Seq<char>)
    requires
        0 <= n <= entries.len(),
        servers_from(entries.take(n)) == Err::<Seq<McpServerView>, Seq<char>>(e),
    ensures
        servers_from(entries) == Err::<Seq<McpServerView>, Seq<char>>(e),
    decreases entries.len() - n,
{
    if n < entries.len() {
        assert(entries.take(n + 1).drop_last() =~= entries.take(n));
        lemma_first_bad(entries, n + 1, e);
    } else {
        assert(entries.take(n) =~= entries);
    }
}

fn parse_servers(entries: &Vec<(String, Json)>) -> (r: Result<Vec<McpServerEntry>, String>)
    ensures
        match servers_from(entry_trees(entries@)) {
            Ok(v) => r is Ok && mcp_server_entry_views(r->Ok_0@) == v && forall|i: int|
                0 <= i < r->Ok_0@.len() ==> (#[trigger] r->Ok_0@[i]).wf(),
            Err(e) => r is Err && r->Err_0@ == e,
        },
{
    let ghost all = entry_trees(entries@);
    let mut out: Vec<McpServerEntry> = Vec::new();
    let mut i: usize = 0;
    proof {
        assert(all.take(0) =~= Seq::empty());
        assert(mcp_server_entry_views(out@) =~= Seq::empty());
    }
    while i < entries.len()
        invariant
            i <= entries.len(),
            all == entry_trees(entries@),
            servers_from(all.take(i as int)) == Ok::<Seq<McpServerView>, Seq<char>>(
                mcp_server_entry_views(out@),
            ),
            forall|k: int| 0 <= k < out@.len() ==> (#[trigger] out@[k]).wf(),
        decreases entries.len() - i,
    {
        proof {
            assert(all.take(i + 1).drop_last() =~= all.take(i as int));
            assert(all.take(i + 1).last() == (entries@[i as int].0@, entries@[i as int].1@));
        }
        match parse_server(entries[i].0.as_str(), &entries[i].1) {
            Ok(s) => {
                assert(mcp_server_entry_views(out@.push(s)) =~= mcp_server_entry_views(out@).push(
                    s@,
                ));
                out.push(s);
            },
            Err(e) => {
                proof {
                    lemma_first_bad(all, i + 1, e@);
                }
                return Err(e);
            },
        }
        i = i + 1;
    }
    assert(all.take(all.len() as int) =~= all);
    Ok(out)
}

fn has_member(j: &Json, key: &str) -> (r: bool)
    ensures
        r == (j@.get(key@) is Some),
{
    match j.get(key) {
        Some(_) => true,
        None => false,
    }
}

/// Reads the servers that a document describes: a map of them under
/// `mcpServers`, or a single one that names itself. One bad description refuses
/// the whole document.
pub fn servers_in(doc: &Json) -> (r: Result<Vec<McpServerEntry>, String>)
    ensures
        match described_servers(doc@) {
            Ok(v) => r is Ok && mcp_server_entry_views(r->Ok_0@) == v && forall|i: int|
                0 <= i < r->Ok_0@.len() ==> (#[trigger] r->Ok_0@[i]).wf(),
            Err(e) => r is Err && r->Err_0@ == e,
        },
{
    if let Some(map) = doc.get("mcpServers") {
        if let Some(entries) = map.as_object() {
            if entries.len() == 0 {
                return Err("mcpServers 为空".to_owned());
            }
            return parse_servers(entries);
        }
    }
    if has_member(doc, "command") || has_member(doc, "url") || has_member(doc, "id") || has_member(
        doc,
        "name",
    ) {
        let named = match doc.get("id") {
            Some(v) => Some(v),
            None => doc.get("name"),
        };
        let name = match named {
            Some(v) => v.as_str(),
            None => None,
        };
        match name {
            Some(name) => {
                let mut single: Vec<(String, Json)> = Vec::new();
                single.push((name.to_owned(), doc.copy()));
                assert(entry_trees(single@) =~= seq![(name@, doc@)]);
                parse_servers(&single)
            },
            None => Err("单 server 形态需要 id 或 name 字段".to_owned()),
        }
    } else {
        Err("缺少 mcpServers 映射".to_owned())
    }
}

/// Reads the servers that JSON text describes.
pub fn parse_mcp_servers_json(text: &str) -> (r: Result<Vec<McpServerEntry>, String>)
    ensures
        match parsed_value(text@) {
            Err(e) => r is Err && r->Err_0@ == "JSON 解析失败:"@ + e,
            Ok(doc) => match described_servers(doc) {
                Ok(v) => r is Ok && mcp_server_entry_views(r->Ok_0@) == v && forall|i: int|
                    0 <= i < r->Ok_0@.len() ==> (#[trigger] r->Ok_0@[i]).wf(),
                Err(e) => r is Err && r->Err_0@ == e,
            },
        },
{
    match parse(text) {
        Ok(doc) => servers_in(&doc),
        Err(e) => Err(joined("JSON 解析失败:", e.as_str())),
    }
}

proof fn lemma_server_keeps_name(entries: Seq<(Seq<char>, JsonTree)>)
    requires
        servers_from(entries) is Ok,
    ensures
        servers_from(entries)->Ok_0.len() == entries.len(),
        forall|i: int|
            0 <= i < entries.len() ==> (#[trigger] servers_from(entries)->Ok_0[i]).id
                == entries[i].0,
    decreases entries.len(),
{
    if entries.len() > 0 {
        lemma_server_keeps_name(entries.drop_last());
        let done = servers_from(entries.drop_last())->Ok_0;
        let all = servers_from(entries)->Ok_0;
        assert forall|i: int| 0 <= i < entries.len() implies (#[trigger] all[i]).id == entries[i].0 by {
            if i < done.len() {
                assert(all[i] == done[i]);
                assert(entries.drop_last()[i] == entries[i]);
            }
        }
    }
}

/// The servers that a document describes have different ids.
pub proof fn law_described_ids_differ(doc: JsonTree, i: int, j: int)
    requires
        doc.canonical(),
        described_servers(doc) is Ok,
        0 <= i < j < described_servers(doc)->Ok_0.len(),
    ensures
        described_servers(doc)->Ok_0[i].id != described_servers(doc)->Ok_0[j].id,
{
    let entries = descriptions(doc)->Ok_0;
    lemma_server_keeps_name(entries);
    match doc.get("mcpServers"@) {
        Some(JsonTree::Object(map)) => {
            lemma_member_canonical(doc->Object_0, "mcpServers"@);
            assert(ascending(map));
            assert(text_before(entries[i].0, entries[j].0));
            lemma_text_before_differs(entries[i].0, entries[j].0);
        },
        _ => {
            assert(entries.len() == 1);
        },
    }
}

proof fn lemma_member_canonical(entries: Seq<(Seq<char>, JsonTree)>, key: Seq<char>)
    requires
        forall|i: int| 0 <= i < entries.len() ==> (#[trigger] entries[i]).1.canonical(),
    ensures
        lookup(entries, key) matches Some(t) ==> t.canonical(),
    decreases entries.len(),
{
    if entries.len() > 0 {
        assert(entries[0].1.canonical());
        let rest = entries.drop_first();
        assert forall|i: int| 0 <= i < rest.len() implies (#[trigger] rest[i]).1.canonical() by {
            assert(rest[i] == entries[i + 1]);
        }
        lemma_member_canonical(rest, key);
    }
}

// Servers in the settings.

/// A character of an id that is part of the names of tools.
pub open spec fn is_id_char(c: char) -> bool {
    ||| '0' <= c && c <= '9'
    ||| 'A' <= c && c <= 'Z'
    ||| 'a' <= c && c <= 'z'
    ||| c == '_'
    ||| c == '-'
}

/// An id that can be part of the names of tools.
pub open spec fn is_tool_id(id: Seq<char>) -> bool {
    id.len() > 0 && forall|i: int| 0 <= i < id.len() ==> is_id_char(#[trigger] id[i])
}

/// Whether an id can be part of the names of tools.
pub fn good_tool_id(id: &str) -> (r: bool)
    ensures
        r == is_tool_id(id@),
{
    let v = chars_of(id);
    if v.len() == 0 {
        return false;
    }
    let mut i: usize = 0;
    while i < v.len()
        invariant
            i <= v.len(),
            v@ == id@,
            forall|k: int| 0 <= k < i ==> is_id_char(#[trigger] id@[k]),
        decreases v.len() - i,
    {
        let c = v[i];
        let good = ('0' <= c && c <= '9') || ('A' <= c && c <= 'Z') || ('a' <= c && c <= 'z') || c
            == '_' || c == '-';
        if !good {
            assert(!is_id_char(id@[i as int]));
            return false;
        }
        i = i + 1;
    }
    true
}

/// What is wrong with a server; nothing where it can be kept.
pub open spec fn server_fault(e: McpServerView) -> Option<ErrorView> {
    if !is_tool_id(e.id) {
        Some(error_view("bad-request"@, "id 仅限 ASCII 字母/数字/下划线/连字符"@))
    } else {
        match e.url {
            Some(url) => if is_blank(url) {
                Some(error_view("bad-request"@, "http 传输需要 url"@))
            } else {
                None
            },
            None => if is_blank(e.command) {
                Some(error_view("bad-request"@, "command 不能为空"@))
            } else {
                None
            },
        }
    }
}

/// Says what is wrong with a server.
pub fn check_server(e: &McpServerEntry) -> (r: Result<(), RpcError>)
    ensures
        match server_fault(e@) {
            None => r is Ok,
            Some(f) => r is Err && r->Err_0@ == f,
        },
{
    if !good_tool_id(e.id.as_str()) {
        return Err(RpcError::bad_request("id 仅限 ASCII 字母/数字/下划线/连字符"));
    }
    match &e.url {
        Some(url) => if blank(url.as_str()) {
            Err(RpcError::bad_request("http 传输需要 url"))
        } else {
            Ok(())
        },
        None => if blank(e.command.as_str()) {
            Err(RpcError::bad_request("command 不能为空"))
        } else {
            Ok(())
        },
    }
}

/// The place of the first server under an id; their number where there is none.
pub open spec fn server_place(all: Seq<McpServerView>, id: Seq<char>) -> int
    decreases all.len(),
{
    if all.len() == 0 || all[0].id == id {
        0
    } else {
        1 + server_place(all.drop_first(), id)
    }
}

/// The servers with one more, or with one in the place of another of its id.
pub open spec fn with_server(all: Seq<McpServerView>, e: McpServerView) -> Seq<McpServerView> {
    let k = server_place(all, e.id);
    if k < all.len() {
        all.update(k, e)
    } else {
        all.push(e)
    }
}

/// The servers without those under an id.
pub open spec fn without_server(all: Seq<McpServerView>, id: Seq<char>) -> Seq<McpServerView>
    decreases all.len(),
{
    if all.len() == 0 {
        Seq::empty()
    } else if all.last().id == id {
        without_server(all.drop_last(), id)
    } else {
        without_server(all.drop_last(), id).push(all.last())
    }
}

proof fn lemma_server_place(all: Seq<McpServerView>, id: Seq<char>, k: int)
    requires
        0 <= k <= all.len(),
        k < all.len() ==> all[k].id == id,
        forall|i: int| 0 <= i < k ==> (#[trigger] all[i]).id != id,
    ensures
        server_place(all, id) == k,
    decreases k,
{
    if k > 0 {
        assert(all[0].id != id);
        let rest = all.drop_first();
        assert forall|i: int| 0 <= i < k - 1 implies (#[trigger] rest[i]).id != id by {
            assert(rest[i] == all[i + 1]);
        }
        lemma_server_place(rest, id, k - 1);
    }
}

fn put_server(all: &mut Vec<McpServerEntry>, e: McpServerEntry)
    requires
        e.wf(),
        forall|i: int| 0 <= i < old(all)@.len() ==> (#[trigger] old(all)@[i]).wf(),
    ensures
        mcp_server_entry_views(final(all)@) == with_server(mcp_server_entry_views(old(all)@), e@),
        forall|i: int| 0 <= i < final(all)@.len() ==> (#[trigger] final(all)@[i]).wf(),
{
    let ghost before = mcp_server_entry_views(all@);
    let mut i: usize = 0;
    while i < all.len() && !same(all[i].id.as_str(), e.id.as_str())
        invariant
            i <= all.len(),
            all@ == old(all)@,
            before == mcp_server_entry_views(all@),
            forall|k: int| 0 <= k < i ==> (#[trigger] before[k]).id != e@.id,
        decreases all.len() - i,
    {
        assert(before[i as int] == all@[i as int]@);
        i = i + 1;
    }
    proof {
        if i < all.len() {
            assert(before[i as int] == all@[i as int]@);
        }
        lemma_server_place(before, e@.id, i as int);
    }
    if i < all.len() {
        let gone = all.remove(i);
        all.insert(i, e);
        proof {
            assert(mcp_server_entry_views(all@) =~= before.update(i as int, e@));
        }
    } else {
        all.push(e);
        proof {
            assert(mcp_server_entry_views(all@) =~= before.push(e@));
        }
    }
}

impl SettingsFile {
    /// Keeps a server: it takes the place of the one of its id, or comes behind
    /// the others.
    pub fn upsert_mcp_server(&mut self, entry: McpServerEntry) -> (r: Result<(), RpcError>)
        requires
            old(self).wf(),
            entry.wf(),
        ensures
            final(self).wf(),
            match server_fault(entry@) {
                Some(e) => r is Err && r->Err_0@ == e && final(self)@ == old(self)@,
                None => r is Ok && final(self)@ == (SettingsView {
                    mcp_servers: with_server(old(self)@.mcp_servers, entry@),
                    ..old(self)@
                }),
            },
    {
        match check_server(&entry) {
            Err(e) => Err(e),
            Ok(_) => {
                put_server(&mut self.mcp_servers, entry);
                Ok(())
            },
        }
    }

    /// Gives up the servers under an id.
    pub fn remove_mcp_server(&mut self, id: &str)
        requires
            old(self).wf(),
        ensures
            final(self).wf(),
            final(self)@ == (SettingsView {
                mcp_servers: without_server(old(self)@.mcp_servers, id@),
                ..old(self)@
            }),
    {
        let ghost before = mcp_server_entry_views(self.mcp_servers@);
        let n: usize = self.mcp_servers.len();
        let mut done: usize = 0;
        let mut i: usize = 0;
        proof {
            assert(before.take(0) =~= Seq::empty());
            assert(without_server(before.take(0), id@) + before.skip(0) =~= before);
        }
        while done < n
            invariant
                i <= done <= n,
                before.len() == n,
                self.wf(),
                self@ == (SettingsView { mcp_servers: self@.mcp_servers, ..old(self)@ }),
                i == without_server(before.take(done as int), id@).len(),
                mcp_server_entry_views(self.mcp_servers@) == without_server(
                    before.take(done as int),
                    id@,
                ) + before.skip(done as int),
            decreases n - done,
        {
            let ghost now = self.mcp_servers@;
            let ghost head = without_server(before.take(done as int), id@);
            proof {
                assert(before.take(done + 1).drop_last() =~= before.take(done as int));
                assert(before.take(done + 1).last() == before[done as int]);
                assert(mcp_server_entry_views(now).len() == now.len());
                assert(before.skip(done as int).len() == n - done);
                assert(mcp_server_entry_views(now)[i as int] == before[done as int]);
                assert(now[i as int]@ == before[done as int]);
            }
            if same(self.mcp_servers[i].id.as_str(), id) {
                let gone = self.mcp_servers.remove(i);
                proof {
                    assert(mcp_server_entry_views(self.mcp_servers@) =~= mcp_server_entry_views(
                        now,
                    ).remove(i as int));
                    assert((head + before.skip(done as int)).remove(i as int) =~= head
                        + before.skip(done + 1));
                }
            } else {
                proof {
                    assert(head + before.skip(done as int) =~= head.push(before[done as int])
                        + before.skip(done + 1));
                }
                i = i + 1;
            }
            done = done + 1;
        }
        proof {
            assert(before.take(n as int) =~= before);
            assert(without_server(before, id@) + before.skip(n as int) =~= without_server(
                before,
                id@,
            ));
        }
    }
}

/// The servers with each of some more, one after another.
pub open spec fn with_servers(all: Seq<McpServerView>, more: Seq<McpServerView>) -> Seq<
    McpServerView,
>
    decreases more.len(),
{
    if more.len() == 0 {
        all
    } else {
        with_server(with_servers(all, more.drop_last()), more.last())
    }
}

/// What is wrong with the first bad one of some servers.
pub open spec fn first_fault(all: Seq<McpServerView>) -> Option<ErrorView>
    decreases all.len(),
{
    if all.len() == 0 {
        None
    } else {
        match server_fault(all[0]) {
            Some(e) => Some(e),
            None => first_fault(all.drop_first()),
        }
    }
}

/// What comes of importing the servers that a document describes: all of them
/// are kept, or none.
pub open spec fn imported(s: SettingsView, servers: Result<Seq<McpServerView>, Seq<char>>) -> Result<
    SettingsView,
    ErrorView,
> {
    match servers {
        Err(e) => Err(error_view("bad-request"@, e)),
        Ok(more) => match first_fault(more) {
            Some(e) => Err(e),
            None => Ok(SettingsView { mcp_servers: with_servers(s.mcp_servers, more), ..s }),
        },
    }
}

impl SettingsFile {
    /// Imports servers that were read: all of them are kept, or none.
    pub fn import_servers(&mut self, servers: Result<Vec<McpServerEntry>, String>) -> (r: Result<
        usize,
        RpcError,
    >)
        requires
            old(self).wf(),
            servers matches Ok(v) ==> forall|i: int| 0 <= i < v@.len() ==> (#[trigger] v@[i]).wf(),
        ensures
            final(self).wf(),
            match imported(
                old(self)@,
                match servers {
                    Ok(v) => Ok(mcp_server_entry_views(v@)),
                    Err(e) => Err(e@),
                },
            ) {
                Ok(after) => r == Ok::<usize, RpcError>(servers->Ok_0.len()) && final(self)@
                    == after,
                Err(e) => r is Err && r->Err_0@ == e && final(self)@ == old(self)@,
            },
    {
        let list = match servers {
            Ok(v) => v,
            Err(e) => {
                return Err(RpcError::bad_request(e.as_str()));
            },
        };
        let ghost all = mcp_server_entry_views(list@);
        let count: usize = list.len();
        let mut i: usize = 0;
        assert(all.skip(0) =~= all);
        while i < list.len()
            invariant
                i <= list.len(),
                self@ == old(self)@,
                self.wf(),
                all == mcp_server_entry_views(list@),
                servers matches Ok(v) && v == list,
                first_fault(all) == first_fault(all.skip(i as int)),
            decreases list.len() - i,
        {
            assert(all.skip(i as int)[0] == list@[i as int]@);
            assert(all.skip(i as int).drop_first() =~= all.skip(i + 1));
            if let Err(e) = check_server(&list[i]) {
                return Err(e);
            }
            i = i + 1;
        }
        let mut rest = list;
        let mut k: usize = 0;
        assert(all.take(0) =~= Seq::empty());
        while rest.len() > 0
            invariant
                k + rest@.len() == all.len(),
                all.len() == count,
                self.wf(),
                mcp_server_entry_views(rest@) == all.skip(k as int),
                forall|j: int| 0 <= j < rest@.len() ==> (#[trigger] rest@[j]).wf(),
                self@ == (SettingsView {
                    mcp_servers: with_servers(old(self)@.mcp_servers, all.take(k as int)),
                    ..old(self)@
                }),
            decreases rest.len(),
        {
            let ghost now = rest@;
            let e = rest.remove(0);
            proof {
                assert(mcp_server_entry_views(now)[0] == e@);
                assert(all.skip(k as int)[0] == all[k as int]);
                assert(mcp_server_entry_views(rest@) =~= all.skip(k as int).drop_first());
                assert(all.skip(k as int).drop_first() =~= all.skip(k + 1));
                assert(all.take(k + 1).drop_last() =~= all.take(k as int));
                assert(all.take(k + 1).last() == e@);
                assert(now[0].wf());
                assert forall|j: int| 0 <= j < rest@.len() implies (#[trigger] rest@[j]).wf() by {
                    assert(rest@[j] == now[j + 1]);
                }
            }
            put_server(&mut self.mcp_servers, e);
            k = k + 1;
        }
        assert(all.take(all.len() as int) =~= all);
        Ok(count)
    }

    /// Imports the servers that JSON text describes: all of them are kept, or
    /// none.
    pub fn import_mcp_servers_json(&mut self, text: &str) -> (r: Result<usize, RpcError>)
        requires
            old(self).wf(),
        ensures
            final(self).wf(),
            match imported(
                old(self)@,
                match parsed_value(text@) {
                    Err(e) => Err("JSON 解析失败:"@ + e),
                    Ok(doc) => described_servers(doc),
                },
            ) {
                Ok(after) => r is Ok && r->Ok_0 == described_servers(
                    parsed_value(text@)->Ok_0,
                )->Ok_0.len() && final(self)@ == after,
                Err(e) => r is Err && r->Err_0@ == e && final(self)@ == old(self)@,
            },
    {
        self.import_servers(parse_mcp_servers_json(text))
    }
}

/// Whether a map holds the texts of the members of a value: each under its name, those
/// that are texts as they are.
pub open spec fn holds_members(m: Map<Seq<char>, Seq<char>>, t: JsonTree) -> bool {
    &&& forall|k: Seq<char>| #[trigger] m.dom().contains(k) <==> t.get(k) is Some
    &&& forall|k: Seq<char>| t.get(k) matches Some(JsonTree::Text(s)) ==> #[trigger] m[k] == s
}

/// The word by which a description names the way to its server: `transport`, or `type`
/// where there is none.
pub open spec fn transport_word(t: JsonTree) -> Option<JsonTree> {
    if t.get("transport"@) is Some {
        t.get("transport"@)
    } else {
        t.get("type"@)
    }
}

proof fn lemma_texts_under(t: JsonTree, key: Seq<char>)
    ensures
        holds_members(texts_under(t, key), t.at(key)),
{
    let m = texts_under(t, key);
    assert forall|k: Seq<char>| t.at(key).get(k) matches Some(JsonTree::Text(s)) implies #[trigger] m[k]
        == t.at(key).get(k)->0->Text_0 by {
        assert(m.dom().contains(k));
    }
}

/// A server is read as it is described. One under a URL has the URL and the headers of
/// its description, and no command. Any other has the command of its description, as
/// many arguments as there are, each in its place, the variables and the directory.
pub proof fn law_server_is_as_described(name: Seq<char>, t: JsonTree)
    requires
        server_from(name, t) is Ok,
    ensures
        ({
            let v = server_from(name, t)->Ok_0;
            &&& v.id == name && v.enabled && v.tool_call_timeout_ms is None
            &&& v.url is Some ==> t.at("url"@) == JsonTree::Text(v.url->0) && !is_blank(v.url->0)
                && holds_members(v.headers, t.at("headers"@)) && v.command.len() == 0
                && v.args.len() == 0 && v.env.dom().is_empty() && v.cwd is None
            &&& v.url is None ==> t.at("command"@) == JsonTree::Text(v.command) && holds_members(
                v.env,
                t.at("env"@),
            ) && v.headers.dom().is_empty()
            &&& v.url is None && t.at("args"@) is Array ==> v.args.len() == t.at(
                "args"@,
            )->Array_0.len()
            &&& v.url is None && t.at("args"@) is Array ==> forall|i: int|
                0 <= i < v.args.len() && t.at("args"@)->Array_0[i] is Text ==> t.at(
                    "args"@,
                )->Array_0[i] == JsonTree::Text(#[trigger] v.args[i])
            &&& v.url is None && !(t.at("args"@) is Array) ==> v.args.len() == 0
            &&& v.url is None ==> match t.at("cwd"@) {
                JsonTree::Text(s) => v.cwd == Some(s),
                _ => v.cwd is None,
            }
        }),
{
    lemma_texts_under(t, "headers"@);
    lemma_texts_under(t, "env"@);
}

/// Describing a server with a command and arguments and reading the description gives
/// them back, whatever they are.
pub proof fn law_described_arguments_come_back(
    name: Seq<char>,
    t: JsonTree,
    command: Seq<char>,
    args: Seq<Seq<char>>,
)
    requires
        t.get("transport"@) is None,
        t.get("type"@) is None,
        t.get("url"@) is None,
        t.get("command"@) == Some(JsonTree::Text(command)),
        t.get("args"@) == Some(JsonTree::Array(args.map_values(|a: Seq<char>| JsonTree::Text(a)))),
    ensures
        server_from(name, t) matches Ok(v) && v.command == command && v.args == args && v.url
            is None,
{
    let v = server_from(name, t)->Ok_0;
    assert(v.args =~= args);
}

/// Which way a server is reached, and which descriptions are refused: `sse` in any
/// case of letters, a server under a URL without one, any other without a command.
pub proof fn law_transport_is_as_described(name: Seq<char>, t: JsonTree)
    ensures
        ({
            let word = transport_word(t);
            let said = lowered(word->0->Text_0);
            let http = if word matches Some(JsonTree::Text(_)) {
                said == "http"@ || said == "streamable-http"@
            } else {
                t.get("url"@) is Some
            };
            let sse = word matches Some(JsonTree::Text(_)) && said == "sse"@;
            &&& server_from(name, t) is Ok <==> !sse && (if http {
                t.at("url"@) is Text && !is_blank(t.at("url"@)->Text_0)
            } else {
                t.at("command"@) is Text
            })
            &&& server_from(name, t) matches Ok(v) ==> (v.url is Some <==> http)
            &&& server_from(name, t) matches Err(e) ==> e.len() >= name.len() && e.take(
                name.len() as int,
            ) == name
        }),
{
    let a = ": 暂不支持 SSE 传输(仅 stdio / streamable-http)"@;
    let b = ": http 传输需要 url"@;
    let c = ": 缺少 command(http 传输需 url)"@;
    assert((name + a).take(name.len() as int) =~= name);
    assert((name + b).take(name.len() as int) =~= name);
    assert((name + c).take(name.len() as int) =~= name);
}

proof fn lemma_servers_from(entries: Seq<(Seq<char>, JsonTree)>)
    ensures
        servers_from(entries) is Ok <==> forall|i: int|
            0 <= i < entries.len() ==> server_from((#[trigger] entries[i]).0, entries[i].1) is Ok,
        servers_from(entries) matches Ok(v) ==> v.len() == entries.len() && forall|i: int|
            0 <= i < entries.len() ==> server_from(entries[i].0, entries[i].1) == Ok::<
                McpServerView,
                Seq<char>,
            >(#[trigger] v[i]),
    decreases entries.len(),
{
    if entries.len() > 0 {
        let rest = entries.drop_last();
        lemma_servers_from(rest);
        assert forall|i: int| 0 <= i < rest.len() implies rest[i] == #[trigger] entries[i] by {}
        assert(entries[entries.len() - 1] == entries.last());
        if servers_from(rest) is Err {
            let k = choose|k: int|
                0 <= k < rest.len() && server_from((#[trigger] rest[k]).0, rest[k].1) is Err;
            assert(server_from(entries[k].0, entries[k].1) is Err);
        } else if servers_from(entries) is Ok {
            let done = servers_from(rest)->Ok_0;
            let v = servers_from(entries)->Ok_0;
            assert forall|i: int| 0 <= i < entries.len() implies server_from(
                entries[i].0,
                entries[i].1,
            ) == Ok::<McpServerView, Seq<char>>(#[trigger] v[i]) by {
                if i < rest.len() {
                    assert(v[i] == done[i]);
                }
            }
            assert forall|i: int| 0 <= i < entries.len() implies server_from(
                (#[trigger] entries[i]).0,
                entries[i].1,
            ) is Ok by {
                assert(v[i] == v[i]);
            }
        } else {
            assert(server_from(entries[entries.len() - 1].0, entries.last().1) is Err);
        }
    }
}

/// A document describes its servers all together: under `mcpServers` each one under its
/// name, in order; else a single one under its `id`, or its `name` where it has none.
/// One bad description refuses all.
pub proof fn law_documents_describe_all(doc: JsonTree)
    ensures
        doc.get("mcpServers"@) matches Some(JsonTree::Object(entries)) ==> {
            &&& described_servers(doc) is Ok <==> entries.len() > 0 && forall|i: int|
                0 <= i < entries.len() ==> server_from((#[trigger] entries[i]).0, entries[i].1) is Ok
            &&& described_servers(doc) matches Ok(v) ==> v.len() == entries.len() && forall|i: int|
                0 <= i < v.len() ==> server_from(entries[i].0, entries[i].1) == Ok::<
                    McpServerView,
                    Seq<char>,
                >(#[trigger] v[i])
        },
        !(doc.get("mcpServers"@) matches Some(JsonTree::Object(_))) ==> {
            let given = if doc.get("id"@) is Some {
                doc.get("id"@)
            } else {
                doc.get("name"@)
            };
            &&& described_servers(doc) is Ok <==> (given matches Some(JsonTree::Text(name))
                && server_from(name, doc) is Ok)
            &&& described_servers(doc) matches Ok(v) ==> v.len() == 1 && server_from(
                given->0->Text_0,
                doc,
            ) == Ok::<McpServerView, Seq<char>>(v[0])
        },
{
    match doc.get("mcpServers"@) {
        Some(JsonTree::Object(entries)) => {
            lemma_servers_from(entries);
        },
        _ => {
            match either(doc, "id"@, "name"@) {
                Some(JsonTree::Text(name)) => {
                    let one = seq![(name, doc)];
                    lemma_servers_from(one);
                    assert(one[0] == (name, doc));
                },
                _ => {},
            }
        },
    }
}

proof fn lemma_server_place_holds(all: Seq<McpServerView>, id: Seq<char>)
    ensures
        0 <= server_place(all, id) <= all.len(),
        server_place(all, id) < all.len() ==> all[server_place(all, id)].id == id,
        forall|i: int| 0 <= i < server_place(all, id) ==> (#[trigger] all[i]).id != id,
    decreases all.len(),
{
    if all.len() > 0 && all[0].id != id {
        let rest = all.drop_first();
        lemma_server_place_holds(rest, id);
        assert forall|i: int| 0 <= i < server_place(all, id) implies (#[trigger] all[i]).id != id by {
            if i > 0 {
                assert(all[i] == rest[i - 1]);
            }
        }
    }
}

/// Of no id two servers are kept.
pub open spec fn one_server_each(all: Seq<McpServerView>) -> bool {
    forall|i: int, j: int| 0 <= i < j < all.len() ==> (#[trigger] all[i]).id != (#[trigger] all[j]).id
}

/// Keeping a server: it is there afterwards, in the place of the one of its id, or
/// behind the others where there was none; all others stay where they are.
pub proof fn law_kept_server_is_there(all: Seq<McpServerView>, e: McpServerView)
    ensures
        ({
            let after = with_server(all, e);
            &&& after.contains(e)
            &&& forall|i: int|
                0 <= i < all.len() && (#[trigger] all[i]).id != e.id ==> i < after.len() && after[i]
                    == all[i]
            &&& (exists|i: int| 0 <= i < all.len() && (#[trigger] all[i]).id == e.id) ==> after.len()
                == all.len()
            &&& (forall|i: int| 0 <= i < all.len() ==> (#[trigger] all[i]).id != e.id) ==> after
                == all.push(e)
            &&& one_server_each(all) ==> one_server_each(after)
        }),
{
    let k = server_place(all, e.id);
    let after = with_server(all, e);
    lemma_server_place_holds(all, e.id);
    assert(after[k] == e);
    if one_server_each(all) {
        assert forall|i: int, j: int| 0 <= i < j < after.len() implies (#[trigger] after[i]).id != (
        #[trigger] after[j]).id by {
            if k < all.len() {
                assert(all[i].id != all[j].id);
            } else {
                assert(all[i].id != e.id);
                if j < all.len() {
                    assert(all[i].id != all[j].id);
                }
            }
        }
    }
}

/// Giving up a server: none of its id is left, and all others stay, in order.
pub proof fn law_removed_server_is_gone(all: Seq<McpServerView>, id: Seq<char>)
    ensures
        without_server(all, id) == all.filter(|s: McpServerView| s.id != id),
        forall|i: int|
            0 <= i < without_server(all, id).len() ==> (#[trigger] without_server(all, id)[i]).id
                != id,
        forall|s: McpServerView|
            s.id != id ==> (#[trigger] without_server(all, id).contains(s) <==> all.contains(s)),
{
    reveal(Seq::filter);
    let keep = |s: McpServerView| s.id != id;
    lemma_without_server(all, id, keep);
    let after = without_server(all, id);
    assert forall|i: int| 0 <= i < after.len() implies (#[trigger] after[i]).id != id by {
        assert(after.contains(after[i]));
        crate::text::lemma_filter_contains(all, keep, after[i]);
    }
    assert forall|s: McpServerView| s.id != id implies (#[trigger] after.contains(s) <==> all.contains(
        s,
    )) by {
        crate::text::lemma_filter_contains(all, keep, s);
    }
}

proof fn lemma_without_server(
    all: Seq<McpServerView>,
    id: Seq<char>,
    keep: spec_fn(McpServerView) -> bool,
)
    requires
        forall|s: McpServerView| #[trigger] keep(s) == (s.id != id),
    ensures
        without_server(all, id) == all.filter(keep),
    decreases all.len(),
{
    reveal(Seq::filter);
    if all.len() > 0 {
        lemma_without_server(all.drop_last(), id, keep);
        assert(keep(all.last()) == (all.last().id != id));
    } else {
        assert(without_server(all, id) =~= all.filter(keep));
    }
}

proof fn lemma_first_fault_is_none(all: Seq<McpServerView>)
    ensures
        first_fault(all) is None <==> forall|i: int|
            0 <= i < all.len() ==> server_fault(#[trigger] all[i]) is None,
    decreases all.len(),
{
    if all.len() > 0 {
        let rest = all.drop_first();
        lemma_first_fault_is_none(rest);
        assert forall|i: int| 0 <= i < rest.len() implies #[trigger] rest[i] == all[i + 1] by {}
        if server_fault(all[0]) is None && first_fault(rest) is Some {
            let k = choose|k: int| 0 <= k < rest.len() && server_fault(#[trigger] rest[k]) is Some;
            assert(server_fault(all[k + 1]) is Some);
        }
        if first_fault(all) is None {
            assert forall|i: int| 0 <= i < all.len() implies server_fault(#[trigger] all[i])
                is None by {
                if i > 0 {
                    assert(server_fault(rest[i - 1]) is None);
                }
            }
        }
    }
}

proof fn lemma_with_servers(all: Seq<McpServerView>, more: Seq<McpServerView>)
    requires
        one_server_each(more),
    ensures
        forall|i: int|
            0 <= i < more.len() ==> with_servers(all, more).contains(#[trigger] more[i]),
        forall|i: int|
            0 <= i < all.len() && (forall|k: int|
                0 <= k < more.len() ==> (#[trigger] more[k]).id != all[i].id) ==> i < with_servers(
                all,
                more,
            ).len() && with_servers(all, more)[i] == #[trigger] all[i],
        one_server_each(all) ==> one_server_each(with_servers(all, more)),
        with_servers(all, more).len() >= all.len(),
    decreases more.len(),
{
    if more.len() > 0 {
        let rest = more.drop_last();
        let e = more.last();
        assert(one_server_each(rest)) by {
            assert forall|i: int, j: int| 0 <= i < j < rest.len() implies (#[trigger] rest[i]).id != (
            #[trigger] rest[j]).id by {
                assert(more[i].id != more[j].id);
            }
        }
        lemma_with_servers(all, rest);
        let mid = with_servers(all, rest);
        let after = with_servers(all, more);
        law_kept_server_is_there(mid, e);
        assert forall|i: int| 0 <= i < more.len() implies after.contains(#[trigger] more[i]) by {
            if i < rest.len() {
                assert(rest[i] == more[i]);
                let k = choose|k: int| 0 <= k < mid.len() && mid[k] == rest[i];
                assert(more[i].id != more[more.len() - 1].id);
                assert(mid[k].id != e.id);
                assert(after[k] == more[i]);
            }
        }
        assert forall|i: int|
            0 <= i < all.len() && (forall|k: int|
                0 <= k < more.len() ==> (#[trigger] more[k]).id != all[i].id) implies i
            < after.len() && after[i] == #[trigger] all[i] by {
            assert forall|k: int| 0 <= k < rest.len() implies (#[trigger] rest[k]).id != all[i].id by {
                assert(more[k].id != all[i].id);
            }
            assert(more[more.len() - 1].id != all[i].id);
            assert(mid[i] == all[i]);
        }
    }
}

/// An import keeps all servers or none: where one is bad nothing changes; else each is
/// there afterwards, servers of other ids stay where they are, and nothing else of the
/// settings is touched.
pub proof fn law_import_is_whole(s: SettingsView, more: Seq<McpServerView>)
    requires
        one_server_each(more),
    ensures
        imported(s, Ok(more)) is Ok <==> forall|i: int|
            0 <= i < more.len() ==> server_fault(#[trigger] more[i]) is None,
        imported(s, Ok(more)) matches Ok(after) ==> {
            &&& after == (SettingsView { mcp_servers: after.mcp_servers, ..s })
            &&& forall|i: int|
                0 <= i < more.len() ==> after.mcp_servers.contains(#[trigger] more[i])
            &&& forall|i: int|
                0 <= i < s.mcp_servers.len() && (forall|k: int|
                    0 <= k < more.len() ==> (#[trigger] more[k]).id != s.mcp_servers[i].id) ==> i
                    < after.mcp_servers.len() && after.mcp_servers[i]
                    == #[trigger] s.mcp_servers[i]
            &&& one_server_each(s.mcp_servers) ==> one_server_each(after.mcp_servers)
        },
{
    lemma_first_fault_is_none(more);
    lemma_with_servers(s.mcp_servers, more);
}

/// Which servers can be kept: those with an id of letters, digits, underscores and
/// hyphens, and a URL or a command that is not blank.
pub proof fn law_good_servers_are_kept(e: McpServerView)
    ensures
        server_fault(e) is None <==> e.id.len() > 0 && (forall|i: int|
            0 <= i < e.id.len() ==> {
                let c = #[trigger] e.id[i];
                ('0' <= c && c <= '9') || ('A' <= c && c <= 'Z') || ('a' <= c && c <= 'z') || c
                    == '_' || c == '-'
            }) && (e.url matches Some(u) ==> !is_blank(u)) && (e.url is None ==> !is_blank(
            e.command,
        )),
        server_fault(e) matches Some(f) ==> f.code == "bad-request"@,
{
    if !is_tool_id(e.id) && e.id.len() > 0 {
        let i = choose|i: int| 0 <= i < e.id.len() && !is_id_char(#[trigger] e.id[i]);
        let c = e.id[i];
        assert(!(('0' <= c && c <= '9') || ('A' <= c && c <= 'Z') || ('a' <= c && c <= 'z') || c
            == '_' || c == '-'));
    }
}

/// An import of what could not be read is refused, with what was said of it.
pub proof fn law_unread_import_is_refused(s: SettingsView, why: Seq<char>)
    ensures
        imported(s, Err(why)) is Err,
        imported(s, Err(why))->Err_0.code == "bad-request"@,
        imported(s, Err(why))->Err_0.message == why,
{
}

} // verus!
