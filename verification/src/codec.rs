//! The settings in JSON: how each part is written, and what is read back.
use vstd::prelude::*;
use vstd::string::*;

use crate::interact::text_view;
use crate::json::{
    Json, JsonTree, Num, entry_trees, has_entry, lemma_entry, lemma_lookup_push,
    lemma_tree_of_object, lemma_with, lemma_with_some, lookup, member, text_option, text_trees,
    texts_json, trees,
};
use crate::mcp::{lemma_object_texts_push, object_texts};
use crate::settings::{
    BillingConfig, BillingKind, BillingPaths, BillingPathsView, BillingSnapshot, BillingView,
    HookBridgeEntry, HookBridgeView, McpServerEntry, McpServerView, ProviderEntry, ProviderView,
    SettingsFile, SettingsView, SnapshotView, WorkspaceDefaults, WorkspaceDefaultsView,
    hook_bridge_entry_trees, hook_bridge_entry_views, hooks_json,
    mcp_server_entry_trees, mcp_server_entry_views, servers_json, number_map_tree,
    provider_entry_trees, provider_entry_views, providers_json, share_tree, text_map,
    text_map_json, text_map_tree, text_or_null, text_seq,
};
use crate::strmap::{StrMap, key_place, lemma_key_place};
use crate::text::same;

verus! {

// Single members.

/// The text under a key.
pub open spec fn req_text(t: JsonTree, key: Seq<char>) -> Option<Seq<char>> {
    t.at(key).as_text()
}

/// The text under a key, or a given one where nothing stands there.
pub open spec fn def_text(t: JsonTree, key: Seq<char>, missing: Seq<char>) -> Option<Seq<char>> {
    match t.get(key) {
        None => Some(missing),
        Some(v) => v.as_text(),
    }
}

/// The text under a key, where one stands there.
pub open spec fn opt_text(t: JsonTree, key: Seq<char>) -> Option<Option<Seq<char>>> {
    match t.at(key) {
        JsonTree::Null => Some(None),
        JsonTree::Text(s) => Some(Some(s)),
        _ => None,
    }
}

/// The truth value under a key.
pub open spec fn req_bool(t: JsonTree, key: Seq<char>) -> Option<bool> {
    t.at(key).as_truth()
}

/// The truth value under a key, or a given one where nothing stands there.
pub open spec fn def_bool(t: JsonTree, key: Seq<char>, missing: bool) -> Option<bool> {
    match t.get(key) {
        None => Some(missing),
        Some(v) => v.as_truth(),
    }
}

/// The number under a key.
pub open spec fn req_u64(t: JsonTree, key: Seq<char>) -> Option<u64> {
    t.at(key).as_nat()
}

/// The number under a key, where it is small enough.
pub open spec fn req_u32(t: JsonTree, key: Seq<char>) -> Option<u32> {
    match t.at(key).as_nat() {
        Some(n) => if n <= u32::MAX {
            Some(n as u32)
        } else {
            None
        },
        None => None,
    }
}

/// The number under a key, where one stands there.
pub open spec fn opt_u64(t: JsonTree, key: Seq<char>) -> Option<Option<u64>> {
    match t.at(key) {
        JsonTree::Null => Some(None),
        JsonTree::Number(Num::Unsigned(n)) => Some(Some(n)),
        _ => None,
    }
}

/// The number under a key, where one stands there.
pub open spec fn opt_usize(t: JsonTree, key: Seq<char>) -> Option<Option<usize>> {
    match t.at(key) {
        JsonTree::Null => Some(None),
        JsonTree::Number(Num::Unsigned(n)) => if n <= usize::MAX {
            Some(Some(n as usize))
        } else {
            None
        },
        _ => None,
    }
}

/// The small number under a key, where one stands there.
pub open spec fn opt_u8(t: JsonTree, key: Seq<char>) -> Option<Option<u8>> {
    match t.at(key) {
        JsonTree::Null => Some(None),
        JsonTree::Number(Num::Unsigned(n)) => if n <= u8::MAX {
            Some(Some(n as u8))
        } else {
            None
        },
        _ => None,
    }
}

/// The texts of an array, where it holds nothing else.
pub open spec fn whole_texts(t: JsonTree) -> Option<Seq<Seq<char>>> {
    match t {
        JsonTree::Array(items) => if forall|i: int|
            0 <= i < items.len() ==> (#[trigger] items[i]) is Text {
            Some(items.map_values(|x: JsonTree| x->Text_0))
        } else {
            None
        },
        _ => None,
    }
}

/// The texts of an object by their keys, where it holds nothing else.
pub open spec fn whole_textmap(t: JsonTree) -> Option<Map<Seq<char>, Seq<char>>> {
    match t {
        JsonTree::Object(entries) => if forall|i: int|
            0 <= i < entries.len() ==> (#[trigger] entries[i]).1 is Text {
            Some(object_texts(entries))
        } else {
            None
        },
        _ => None,
    }
}

/// The texts under a key; none where nothing stands there.
pub open spec fn def_texts(t: JsonTree, key: Seq<char>) -> Option<Seq<Seq<char>>> {
    match t.get(key) {
        None => Some(Seq::empty()),
        Some(v) => whole_texts(v),
    }
}

/// The map to texts under a key; an empty one where nothing stands there.
pub open spec fn def_textmap(t: JsonTree, key: Seq<char>) -> Option<Map<Seq<char>, Seq<char>>> {
    match t.get(key) {
        None => Some(Map::empty()),
        Some(v) => whole_textmap(v),
    }
}

/// The numbers that an object holds.
pub open spec fn object_numbers(entries: Seq<(Seq<char>, JsonTree)>) -> Map<Seq<char>, u64> {
    Map::new(
        |k: Seq<char>| lookup(entries, k) is Some,
        |k: Seq<char>|
            match lookup(entries, k)->0.as_nat() {
                Some(n) => n,
                None => 0,
            },
    )
}

/// The map to numbers under a key; an empty one where nothing stands there.
pub open spec fn def_numbers(t: JsonTree, key: Seq<char>) -> Option<Map<Seq<char>, u64>> {
    match t.get(key) {
        None => Some(Map::empty()),
        Some(JsonTree::Object(entries)) => if forall|i: int|
            0 <= i < entries.len() ==> (#[trigger] entries[i]).1.as_nat() is Some {
            Some(object_numbers(entries))
        } else {
            None
        },
        _ => None,
    }
}

fn read_req_text(j: &Json, key: &str) -> (r: Option<String>)
    ensures
        text_view(r) == req_text(j@, key@),
{
    match j.str_at(key) {
        Some(s) => Some(s.to_owned()),
        None => None,
    }
}

fn read_def_text(j: &Json, key: &str, missing: &str) -> (r: Option<String>)
    ensures
        text_view(r) == def_text(j@, key@, missing@),
{
    match j.get(key) {
        None => Some(missing.to_owned()),
        Some(v) => match v.as_str() {
            Some(s) => Some(s.to_owned()),
            None => None,
        },
    }
}

fn read_opt_text(j: &Json, key: &str) -> (r: Option<Option<String>>)
    ensures
        match r {
            Some(s) => opt_text(j@, key@) == Some(text_view(s)),
            None => opt_text(j@, key@) is None,
        },
{
    match member(j, key) {
        Json::Null => Some(None),
        Json::Text(s) => Some(Some(s)),
        _ => None,
    }
}

fn read_req_bool(j: &Json, key: &str) -> (r: Option<bool>)
    ensures
        r == req_bool(j@, key@),
{
    j.bool_at(key)
}

fn read_def_bool(j: &Json, key: &str, missing: bool) -> (r: Option<bool>)
    ensures
        r == def_bool(j@, key@, missing),
{
    match j.get(key) {
        None => Some(missing),
        Some(v) => v.as_bool(),
    }
}

fn read_req_u32(j: &Json, key: &str) -> (r: Option<u32>)
    ensures
        r == req_u32(j@, key@),
{
    match j.u64_at(key) {
        Some(n) => if n <= 0xffff_ffff {
            Some(n as u32)
        } else {
            None
        },
        None => None,
    }
}

fn read_opt_u64(j: &Json, key: &str) -> (r: Option<Option<u64>>)
    ensures
        r == opt_u64(j@, key@),
{
    match member(j, key) {
        Json::Null => Some(None),
        Json::Number(Num::Unsigned(n)) => Some(Some(n)),
        _ => None,
    }
}

fn read_opt_usize(j: &Json, key: &str) -> (r: Option<Option<usize>>)
    ensures
        r == opt_usize(j@, key@),
{
    match member(j, key) {
        Json::Null => Some(None),
        Json::Number(Num::Unsigned(n)) => if n <= usize::MAX as u64 {
            Some(Some(n as usize))
        } else {
            None
        },
        _ => None,
    }
}

fn read_opt_u8(j: &Json, key: &str) -> (r: Option<Option<u8>>)
    ensures
        r == opt_u8(j@, key@),
{
    match member(j, key) {
        Json::Null => Some(None),
        Json::Number(Num::Unsigned(n)) => if n <= 255 {
            Some(Some(n as u8))
        } else {
            None
        },
        _ => None,
    }
}

pub(crate) fn read_whole_texts(value: &Json) -> (r: Option<Vec<String>>)
    ensures
        match r {
            Some(v) => whole_texts(value@) == Some(text_seq(v@)),
            None => whole_texts(value@) is None,
        },
{
    let items = match value.as_array() {
        Some(v) => v,
        None => {
            return None;
        },
    };
    let ghost all = trees(items@);
    let mut out: Vec<String> = Vec::new();
    let mut i: usize = 0;
    while i < items.len()
        invariant
            i <= items.len(),
            all == trees(items@),
            value@ == JsonTree::Array(all),
            out@.len() == i,
            forall|k: int| 0 <= k < i ==> (#[trigger] all[k]) == JsonTree::Text(out@[k]@),
        decreases items.len() - i,
    {
        assert(all[i as int] == items@[i as int]@);
        match items[i].as_str() {
            Some(s) => {
                out.push(s.to_owned());
            },
            None => {
                assert(!(all[i as int] is Text));
                return None;
            },
        }
        i = i + 1;
    }
    assert(all.map_values(|x: JsonTree| x->Text_0) =~= text_seq(out@));
    Some(out)
}

fn read_def_texts(j: &Json, key: &str) -> (r: Option<Vec<String>>)
    ensures
        match r {
            Some(v) => def_texts(j@, key@) == Some(text_seq(v@)),
            None => def_texts(j@, key@) is None,
        },
{
    match j.get(key) {
        Some(v) => read_whole_texts(v),
        None => {
            let none: Vec<String> = Vec::new();
            assert(text_seq(none@) =~= Seq::empty());
            Some(none)
        },
    }
}

pub(crate) fn read_whole_textmap(value: &Json) -> (r: Option<StrMap<String>>)
    ensures
        match r {
            Some(m) => whole_textmap(value@) == Some(text_map(m@)) && m.wf(),
            None => whole_textmap(value@) is None,
        },
{
    let mut out: StrMap<String> = StrMap::new();
    assert(text_map(out@) =~= Map::empty());
    let entries = match value.as_object() {
        Some(v) => v,
        None => {
            return None;
        },
    };
    let ghost all = entry_trees(entries@);
    let mut i: usize = 0;
    assert(object_texts(all.take(0)) =~= Map::empty()) by {
        assert(all.take(0) =~= Seq::empty());
    }
    while i < entries.len()
        invariant
            i <= entries.len(),
            all == entry_trees(entries@),
            value@ == JsonTree::Object(all),
            out.wf(),
            text_map(out@) == object_texts(all.take(i as int)),
            forall|k: int| 0 <= k < i ==> (#[trigger] all[k]).1 is Text,
        decreases entries.len() - i,
    {
        let name = entries[i].0.as_str();
        let ghost seen = all.take(i as int);
        let ghost before = out@;
        proof {
            assert(all.take(i + 1) =~= seen.push(all[i as int]));
            assert(all[i as int] == (name@, entries@[i as int].1@));
            lemma_object_texts_push(seen, name@, entries@[i as int].1@);
            assert(object_texts(seen).dom().contains(name@) == (lookup(seen, name@) is Some));
            assert(text_map(before).dom().contains(name@) == before.dom().contains(name@));
        }
        let text = match entries[i].1.as_str() {
            Some(s) => s.to_owned(),
            None => {
                assert(!(all[i as int].1 is Text));
                return None;
            },
        };
        if !out.contains(name) {
            let ghost t = text@;
            out.insert(name.to_owned(), text);
            assert(text_map(out@) =~= text_map(before).insert(name@, t));
        }
        i = i + 1;
    }
    assert(all.take(all.len() as int) =~= all);
    Some(out)
}

fn read_def_textmap(j: &Json, key: &str) -> (r: Option<StrMap<String>>)
    ensures
        match r {
            Some(m) => def_textmap(j@, key@) == Some(text_map(m@)) && m.wf(),
            None => def_textmap(j@, key@) is None,
        },
{
    match j.get(key) {
        Some(v) => read_whole_textmap(v),
        None => {
            let none: StrMap<String> = StrMap::new();
            assert(text_map(none@) =~= Map::empty());
            Some(none)
        },
    }
}

proof fn lemma_object_numbers_push(
    entries: Seq<(Seq<char>, JsonTree)>,
    key: Seq<char>,
    value: JsonTree,
)
    ensures
        object_numbers(entries.push((key, value))) == (if lookup(entries, key) is Some {
            object_numbers(entries)
        } else {
            object_numbers(entries).insert(
                key,
                match value.as_nat() {
                    Some(n) => n,
                    None => 0,
                },
            )
        }),
{
    let more = entries.push((key, value));
    let wanted = if lookup(entries, key) is Some {
        object_numbers(entries)
    } else {
        object_numbers(entries).insert(
            key,
            match value.as_nat() {
                Some(n) => n,
                None => 0,
            },
        )
    };
    assert forall|k: Seq<char>| object_numbers(more).dom().contains(k) == wanted.dom().contains(k) by {
        lemma_lookup_push(entries, key, value, k);
    }
    assert forall|k: Seq<char>| object_numbers(more).dom().contains(k) implies object_numbers(
        more,
    )[k] == wanted[k] by {
        lemma_lookup_push(entries, key, value, k);
    }
    assert(object_numbers(more) =~= wanted);
}

fn read_def_numbers(j: &Json, key: &str) -> (r: Option<StrMap<u64>>)
    ensures
        match r {
            Some(m) => def_numbers(j@, key@) == Some(m@) && m.wf(),
            None => def_numbers(j@, key@) is None,
        },
{
    let mut out: StrMap<u64> = StrMap::new();
    let value = match j.get(key) {
        Some(v) => v,
        None => {
            return Some(out);
        },
    };
    let entries = match value.as_object() {
        Some(v) => v,
        None => {
            return None;
        },
    };
    let ghost all = entry_trees(entries@);
    let mut i: usize = 0;
    assert(object_numbers(all.take(0)) =~= Map::empty()) by {
        assert(all.take(0) =~= Seq::empty());
    }
    while i < entries.len()
        invariant
            i <= entries.len(),
            all == entry_trees(entries@),
            j@.get(key@) == Some(JsonTree::Object(all)),
            out.wf(),
            out@ == object_numbers(all.take(i as int)),
            forall|k: int| 0 <= k < i ==> (#[trigger] all[k]).1.as_nat() is Some,
        decreases entries.len() - i,
    {
        let name = entries[i].0.as_str();
        let ghost seen = all.take(i as int);
        proof {
            assert(all.take(i + 1) =~= seen.push(all[i as int]));
            assert(all[i as int] == (name@, entries@[i as int].1@));
            lemma_object_numbers_push(seen, name@, entries@[i as int].1@);
            assert(object_numbers(seen).dom().contains(name@) == (lookup(seen, name@) is Some));
        }
        let n: u64 = match entries[i].1.as_u64() {
            Some(n) => n,
            None => {
                assert(all[i as int].1.as_nat() is None);
                return None;
            },
        };
        if !out.contains(name) {
            out.insert(name.to_owned(), n);
        }
        i = i + 1;
    }
    assert(all.take(all.len() as int) =~= all);
    Some(out)
}

proof fn lemma_texts_back(v: Seq<String>)
    ensures
        forall|i: int| 0 <= i < text_trees(v).len() ==> (#[trigger] text_trees(v)[i]) is Text,
        text_trees(v).map_values(|x: JsonTree| x->Text_0) == text_seq(v),
{
    assert(text_trees(v).map_values(|x: JsonTree| x->Text_0) =~= text_seq(v));
}

proof fn lemma_text_lookup(entries: Seq<(String, String)>, key: Seq<char>)
    ensures
        ({
            let trees = entries.map_values(|e: (String, String)| (e.0@, JsonTree::Text(e.1@)));
            let k = key_place(entries, key);
            if k < entries.len() {
                lookup(trees, key) == Some(JsonTree::Text(entries[k].1@))
            } else {
                lookup(trees, key) is None
            }
        }),
    decreases entries.len(),
{
    let all = entries.map_values(|e: (String, String)| (e.0@, JsonTree::Text(e.1@)));
    lemma_key_place(entries, key);
    if entries.len() > 0 && entries[0].0@ != key {
        lemma_key_place(entries.drop_first(), key);
        lemma_text_lookup(entries.drop_first(), key);
        assert(all.drop_first() =~= entries.drop_first().map_values(
            |e: (String, String)| (e.0@, JsonTree::Text(e.1@)),
        ));
    }
}

proof fn lemma_text_map_back(m: StrMap<String>)
    ensures
        text_map_tree(m.entries@) is Object,
        forall|i: int|
            0 <= i < text_map_tree(m.entries@)->Object_0.len() ==> (
            #[trigger] text_map_tree(m.entries@)->Object_0[i]).1 is Text,
        object_texts(text_map_tree(m.entries@)->Object_0) == text_map(m@),
        m.entries@.len() == 0 ==> text_map(m@) == Map::<Seq<char>, Seq<char>>::empty(),
{
    let all = text_map_tree(m.entries@)->Object_0;
    assert forall|k: Seq<char>| object_texts(all).dom().contains(k) == text_map(m@).dom().contains(k) by {
        lemma_text_lookup(m.entries@, k);
        lemma_key_place(m.entries@, k);
    }
    assert forall|k: Seq<char>| object_texts(all).dom().contains(k) implies object_texts(all)[k]
        == text_map(m@)[k] by {
        lemma_text_lookup(m.entries@, k);
        lemma_key_place(m.entries@, k);
    }
    assert(object_texts(all) =~= text_map(m@));
    if m.entries@.len() == 0 {
        assert(text_map(m@) =~= Map::<Seq<char>, Seq<char>>::empty());
    }
}

/// A map to texts that is written as an object is read back as it was.
pub proof fn law_text_map_round_trip(m: StrMap<String>)
    ensures
        whole_textmap(text_map_tree(m.entries@)) == Some(text_map(m@)),
{
    lemma_text_map_back(m);
}

proof fn lemma_number_lookup(entries: Seq<(String, u64)>, key: Seq<char>)
    ensures
        ({
            let trees = entries.map_values(
                |e: (String, u64)| (e.0@, JsonTree::Number(Num::Unsigned(e.1))),
            );
            let k = key_place(entries, key);
            if k < entries.len() {
                lookup(trees, key) == Some(JsonTree::Number(Num::Unsigned(entries[k].1)))
            } else {
                lookup(trees, key) is None
            }
        }),
    decreases entries.len(),
{
    let all = entries.map_values(
        |e: (String, u64)| (e.0@, JsonTree::Number(Num::Unsigned(e.1))),
    );
    lemma_key_place(entries, key);
    if entries.len() > 0 && entries[0].0@ != key {
        lemma_key_place(entries.drop_first(), key);
        lemma_number_lookup(entries.drop_first(), key);
        assert(all.drop_first() =~= entries.drop_first().map_values(
            |e: (String, u64)| (e.0@, JsonTree::Number(Num::Unsigned(e.1))),
        ));
    }
}

proof fn lemma_number_map_back(m: StrMap<u64>)
    ensures
        number_map_tree(m.entries@) is Object,
        forall|i: int|
            0 <= i < number_map_tree(m.entries@)->Object_0.len() ==> (
            #[trigger] number_map_tree(m.entries@)->Object_0[i]).1.as_nat() is Some,
        object_numbers(number_map_tree(m.entries@)->Object_0) == m@,
        m.entries@.len() == 0 ==> m@ == Map::<Seq<char>, u64>::empty(),
{
    let all = number_map_tree(m.entries@)->Object_0;
    assert forall|k: Seq<char>| object_numbers(all).dom().contains(k) == m@.dom().contains(k) by {
        lemma_number_lookup(m.entries@, k);
        lemma_key_place(m.entries@, k);
    }
    assert forall|k: Seq<char>| object_numbers(all).dom().contains(k) implies object_numbers(all)[k]
        == m@[k] by {
        lemma_number_lookup(m.entries@, k);
        lemma_key_place(m.entries@, k);
    }
    assert(object_numbers(all) =~= m@);
    if m.entries@.len() == 0 {
        assert(m@ =~= Map::<Seq<char>, u64>::empty());
    }
}

// Billing.

/// What kind of billing a value names.
pub open spec fn billing_kind_from(t: JsonTree) -> Option<BillingKind> {
    if t == JsonTree::Text("balance"@) {
        Some(BillingKind::Balance)
    } else if t == JsonTree::Text("usage"@) {
        Some(BillingKind::Usage)
    } else {
        None
    }
}

fn read_billing_kind(j: &Json) -> (r: Option<BillingKind>)
    ensures
        r == billing_kind_from(j@),
{
    match j.as_str() {
        Some(s) => if same(s, "balance") {
            Some(BillingKind::Balance)
        } else if same(s, "usage") {
            Some(BillingKind::Usage)
        } else {
            None
        },
        None => None,
    }
}

/// What a value stands for as [`BillingSnapshot`], where it does.
pub open spec fn billing_snapshot_from(t: JsonTree) -> Option<SnapshotView> {
    match billing_kind_from(t.at("kind"@)) {
        Some(BillingKind::Balance) => if t is Object && req_u64(t, "fetched_at_ms"@) is Some
            && req_text(t, "amount"@) is Some && opt_text(t, "currency"@) is Some {
            Some(
                SnapshotView::Balance {
                    fetched_at_ms: req_u64(t, "fetched_at_ms"@)->0,
                    amount: req_text(t, "amount"@)->0,
                    currency: opt_text(t, "currency"@)->0,
                },
            )
        } else {
            None
        },
        Some(BillingKind::Usage) => if t is Object && req_u64(t, "fetched_at_ms"@) is Some
            && opt_u8(t, "pct_5h"@) is Some && opt_u8(t, "pct_7d"@) is Some && opt_text(
            t,
            "resets"@,
        ) is Some && opt_text(t, "resets_7d"@) is Some {
            Some(
                SnapshotView::Usage {
                    fetched_at_ms: req_u64(t, "fetched_at_ms"@)->0,
                    pct_5h: opt_u8(t, "pct_5h"@)->0,
                    pct_7d: opt_u8(t, "pct_7d"@)->0,
                    resets: opt_text(t, "resets"@)->0,
                    resets_7d: opt_text(t, "resets_7d"@)->0,
                },
            )
        } else {
            None
        },
        None => None,
    }
}

impl BillingSnapshot {
    /// Reads it out of JSON.
    pub fn from_json(j: &Json) -> (r: Option<BillingSnapshot>)
        ensures
            match r {
                Some(v) => billing_snapshot_from(j@) == Some(v@),
                None => billing_snapshot_from(j@) is None,
            },
    {
        let kind = match read_billing_kind(&member(j, "kind")) {
            Some(k) => k,
            None => {
                return None;
            },
        };
        if !j.is_object() {
            return None;
        }
        let fetched_at_ms: u64 = match j.u64_at("fetched_at_ms") {
            Some(n) => n,
            None => {
                return None;
            },
        };
        match kind {
            BillingKind::Balance => {
                let amount = match read_req_text(j, "amount") {
                    Some(s) => s,
                    None => {
                        return None;
                    },
                };
                match read_opt_text(j, "currency") {
                    Some(currency) => Some(
                        BillingSnapshot::Balance { fetched_at_ms, amount, currency },
                    ),
                    None => None,
                }
            },
            BillingKind::Usage => {
                let pct_5h: Option<u8> = match read_opt_u8(j, "pct_5h") {
                    Some(n) => n,
                    None => {
                        return None;
                    },
                };
                let pct_7d: Option<u8> = match read_opt_u8(j, "pct_7d") {
                    Some(n) => n,
                    None => {
                        return None;
                    },
                };
                let resets = match read_opt_text(j, "resets") {
                    Some(s) => s,
                    None => {
                        return None;
                    },
                };
                match read_opt_text(j, "resets_7d") {
                    Some(resets_7d) => Some(
                        BillingSnapshot::Usage { fetched_at_ms, pct_5h, pct_7d, resets, resets_7d },
                    ),
                    None => None,
                }
            },
        }
    }
}

/// What is written is read back as it was.
pub proof fn law_billing_snapshot_round_trip(v: BillingSnapshot)
    ensures
        v.tree() is Object,
        billing_snapshot_from(v.tree()) == Some(v@),
{
    reveal_strlit("kind");
    reveal_strlit("fetched_at_ms");
    reveal_strlit("balance");
    reveal_strlit("usage");
    assert("kind"@.len() == 4 && "fetched_at_ms"@.len() == 13 && "balance"@.len() == 7
        && "usage"@.len() == 5);
    let t0 = JsonTree::object();
    match v {
        BillingSnapshot::Balance { fetched_at_ms, amount, currency } => {
            reveal_strlit("amount");
            reveal_strlit("currency");
            assert("amount"@.len() == 6 && "currency"@.len() == 8);
            let n = JsonTree::Number(Num::Unsigned(fetched_at_ms));
            let t1 = t0.with("kind"@, JsonTree::Text("balance"@));
            let t2 = t1.with("fetched_at_ms"@, n);
            let t3 = t2.with("amount"@, JsonTree::Text(amount@));
            lemma_with(t0, "kind"@, JsonTree::Text("balance"@));
            lemma_with(t1, "fetched_at_ms"@, n);
            lemma_with(t2, "amount"@, JsonTree::Text(amount@));
            lemma_with(t3, "currency"@, text_or_null(currency));
            let t = v.tree();
            assert(t.get("kind"@) == Some(JsonTree::Text("balance"@)));
            assert(t.get("fetched_at_ms"@) == Some(n));
            assert(t.get("amount"@) == Some(JsonTree::Text(amount@)));
            assert(t.get("currency"@) == Some(text_or_null(currency)));
        },
        BillingSnapshot::Usage { fetched_at_ms, pct_5h, pct_7d, resets, resets_7d } => {
            reveal_strlit("pct_5h");
            reveal_strlit("pct_7d");
            reveal_strlit("resets");
            reveal_strlit("resets_7d");
            assert("pct_5h"@.len() == 6 && "pct_7d"@.len() == 6 && "resets"@.len() == 6
                && "resets_7d"@.len() == 9 && "pct_5h"@[0] == 'p' && "resets"@[0] == 'r'
                && "pct_5h"@[4] == '5' && "pct_7d"@[4] == '7' && "pct_7d"@[0] == 'p');
            let n = JsonTree::Number(Num::Unsigned(fetched_at_ms));
            let t1 = t0.with("kind"@, JsonTree::Text("usage"@));
            let t2 = t1.with("fetched_at_ms"@, n);
            let t3 = t2.with("pct_5h"@, share_tree(pct_5h));
            let t4 = t3.with("pct_7d"@, share_tree(pct_7d));
            let t5 = t4.with("resets"@, text_or_null(resets));
            lemma_with(t0, "kind"@, JsonTree::Text("usage"@));
            lemma_with(t1, "fetched_at_ms"@, n);
            lemma_with(t2, "pct_5h"@, share_tree(pct_5h));
            lemma_with(t3, "pct_7d"@, share_tree(pct_7d));
            lemma_with(t4, "resets"@, text_or_null(resets));
            lemma_with(t5, "resets_7d"@, text_or_null(resets_7d));
            let t = v.tree();
            assert(t.get("kind"@) == Some(JsonTree::Text("usage"@)));
            assert(t.get("fetched_at_ms"@) == Some(n));
            assert(t.get("pct_5h"@) == Some(share_tree(pct_5h)));
            assert(t.get("pct_7d"@) == Some(share_tree(pct_7d)));
            assert(t.get("resets"@) == Some(text_or_null(resets)));
            assert(t.get("resets_7d"@) == Some(text_or_null(resets_7d)));
        },
    }
}

// Workspaces.

/// What holds for workspaces, in JSON.
pub open spec fn defaults_tree(entries: Seq<(String, WorkspaceDefaults)>) -> JsonTree {
    JsonTree::Object(entries.map_values(|e: (String, WorkspaceDefaults)| (e.0@, e.1.tree())))
}

/// What holds for workspaces, in JSON.
pub fn defaults_json(m: &StrMap<WorkspaceDefaults>) -> (r: Json)
    ensures
        r@ == defaults_tree(m.entries@),
{
    let ghost wanted = m.entries@.map_values(
        |e: (String, WorkspaceDefaults)| (e.0@, e.1.tree()),
    );
    let mut out: Vec<(String, Json)> = Vec::new();
    let mut i: usize = 0;
    while i < m.entries.len()
        invariant
            i <= m.entries.len(),
            wanted == m.entries@.map_values(
                |e: (String, WorkspaceDefaults)| (e.0@, e.1.tree()),
            ),
            entry_trees(out@) == wanted.take(i as int),
        decreases m.entries.len() - i,
    {
        let entry = (m.entries[i].0.clone(), m.entries[i].1.to_json());
        proof {
            assert(entry_trees(out@.push(entry)) =~= entry_trees(out@).push((entry.0@, entry.1@)));
            assert(wanted.take(i + 1) =~= wanted.take(i as int).push(wanted[i as int]));
        }
        out.push(entry);
        i = i + 1;
    }
    proof {
        assert(wanted.take(wanted.len() as int) =~= wanted);
        lemma_tree_of_object(out);
    }
    Json::Object(out)
}

/// What the entries of an object say of workspaces.
pub open spec fn object_defaults(entries: Seq<(Seq<char>, JsonTree)>) -> Map<
    Seq<char>,
    WorkspaceDefaultsView,
> {
    Map::new(
        |k: Seq<char>| lookup(entries, k) is Some,
        |k: Seq<char>| workspace_defaults_from(lookup(entries, k)->0)->0,
    )
}

/// What an object says of workspaces, where each entry says something.
pub open spec fn defaults_map_from(t: JsonTree) -> Option<Map<Seq<char>, WorkspaceDefaultsView>> {
    match t {
        JsonTree::Object(entries) => if forall|i: int|
            0 <= i < entries.len() ==> workspace_defaults_from((#[trigger] entries[i]).1) is Some {
            Some(object_defaults(entries))
        } else {
            None
        },
        _ => None,
    }
}

/// The model of what holds for workspaces.
pub open spec fn defaults_view(m: Map<Seq<char>, WorkspaceDefaults>) -> Map<
    Seq<char>,
    WorkspaceDefaultsView,
> {
    m.map_values(|d: WorkspaceDefaults| d@)
}

proof fn lemma_object_defaults_push(
    entries: Seq<(Seq<char>, JsonTree)>,
    key: Seq<char>,
    value: JsonTree,
)
    ensures
        object_defaults(entries.push((key, value))) == (if lookup(entries, key) is Some {
            object_defaults(entries)
        } else {
            object_defaults(entries).insert(key, workspace_defaults_from(value)->0)
        }),
{
    let more = entries.push((key, value));
    let wanted = if lookup(entries, key) is Some {
        object_defaults(entries)
    } else {
        object_defaults(entries).insert(key, workspace_defaults_from(value)->0)
    };
    assert forall|k: Seq<char>| object_defaults(more).dom().contains(k) == wanted.dom().contains(k) by {
        lemma_lookup_push(entries, key, value, k);
    }
    assert forall|k: Seq<char>| object_defaults(more).dom().contains(k) implies object_defaults(
        more,
    )[k] == wanted[k] by {
        lemma_lookup_push(entries, key, value, k);
    }
    assert(object_defaults(more) =~= wanted);
}

fn read_defaults_map(j: &Json) -> (r: Option<StrMap<WorkspaceDefaults>>)
    ensures
        match r {
            Some(m) => defaults_map_from(j@) == Some(defaults_view(m@)) && m.wf(),
            None => defaults_map_from(j@) is None,
        },
{
    let mut out: StrMap<WorkspaceDefaults> = StrMap::new();
    assert(defaults_view(out@) =~= Map::empty());
    let entries = match j.as_object() {
        Some(v) => v,
        None => {
            return None;
        },
    };
    let ghost all = entry_trees(entries@);
    let mut i: usize = 0;
    assert(object_defaults(all.take(0)) =~= Map::empty()) by {
        assert(all.take(0) =~= Seq::empty());
    }
    while i < entries.len()
        invariant
            i <= entries.len(),
            all == entry_trees(entries@),
            j@ == JsonTree::Object(all),
            out.wf(),
            defaults_view(out@) == object_defaults(all.take(i as int)),
            forall|k: int| 0 <= k < i ==> workspace_defaults_from((#[trigger] all[k]).1) is Some,
        decreases entries.len() - i,
    {
        let name = entries[i].0.as_str();
        let ghost seen = all.take(i as int);
        let ghost before = out@;
        proof {
            assert(all.take(i + 1) =~= seen.push(all[i as int]));
            assert(all[i as int] == (name@, entries@[i as int].1@));
            lemma_object_defaults_push(seen, name@, entries@[i as int].1@);
            assert(object_defaults(seen).dom().contains(name@) == (lookup(seen, name@) is Some));
            assert(defaults_view(before).dom().contains(name@) == before.dom().contains(name@));
        }
        let d = match WorkspaceDefaults::from_json(&entries[i].1) {
            Some(d) => d,
            None => {
                assert(workspace_defaults_from(all[i as int].1) is None);
                return None;
            },
        };
        if !out.contains(name) {
            let ghost v = d@;
            out.insert(name.to_owned(), d);
            assert(defaults_view(out@) =~= defaults_view(before).insert(name@, v));
        }
        i = i + 1;
    }
    assert(all.take(all.len() as int) =~= all);
    Some(out)
}

proof fn lemma_defaults_lookup(entries: Seq<(String, WorkspaceDefaults)>, key: Seq<char>)
    ensures
        ({
            let trees = entries.map_values(
                |e: (String, WorkspaceDefaults)| (e.0@, e.1.tree()),
            );
            let k = key_place(entries, key);
            if k < entries.len() {
                lookup(trees, key) == Some(entries[k].1.tree())
            } else {
                lookup(trees, key) is None
            }
        }),
    decreases entries.len(),
{
    let all = entries.map_values(|e: (String, WorkspaceDefaults)| (e.0@, e.1.tree()));
    lemma_key_place(entries, key);
    if entries.len() > 0 && entries[0].0@ != key {
        lemma_key_place(entries.drop_first(), key);
        lemma_defaults_lookup(entries.drop_first(), key);
        assert(all.drop_first() =~= entries.drop_first().map_values(
            |e: (String, WorkspaceDefaults)| (e.0@, e.1.tree()),
        ));
    }
}

proof fn lemma_defaults_map_back(m: StrMap<WorkspaceDefaults>)
    ensures
        defaults_map_from(defaults_tree(m.entries@)) == Some(defaults_view(m@)),
{
    let all = defaults_tree(m.entries@)->Object_0;
    assert forall|i: int| 0 <= i < all.len() implies workspace_defaults_from(
        (#[trigger] all[i]).1,
    ) is Some by {
        law_workspace_defaults_round_trip(m.entries@[i].1);
    }
    assert forall|k: Seq<char>| object_defaults(all).dom().contains(k) == defaults_view(
        m@,
    ).dom().contains(k) by {
        lemma_defaults_lookup(m.entries@, k);
        lemma_key_place(m.entries@, k);
    }
    assert forall|k: Seq<char>| object_defaults(all).dom().contains(k) implies object_defaults(
        all,
    )[k] == defaults_view(m@)[k] by {
        lemma_defaults_lookup(m.entries@, k);
        lemma_key_place(m.entries@, k);
        law_workspace_defaults_round_trip(m.entries@[key_place(m.entries@, k)].1);
    }
    assert(object_defaults(all) =~= defaults_view(m@));
}

/// What a value stands for as [`BillingPaths`], where it does.
pub open spec fn billing_paths_from(t: JsonTree) -> Option<BillingPathsView> {
    if t is Object && opt_text(t, "balance"@) is Some
        && opt_text(t, "currency"@) is Some
        && opt_text(t, "usage_5h"@) is Some
        && opt_text(t, "usage_7d"@) is Some
        && opt_text(t, "resets"@) is Some
        && opt_text(t, "resets_7d"@) is Some {
        Some(
            BillingPathsView {
                balance: opt_text(t, "balance"@)->0,
                currency: opt_text(t, "currency"@)->0,
                usage_5h: opt_text(t, "usage_5h"@)->0,
                usage_7d: opt_text(t, "usage_7d"@)->0,
                resets: opt_text(t, "resets"@)->0,
                resets_7d: opt_text(t, "resets_7d"@)->0,
            },
        )
    } else {
        None
    }
}

impl BillingPaths {
    /// Reads it out of JSON.
    pub fn from_json(j: &Json) -> (r: Option<BillingPaths>)
        ensures
            match r {
                Some(v) => billing_paths_from(j@) == Some(v@),
                None => billing_paths_from(j@) is None,
            },
    {
        if !j.is_object() {
            return None;
        }
        let balance: Option<String> = match read_opt_text(j, "balance") {
            Some(v) => v,
            None => {
                return None;
            },
        };
        let currency: Option<String> = match read_opt_text(j, "currency") {
            Some(v) => v,
            None => {
                return None;
            },
        };
        let usage_5h: Option<String> = match read_opt_text(j, "usage_5h") {
            Some(v) => v,
            None => {
                return None;
            },
        };
        let usage_7d: Option<String> = match read_opt_text(j, "usage_7d") {
            Some(v) => v,
            None => {
                return None;
            },
        };
        let resets: Option<String> = match read_opt_text(j, "resets") {
            Some(v) => v,
            None => {
                return None;
            },
        };
        let resets_7d: Option<String> = match read_opt_text(j, "resets_7d") {
            Some(v) => v,
            None => {
                return None;
            },
        };
        Some(BillingPaths { balance, currency, usage_5h, usage_7d, resets, resets_7d })
    }
}

/// What a value stands for as [`BillingConfig`], where it does.
pub open spec fn billing_config_from(t: JsonTree) -> Option<BillingView> {
    if t is Object && billing_kind_from(t.at("kind"@)) is Some
        && req_text(t, "url"@) is Some
        && billing_paths_from(t.at("paths"@)) is Some
        && opt_text(t, "auth_style"@) is Some {
        Some(
            BillingView {
                kind: billing_kind_from(t.at("kind"@))->0,
                url: req_text(t, "url"@)->0,
                paths: billing_paths_from(t.at("paths"@))->0,
                auth_style: opt_text(t, "auth_style"@)->0,
            },
        )
    } else {
        None
    }
}

impl BillingConfig {
    /// Reads it out of JSON.
    pub fn from_json(j: &Json) -> (r: Option<BillingConfig>)
        ensures
            match r {
                Some(v) => billing_config_from(j@) == Some(v@),
                None => billing_config_from(j@) is None,
            },
    {
        if !j.is_object() {
            return None;
        }
        let kind: BillingKind = match read_billing_kind(&member(j, "kind")) {
            Some(v) => v,
            None => {
                return None;
            },
        };
        let url: String = match read_req_text(j, "url") {
            Some(v) => v,
            None => {
                return None;
            },
        };
        let paths: BillingPaths = match BillingPaths::from_json(&member(j, "paths")) {
            Some(v) => v,
            None => {
                return None;
            },
        };
        let auth_style: Option<String> = match read_opt_text(j, "auth_style") {
            Some(v) => v,
            None => {
                return None;
            },
        };
        Some(BillingConfig { kind, url, paths, auth_style })
    }
}

/// What a value stands for as [`ProviderEntry`], where it does.
pub open spec fn provider_entry_from(t: JsonTree) -> Option<ProviderView> {
    if t is Object && req_text(t, "id"@) is Some
        && req_text(t, "base_url"@) is Some
        && req_text(t, "dialect"@) is Some
        && opt_text(t, "credential_ref"@) is Some
        && opt_text(t, "api_key"@) is Some
        && opt_text(t, "default_model"@) is Some
        && opt_text(t, "display_name"@) is Some
        && def_texts(t, "models"@) is Some
        && optional_billing_config(t, "billing"@) is Some
        && optional_billing_snapshot(t, "billing_cache"@) is Some
        && def_numbers(t, "model_context_windows"@) is Some {
        Some(
            ProviderView {
                id: req_text(t, "id"@)->0,
                base_url: req_text(t, "base_url"@)->0,
                dialect: req_text(t, "dialect"@)->0,
                credential_ref: opt_text(t, "credential_ref"@)->0,
                api_key: opt_text(t, "api_key"@)->0,
                default_model: opt_text(t, "default_model"@)->0,
                display_name: opt_text(t, "display_name"@)->0,
                models: def_texts(t, "models"@)->0,
                billing: optional_billing_config(t, "billing"@)->0,
                billing_cache: optional_billing_snapshot(t, "billing_cache"@)->0,
                model_context_windows: def_numbers(t, "model_context_windows"@)->0,
            },
        )
    } else {
        None
    }
}

impl ProviderEntry {
    /// Reads it out of JSON.
    pub fn from_json(j: &Json) -> (r: Option<ProviderEntry>)
        ensures
            match r {
                Some(v) => provider_entry_from(j@) == Some(v@) && v.wf(),
                None => provider_entry_from(j@) is None,
            },
    {
        if !j.is_object() {
            return None;
        }
        let id: String = match read_req_text(j, "id") {
            Some(v) => v,
            None => {
                return None;
            },
        };
        let base_url: String = match read_req_text(j, "base_url") {
            Some(v) => v,
            None => {
                return None;
            },
        };
        let dialect: String = match read_req_text(j, "dialect") {
            Some(v) => v,
            None => {
                return None;
            },
        };
        let credential_ref: Option<String> = match read_opt_text(j, "credential_ref") {
            Some(v) => v,
            None => {
                return None;
            },
        };
        let api_key: Option<String> = match read_opt_text(j, "api_key") {
            Some(v) => v,
            None => {
                return None;
            },
        };
        let default_model: Option<String> = match read_opt_text(j, "default_model") {
            Some(v) => v,
            None => {
                return None;
            },
        };
        let display_name: Option<String> = match read_opt_text(j, "display_name") {
            Some(v) => v,
            None => {
                return None;
            },
        };
        let models: Vec<String> = match read_def_texts(j, "models") {
            Some(v) => v,
            None => {
                return None;
            },
        };
        let billing: Option<BillingConfig> = match read_optional_billing_config(j, "billing") {
            Some(v) => v,
            None => {
                return None;
            },
        };
        let billing_cache: Option<BillingSnapshot> = match read_optional_billing_snapshot(
            j,
            "billing_cache",
        ) {
            Some(v) => v,
            None => {
                return None;
            },
        };
        let model_context_windows: StrMap<u64> = match read_def_numbers(
            j,
            "model_context_windows",
        ) {
            Some(v) => v,
            None => {
                return None;
            },
        };
        Some(
            ProviderEntry {
                id,
                base_url,
                dialect,
                credential_ref,
                api_key,
                default_model,
                display_name,
                models,
                billing,
                billing_cache,
                model_context_windows,
            },
        )
    }
}

/// What a value stands for as [`WorkspaceDefaults`], where it does.
pub open spec fn workspace_defaults_from(t: JsonTree) -> Option<WorkspaceDefaultsView> {
    if t is Object && opt_text(t, "provider"@) is Some
        && opt_text(t, "model"@) is Some
        && opt_text(t, "default_permission_preset"@) is Some
        && opt_text(t, "preset"@) is Some
        && opt_text(t, "effort"@) is Some {
        Some(
            WorkspaceDefaultsView {
                provider: opt_text(t, "provider"@)->0,
                model: opt_text(t, "model"@)->0,
                default_permission_preset: opt_text(t, "default_permission_preset"@)->0,
                preset: opt_text(t, "preset"@)->0,
                effort: opt_text(t, "effort"@)->0,
            },
        )
    } else {
        None
    }
}

impl WorkspaceDefaults {
    /// Reads it out of JSON.
    pub fn from_json(j: &Json) -> (r: Option<WorkspaceDefaults>)
        ensures
            match r {
                Some(v) => workspace_defaults_from(j@) == Some(v@),
                None => workspace_defaults_from(j@) is None,
            },
    {
        if !j.is_object() {
            return None;
        }
        let provider: Option<String> = match read_opt_text(j, "provider") {
            Some(v) => v,
            None => {
                return None;
            },
        };
        let model: Option<String> = match read_opt_text(j, "model") {
            Some(v) => v,
            None => {
                return None;
            },
        };
        let default_permission_preset: Option<String> = match read_opt_text(
            j,
            "default_permission_preset",
        ) {
            Some(v) => v,
            None => {
                return None;
            },
        };
        let preset: Option<String> = match read_opt_text(j, "preset") {
            Some(v) => v,
            None => {
                return None;
            },
        };
        let effort: Option<String> = match read_opt_text(j, "effort") {
            Some(v) => v,
            None => {
                return None;
            },
        };
        Some(WorkspaceDefaults { provider, model, default_permission_preset, preset, effort })
    }
}

/// What a value stands for as [`HookBridgeEntry`], where it does; `dialect` is the
/// one it is in where it names none.
pub open spec fn hook_bridge_entry_from(t: JsonTree, dialect: Seq<char>) -> Option<HookBridgeView> {
    if t is Object && def_text(t, "id"@, ""@) is Some
        && def_text(t, "dialect"@, dialect) is Some
        && def_text(t, "configPath"@, ""@) is Some
        && def_bool(t, "enabled"@, true) is Some
        && opt_text(t, "pluginRoot"@) is Some
        && opt_text(t, "projectDir"@) is Some
        && opt_u64(t, "defaultTimeoutMs"@) is Some
        && opt_usize(t, "stderrSummaryMaxChars"@) is Some {
        Some(
            HookBridgeView {
                id: def_text(t, "id"@, ""@)->0,
                dialect: def_text(t, "dialect"@, dialect)->0,
                config_path: def_text(t, "configPath"@, ""@)->0,
                enabled: def_bool(t, "enabled"@, true)->0,
                plugin_root: opt_text(t, "pluginRoot"@)->0,
                project_dir: opt_text(t, "projectDir"@)->0,
                default_timeout_ms: opt_u64(t, "defaultTimeoutMs"@)->0,
                stderr_summary_max_chars: opt_usize(t, "stderrSummaryMaxChars"@)->0,
            },
        )
    } else {
        None
    }
}

impl HookBridgeEntry {
    /// Reads it out of JSON; `dialect` is that of hooks which name none.
    pub fn from_json(j: &Json, dialect: &str) -> (r: Option<HookBridgeEntry>)
        ensures
            match r {
                Some(v) => hook_bridge_entry_from(j@, dialect@) == Some(v@),
                None => hook_bridge_entry_from(j@, dialect@) is None,
            },
    {
        if !j.is_object() {
            return None;
        }
        let id: String = match read_def_text(j, "id", "") {
            Some(v) => v,
            None => {
                return None;
            },
        };
        let dialect: String = match read_def_text(j, "dialect", dialect) {
            Some(v) => v,
            None => {
                return None;
            },
        };
        let config_path: String = match read_def_text(j, "configPath", "") {
            Some(v) => v,
            None => {
                return None;
            },
        };
        let enabled: bool = match read_def_bool(j, "enabled", true) {
            Some(v) => v,
            None => {
                return None;
            },
        };
        let plugin_root: Option<String> = match read_opt_text(j, "pluginRoot") {
            Some(v) => v,
            None => {
                return None;
            },
        };
        let project_dir: Option<String> = match read_opt_text(j, "projectDir") {
            Some(v) => v,
            None => {
                return None;
            },
        };
        let default_timeout_ms: Option<u64> = match read_opt_u64(j, "defaultTimeoutMs") {
            Some(v) => v,
            None => {
                return None;
            },
        };
        let stderr_summary_max_chars: Option<usize> = match read_opt_usize(
            j,
            "stderrSummaryMaxChars",
        ) {
            Some(v) => v,
            None => {
                return None;
            },
        };
        Some(
            HookBridgeEntry {
                id,
                dialect,
                config_path,
                enabled,
                plugin_root,
                project_dir,
                default_timeout_ms,
                stderr_summary_max_chars,
            },
        )
    }
}

/// What a value stands for as [`McpServerEntry`], where it does.
pub open spec fn mcp_server_entry_from(t: JsonTree) -> Option<McpServerView> {
    if t is Object && def_text(t, "id"@, ""@) is Some
        && def_bool(t, "enabled"@, true) is Some
        && def_text(t, "command"@, ""@) is Some
        && def_texts(t, "args"@) is Some
        && def_textmap(t, "env"@) is Some
        && opt_text(t, "cwd"@) is Some
        && opt_u64(t, "toolCallTimeoutMs"@) is Some
        && opt_text(t, "url"@) is Some
        && def_textmap(t, "headers"@) is Some {
        Some(
            McpServerView {
                id: def_text(t, "id"@, ""@)->0,
                enabled: def_bool(t, "enabled"@, true)->0,
                command: def_text(t, "command"@, ""@)->0,
                args: def_texts(t, "args"@)->0,
                env: def_textmap(t, "env"@)->0,
                cwd: opt_text(t, "cwd"@)->0,
                tool_call_timeout_ms: opt_u64(t, "toolCallTimeoutMs"@)->0,
                url: opt_text(t, "url"@)->0,
                headers: def_textmap(t, "headers"@)->0,
            },
        )
    } else {
        None
    }
}

impl McpServerEntry {
    /// Reads it out of JSON.
    pub fn from_json(j: &Json) -> (r: Option<McpServerEntry>)
        ensures
            match r {
                Some(v) => mcp_server_entry_from(j@) == Some(v@) && v.wf(),
                None => mcp_server_entry_from(j@) is None,
            },
    {
        if !j.is_object() {
            return None;
        }
        let id: String = match read_def_text(j, "id", "") {
            Some(v) => v,
            None => {
                return None;
            },
        };
        let enabled: bool = match read_def_bool(j, "enabled", true) {
            Some(v) => v,
            None => {
                return None;
            },
        };
        let command: String = match read_def_text(j, "command", "") {
            Some(v) => v,
            None => {
                return None;
            },
        };
        let args: Vec<String> = match read_def_texts(j, "args") {
            Some(v) => v,
            None => {
                return None;
            },
        };
        let env: StrMap<String> = match read_def_textmap(j, "env") {
            Some(v) => v,
            None => {
                return None;
            },
        };
        let cwd: Option<String> = match read_opt_text(j, "cwd") {
            Some(v) => v,
            None => {
                return None;
            },
        };
        let tool_call_timeout_ms: Option<u64> = match read_opt_u64(j, "toolCallTimeoutMs") {
            Some(v) => v,
            None => {
                return None;
            },
        };
        let url: Option<String> = match read_opt_text(j, "url") {
            Some(v) => v,
            None => {
                return None;
            },
        };
        let headers: StrMap<String> = match read_def_textmap(j, "headers") {
            Some(v) => v,
            None => {
                return None;
            },
        };
        Some(
            McpServerEntry {
                id,
                enabled,
                command,
                args,
                env,
                cwd,
                tool_call_timeout_ms,
                url,
                headers,
            },
        )
    }
}

/// What a value stands for as [`SettingsFile`], where it does; `dialect` is the
/// one that hooks are in which name none.
pub open spec fn settings_file_from(t: JsonTree, dialect: Seq<char>) -> Option<SettingsView> {
    if t is Object && req_u32(t, "version"@) is Some
        && req_bool(t, "onboarded"@) is Some
        && provider_entry_list_from(t.at("providers"@)) is Some
        && defaults_map_from(t.at("workspaces"@)) is Some
        && def_texts(t, "workspace_paths"@) is Some
        && def_textmap(t, "workspace_titles"@) is Some
        && def_text(t, "busy_enter"@, "queue"@) is Some
        && def_text(t, "language"@, "zh"@) is Some
        && def_text(t, "appearance"@, "dark"@) is Some
        && def_mcp_server_entry_list(t, "mcp_servers"@) is Some
        && def_hook_bridge_entry_list(t, "hook_bridges"@, dialect) is Some {
        Some(
            SettingsView {
                version: req_u32(t, "version"@)->0,
                onboarded: req_bool(t, "onboarded"@)->0,
                providers: provider_entry_list_from(t.at("providers"@))->0,
                workspaces: defaults_map_from(t.at("workspaces"@))->0,
                workspace_paths: def_texts(t, "workspace_paths"@)->0,
                workspace_titles: def_textmap(t, "workspace_titles"@)->0,
                busy_enter: def_text(t, "busy_enter"@, "queue"@)->0,
                language: def_text(t, "language"@, "zh"@)->0,
                appearance: def_text(t, "appearance"@, "dark"@)->0,
                mcp_servers: def_mcp_server_entry_list(t, "mcp_servers"@)->0,
                hook_bridges: def_hook_bridge_entry_list(t, "hook_bridges"@, dialect)->0,
            },
        )
    } else {
        None
    }
}

impl SettingsFile {
    /// Reads it out of JSON; `dialect` is that of hooks which name none.
    pub fn from_json(j: &Json, dialect: &str) -> (r: Option<SettingsFile>)
        ensures
            match r {
                Some(v) => settings_file_from(j@, dialect@) == Some(v@) && v.wf(),
                None => settings_file_from(j@, dialect@) is None,
            },
    {
        if !j.is_object() {
            return None;
        }
        let version: u32 = match read_req_u32(j, "version") {
            Some(v) => v,
            None => {
                return None;
            },
        };
        let onboarded: bool = match read_req_bool(j, "onboarded") {
            Some(v) => v,
            None => {
                return None;
            },
        };
        let providers: Vec<ProviderEntry> = match read_provider_entry_list(
            &member(j,
            "providers"),
        ) {
            Some(v) => v,
            None => {
                return None;
            },
        };
        let workspaces: StrMap<WorkspaceDefaults> = match read_defaults_map(
            &member(j,
            "workspaces"),
        ) {
            Some(v) => v,
            None => {
                return None;
            },
        };
        let workspace_paths: Vec<String> = match read_def_texts(j, "workspace_paths") {
            Some(v) => v,
            None => {
                return None;
            },
        };
        let workspace_titles: StrMap<String> = match read_def_textmap(j, "workspace_titles") {
            Some(v) => v,
            None => {
                return None;
            },
        };
        let busy_enter: String = match read_def_text(j, "busy_enter", "queue") {
            Some(v) => v,
            None => {
                return None;
            },
        };
        let language: String = match read_def_text(j, "language", "zh") {
            Some(v) => v,
            None => {
                return None;
            },
        };
        let appearance: String = match read_def_text(j, "appearance", "dark") {
            Some(v) => v,
            None => {
                return None;
            },
        };
        let mcp_servers: Vec<McpServerEntry> = match read_def_mcp_server_entry_list(
            j,
            "mcp_servers",
        ) {
            Some(v) => v,
            None => {
                return None;
            },
        };
        let hook_bridges: Vec<HookBridgeEntry> = match read_def_hook_bridge_entry_list(
            j,
            "hook_bridges",
            dialect,
        ) {
            Some(v) => v,
            None => {
                return None;
            },
        };
        Some(
            SettingsFile {
                version,
                onboarded,
                providers,
                workspaces,
                workspace_paths,
                workspace_titles,
                busy_enter,
                language,
                appearance,
                mcp_servers,
                hook_bridges,
            },
        )
    }
}

/// What stands under a key as [`BillingConfig`]; nothing where nothing stands there.
pub open spec fn optional_billing_config(
    t: JsonTree,
    key: Seq<char>,
) -> Option<Option<BillingView>> {
    match t.at(key) {
        JsonTree::Null => Some(None),
        other => match billing_config_from(other) {
            Some(v) => Some(Some(v)),
            None => None,
        },
    }
}

fn read_optional_billing_config(j: &Json, key: &str) -> (r: Option<Option<BillingConfig>>)
    ensures
        match r {
            Some(Some(v)) => optional_billing_config(j@, key@) == Some(Some(v@)),
            Some(None) => optional_billing_config(j@, key@) == Some(None::<BillingView>),
            None => optional_billing_config(j@, key@) is None,
        },
{
    let m = member(j, key);
    match m {
        Json::Null => Some(None),
        _ => match BillingConfig::from_json(&m) {
            Some(v) => Some(Some(v)),
            None => None,
        },
    }
}

/// What stands under a key as [`BillingSnapshot`]; nothing where nothing stands there.
pub open spec fn optional_billing_snapshot(
    t: JsonTree,
    key: Seq<char>,
) -> Option<Option<SnapshotView>> {
    match t.at(key) {
        JsonTree::Null => Some(None),
        other => match billing_snapshot_from(other) {
            Some(v) => Some(Some(v)),
            None => None,
        },
    }
}

fn read_optional_billing_snapshot(j: &Json, key: &str) -> (r: Option<Option<BillingSnapshot>>)
    ensures
        match r {
            Some(Some(v)) => optional_billing_snapshot(j@, key@) == Some(Some(v@)),
            Some(None) => optional_billing_snapshot(j@, key@) == Some(None::<SnapshotView>),
            None => optional_billing_snapshot(j@, key@) is None,
        },
{
    let m = member(j, key);
    match m {
        Json::Null => Some(None),
        _ => match BillingSnapshot::from_json(&m) {
            Some(v) => Some(Some(v)),
            None => None,
        },
    }
}

/// What an array stands for as a run of [`ProviderEntry`], where each item does.
pub open spec fn provider_entry_list_from(t: JsonTree) -> Option<Seq<ProviderView>> {
    match t {
        JsonTree::Array(items) => if forall|i: int|
            0 <= i < items.len() ==> provider_entry_from(#[trigger] items[i]) is Some {
            Some(items.map_values(|x: JsonTree| provider_entry_from(x)->0))
        } else {
            None
        },
        _ => None,
    }
}

fn read_provider_entry_list(j: &Json) -> (r: Option<Vec<ProviderEntry>>)
    ensures
        match r {
            Some(v) => provider_entry_list_from(j@) == Some(provider_entry_views(v@)) && forall|i: int|
                0 <= i < v@.len() ==> (#[trigger] v@[i]).wf(),
            None => provider_entry_list_from(j@) is None,
        },
{
    let items = match j.as_array() {
        Some(v) => v,
        None => {
            return None;
        },
    };
    let ghost all = trees(items@);
    let mut out: Vec<ProviderEntry> = Vec::new();
    let mut i: usize = 0;
    while i < items.len()
        invariant
            i <= items.len(),
            all == trees(items@),
            j@ == JsonTree::Array(all),
            out@.len() == i,
            forall|k: int| 0 <= k < i ==> provider_entry_from(#[trigger] all[k]) == Some(out@[k]@),
            forall|k: int| 0 <= k < out@.len() ==> (#[trigger] out@[k]).wf(),
        decreases items.len() - i,
    {
        assert(all[i as int] == items@[i as int]@);
        match ProviderEntry::from_json(&items[i]) {
            Some(v) => {
                out.push(v);
            },
            None => {
                assert(provider_entry_from(j@->Array_0[i as int]) is None);
                return None;
            },
        }
        i = i + 1;
    }
    assert(all.map_values(|x: JsonTree| provider_entry_from(x)->0) =~= provider_entry_views(out@));
    Some(out)
}

/// What an array stands for as a run of [`McpServerEntry`], where each item does.
pub open spec fn mcp_server_entry_list_from(t: JsonTree) -> Option<Seq<McpServerView>> {
    match t {
        JsonTree::Array(items) => if forall|i: int|
            0 <= i < items.len() ==> mcp_server_entry_from(#[trigger] items[i]) is Some {
            Some(items.map_values(|x: JsonTree| mcp_server_entry_from(x)->0))
        } else {
            None
        },
        _ => None,
    }
}

fn read_mcp_server_entry_list(j: &Json) -> (r: Option<Vec<McpServerEntry>>)
    ensures
        match r {
            Some(v) => mcp_server_entry_list_from(j@) == Some(mcp_server_entry_views(v@)) && forall|i: int|
                0 <= i < v@.len() ==> (#[trigger] v@[i]).wf(),
            None => mcp_server_entry_list_from(j@) is None,
        },
{
    let items = match j.as_array() {
        Some(v) => v,
        None => {
            return None;
        },
    };
    let ghost all = trees(items@);
    let mut out: Vec<McpServerEntry> = Vec::new();
    let mut i: usize = 0;
    while i < items.len()
        invariant
            i <= items.len(),
            all == trees(items@),
            j@ == JsonTree::Array(all),
            out@.len() == i,
            forall|k: int| 0 <= k < i ==> mcp_server_entry_from(#[trigger] all[k])
                == Some(out@[k]@),
            forall|k: int| 0 <= k < out@.len() ==> (#[trigger] out@[k]).wf(),
        decreases items.len() - i,
    {
        assert(all[i as int] == items@[i as int]@);
        match McpServerEntry::from_json(&items[i]) {
            Some(v) => {
                out.push(v);
            },
            None => {
                assert(mcp_server_entry_from(j@->Array_0[i as int]) is None);
                return None;
            },
        }
        i = i + 1;
    }
    assert(all.map_values(|x: JsonTree| mcp_server_entry_from(x)->0)
        =~= mcp_server_entry_views(out@));
    Some(out)
}

/// What stands under a key as a run of [`McpServerEntry`]; none where nothing stands there.
pub open spec fn def_mcp_server_entry_list(
    t: JsonTree,
    key: Seq<char>,
) -> Option<Seq<McpServerView>> {
    match t.get(key) {
        None => Some(Seq::empty()),
        Some(v) => mcp_server_entry_list_from(v),
    }
}

fn read_def_mcp_server_entry_list(j: &Json, key: &str) -> (r: Option<Vec<McpServerEntry>>)
    ensures
        match r {
            Some(v) => def_mcp_server_entry_list(j@, key@) == Some(mcp_server_entry_views(v@)) && forall|i: int|
                0 <= i < v@.len() ==> (#[trigger] v@[i]).wf(),
            None => def_mcp_server_entry_list(j@, key@) is None,
        },
{
    match j.get(key) {
        Some(v) => read_mcp_server_entry_list(v),
        None => {
            let none: Vec<McpServerEntry> = Vec::new();
            assert(mcp_server_entry_views(none@) =~= Seq::empty());
            Some(none)
        },
    }
}

/// What an array stands for as a run of [`HookBridgeEntry`], where each item does.
pub open spec fn hook_bridge_entry_list_from(
    t: JsonTree,
    dialect: Seq<char>,
) -> Option<Seq<HookBridgeView>> {
    match t {
        JsonTree::Array(items) => if forall|i: int|
            0 <= i < items.len() ==> hook_bridge_entry_from(#[trigger] items[i], dialect) is Some {
            Some(items.map_values(|x: JsonTree| hook_bridge_entry_from(x, dialect)->0))
        } else {
            None
        },
        _ => None,
    }
}

fn read_hook_bridge_entry_list(j: &Json, dialect: &str) -> (r: Option<Vec<HookBridgeEntry>>)
    ensures
        match r {
            Some(v) => hook_bridge_entry_list_from(j@, dialect@)
                == Some(hook_bridge_entry_views(v@)),
            None => hook_bridge_entry_list_from(j@, dialect@) is None,
        },
{
    let items = match j.as_array() {
        Some(v) => v,
        None => {
            return None;
        },
    };
    let ghost all = trees(items@);
    let mut out: Vec<HookBridgeEntry> = Vec::new();
    let mut i: usize = 0;
    while i < items.len()
        invariant
            i <= items.len(),
            all == trees(items@),
            j@ == JsonTree::Array(all),
            out@.len() == i,
            forall|k: int| 0 <= k < i ==> hook_bridge_entry_from(#[trigger] all[k], dialect@)
                == Some(out@[k]@),
            
        decreases items.len() - i,
    {
        assert(all[i as int] == items@[i as int]@);
        match HookBridgeEntry::from_json(&items[i], dialect) {
            Some(v) => {
                out.push(v);
            },
            None => {
                assert(hook_bridge_entry_from(j@->Array_0[i as int], dialect@) is None);
                return None;
            },
        }
        i = i + 1;
    }
    assert(all.map_values(|x: JsonTree| hook_bridge_entry_from(x, dialect@)->0)
        =~= hook_bridge_entry_views(out@));
    Some(out)
}

/// What stands under a key as a run of [`HookBridgeEntry`]; none where nothing stands there.
pub open spec fn def_hook_bridge_entry_list(
    t: JsonTree,
    key: Seq<char>,
    dialect: Seq<char>,
) -> Option<Seq<HookBridgeView>> {
    match t.get(key) {
        None => Some(Seq::empty()),
        Some(v) => hook_bridge_entry_list_from(v, dialect),
    }
}

fn read_def_hook_bridge_entry_list(
    j: &Json,
    key: &str,
    dialect: &str,
) -> (r: Option<Vec<HookBridgeEntry>>)
    ensures
        match r {
            Some(v) => def_hook_bridge_entry_list(j@, key@, dialect@)
                == Some(hook_bridge_entry_views(v@)),
            None => def_hook_bridge_entry_list(j@, key@, dialect@) is None,
        },
{
    match j.get(key) {
        Some(v) => read_hook_bridge_entry_list(v, dialect),
        None => {
            let none: Vec<HookBridgeEntry> = Vec::new();
            assert(hook_bridge_entry_views(none@) =~= Seq::empty());
            Some(none)
        },
    }
}

impl SettingsFile {
    /// How the settings stand in JSON.
    pub open spec fn tree(self) -> JsonTree {
        JsonTree::object()
            .with("version"@, JsonTree::Number(Num::Unsigned(self.version as u64)))
            .with("onboarded"@, JsonTree::Bool(self.onboarded))
            .with("providers"@, provider_entry_trees(self.providers@))
            .with("workspaces"@, defaults_tree(self.workspaces.entries@))
            .with("workspace_paths"@, JsonTree::Array(text_trees(self.workspace_paths@)))
            .with("workspace_titles"@, text_map_tree(self.workspace_titles.entries@))
            .with("busy_enter"@, JsonTree::Text(self.busy_enter@))
            .with("language"@, JsonTree::Text(self.language@))
            .with("appearance"@, JsonTree::Text(self.appearance@))
            .with("mcp_servers"@, mcp_server_entry_trees(self.mcp_servers@))
            .with("hook_bridges"@, hook_bridge_entry_trees(self.hook_bridges@))
    }

    /// How the settings stand in JSON.
    pub fn to_json(&self) -> (r: Json)
        ensures
            r@ == self.tree(),
    {
        Json::object()
            .with("version", Json::number(self.version as u64))
            .with("onboarded", Json::Bool(self.onboarded))
            .with("providers", providers_json(&self.providers))
            .with("workspaces", defaults_json(&self.workspaces))
            .with("workspace_paths", texts_json(&self.workspace_paths))
            .with("workspace_titles", text_map_json(&self.workspace_titles))
            .with("busy_enter", Json::text(self.busy_enter.as_str()))
            .with("language", Json::text(self.language.as_str()))
            .with("appearance", Json::text(self.appearance.as_str()))
            .with("mcp_servers", servers_json(&self.mcp_servers))
            .with("hook_bridges", hooks_json(&self.hook_bridges))
    }
}

/// What is written is read back as it was.
pub proof fn law_billing_paths_round_trip(v: BillingPaths)
    ensures
        v.tree() is Object,
        billing_paths_from(v.tree()) == Some(v@),
{
    reveal_strlit("balance");
    reveal_strlit("currency");
    reveal_strlit("usage_5h");
    reveal_strlit("usage_7d");
    reveal_strlit("resets");
    reveal_strlit("resets_7d");
    assert("balance"@.len() == 7
        && "currency"@.len() == 8
        && "usage_5h"@.len() == 8
        && "usage_7d"@.len() == 8
        && "resets"@.len() == 6
        && "resets_7d"@.len() == 9
        && "currency"@[0] == 'c'
        && "usage_5h"@[0] == 'u'
        && "usage_7d"@[0] == 'u'
        && "usage_5h"@[6] == '5'
        && "usage_7d"@[6] == '7');
    let t0 = JsonTree::object();
    let e0 = text_or_null(v.balance);
    let t1 = t0.with("balance"@, e0);
    lemma_with(t0, "balance"@, e0);
    let e1 = text_or_null(v.currency);
    let t2 = t1.with("currency"@, e1);
    lemma_with(t1, "currency"@, e1);
    let e2 = text_or_null(v.usage_5h);
    let t3 = t2.with("usage_5h"@, e2);
    lemma_with(t2, "usage_5h"@, e2);
    let e3 = text_or_null(v.usage_7d);
    let t4 = t3.with("usage_7d"@, e3);
    lemma_with(t3, "usage_7d"@, e3);
    let e4 = text_or_null(v.resets);
    let t5 = t4.with("resets"@, e4);
    lemma_with(t4, "resets"@, e4);
    let e5 = text_or_null(v.resets_7d);
    let t6 = t5.with("resets_7d"@, e5);
    lemma_with(t5, "resets_7d"@, e5);
    assert(t6 == v.tree());
    assert(t6.get("balance"@) == Some(e0));
    assert(t6.get("currency"@) == Some(e1));
    assert(t6.get("usage_5h"@) == Some(e2));
    assert(t6.get("usage_7d"@) == Some(e3));
    assert(t6.get("resets"@) == Some(e4));
    assert(t6.get("resets_7d"@) == Some(e5));
}

/// What is written is read back as it was.
pub proof fn law_billing_config_round_trip(v: BillingConfig)
    ensures
        v.tree() is Object,
        billing_config_from(v.tree()) == Some(v@),
{
    reveal_strlit("kind");
    reveal_strlit("url");
    reveal_strlit("paths");
    reveal_strlit("auth_style");
    reveal_strlit("balance");
    reveal_strlit("usage");
    assert("balance"@.len() == 7 && "usage"@.len() == 5);
    assert("kind"@.len() == 4
        && "url"@.len() == 3
        && "paths"@.len() == 5
        && "auth_style"@.len() == 10);
    let t0 = JsonTree::object();
    let e0 = v.kind.tree();
    let t1 = t0.with("kind"@, e0);
    lemma_with(t0, "kind"@, e0);
    let e1 = JsonTree::Text(v.url@);
    let t2 = t1.with("url"@, e1);
    lemma_with(t1, "url"@, e1);
    let e2 = v.paths.tree();
    let t3 = t2.with("paths"@, e2);
    lemma_with(t2, "paths"@, e2);
    let e3 = text_or_null(v.auth_style);
    let t4 = t3.with("auth_style"@, e3);
    lemma_with(t3, "auth_style"@, e3);
    assert(t4 == v.tree());
    assert(t4.get("kind"@) == Some(e0));
    assert(t4.get("url"@) == Some(e1));
    assert(t4.get("paths"@) == Some(e2));
    law_billing_paths_round_trip(v.paths);
    assert(t4.get("auth_style"@) == Some(e3));
}

/// What is written is read back as it was.
pub proof fn law_provider_entry_round_trip(v: ProviderEntry)
    ensures
        v.tree() is Object,
        provider_entry_from(v.tree()) == Some(v@),
{
    reveal_strlit("id");
    reveal_strlit("base_url");
    reveal_strlit("dialect");
    reveal_strlit("credential_ref");
    reveal_strlit("api_key");
    reveal_strlit("default_model");
    reveal_strlit("display_name");
    reveal_strlit("models");
    reveal_strlit("billing");
    reveal_strlit("billing_cache");
    reveal_strlit("model_context_windows");
    assert("id"@.len() == 2
        && "base_url"@.len() == 8
        && "dialect"@.len() == 7
        && "credential_ref"@.len() == 14
        && "api_key"@.len() == 7
        && "default_model"@.len() == 13
        && "display_name"@.len() == 12
        && "models"@.len() == 6
        && "billing"@.len() == 7
        && "billing_cache"@.len() == 13
        && "model_context_windows"@.len() == 21
        && "dialect"@[0] == 'd'
        && "api_key"@[0] == 'a'
        && "billing"@[0] == 'b'
        && "default_model"@[0] == 'd'
        && "billing_cache"@[0] == 'b');
    let t0 = JsonTree::object();
    let e0 = JsonTree::Text(v.id@);
    let t1 = t0.with("id"@, e0);
    lemma_with(t0, "id"@, e0);
    let e1 = JsonTree::Text(v.base_url@);
    let t2 = t1.with("base_url"@, e1);
    lemma_with(t1, "base_url"@, e1);
    let e2 = JsonTree::Text(v.dialect@);
    let t3 = t2.with("dialect"@, e2);
    lemma_with(t2, "dialect"@, e2);
    let e3 = text_or_null(v.credential_ref);
    let t4 = t3.with("credential_ref"@, e3);
    lemma_with(t3, "credential_ref"@, e3);
    let e4 = text_or_null(v.api_key);
    let t5 = t4.with("api_key"@, e4);
    lemma_with(t4, "api_key"@, e4);
    let e5 = text_or_null(v.default_model);
    let t6 = t5.with("default_model"@, e5);
    lemma_with(t5, "default_model"@, e5);
    let e6 = text_or_null(v.display_name);
    let t7 = t6.with("display_name"@, e6);
    lemma_with(t6, "display_name"@, e6);
    let e7 = JsonTree::Array(text_trees(v.models@));
    let t8 = t7.with("models"@, e7);
    lemma_with(t7, "models"@, e7);
    let e8 = (match v.billing { Some(v) => v.tree(), None => JsonTree::Null });
    let t9 = t8.with("billing"@, e8);
    lemma_with(t8, "billing"@, e8);
    let e9 = (match v.billing_cache { Some(v) => v.tree(), None => JsonTree::Null });
    let t10 = t9.with("billing_cache"@, e9);
    lemma_with(t9, "billing_cache"@, e9);
    let e10 = if v.model_context_windows.entries@.len() == 0 {
        None
    } else {
        Some(number_map_tree(v.model_context_windows.entries@))
    };
    let t11 = t10.with_some("model_context_windows"@, e10);
    lemma_with_some(t10, "model_context_windows"@, e10);
    assert(t11 == v.tree());
    assert(t11.get("id"@) == Some(e0));
    assert(t11.get("base_url"@) == Some(e1));
    assert(t11.get("dialect"@) == Some(e2));
    assert(t11.get("credential_ref"@) == Some(e3));
    assert(t11.get("api_key"@) == Some(e4));
    assert(t11.get("default_model"@) == Some(e5));
    assert(t11.get("display_name"@) == Some(e6));
    assert(t11.get("models"@) == Some(e7));
    lemma_texts_back(v.models@);
    assert(t11.get("billing"@) == Some(e8));
    if v.billing is Some {
        law_billing_config_round_trip(v.billing->0);
    }
    assert(t11.get("billing_cache"@) == Some(e9));
    if v.billing_cache is Some {
        law_billing_snapshot_round_trip(v.billing_cache->0);
    }
    assert(t11.get("model_context_windows"@) == e10);
    lemma_number_map_back(v.model_context_windows);
}

/// What is written is read back as it was.
pub proof fn law_workspace_defaults_round_trip(v: WorkspaceDefaults)
    ensures
        v.tree() is Object,
        workspace_defaults_from(v.tree()) == Some(v@),
{
    reveal_strlit("provider");
    reveal_strlit("model");
    reveal_strlit("default_permission_preset");
    reveal_strlit("preset");
    reveal_strlit("effort");
    assert("provider"@.len() == 8
        && "model"@.len() == 5
        && "default_permission_preset"@.len() == 25
        && "preset"@.len() == 6
        && "effort"@.len() == 6
        && "preset"@[0] == 'p'
        && "effort"@[0] == 'e');
    let t0 = JsonTree::object();
    let e0 = text_or_null(v.provider);
    let t1 = t0.with("provider"@, e0);
    lemma_with(t0, "provider"@, e0);
    let e1 = text_or_null(v.model);
    let t2 = t1.with("model"@, e1);
    lemma_with(t1, "model"@, e1);
    let e2 = text_or_null(v.default_permission_preset);
    let t3 = t2.with("default_permission_preset"@, e2);
    lemma_with(t2, "default_permission_preset"@, e2);
    let e3 = text_or_null(v.preset);
    let t4 = t3.with("preset"@, e3);
    lemma_with(t3, "preset"@, e3);
    let e4 = text_or_null(v.effort);
    let t5 = t4.with("effort"@, e4);
    lemma_with(t4, "effort"@, e4);
    assert(t5 == v.tree());
    assert(t5.get("provider"@) == Some(e0));
    assert(t5.get("model"@) == Some(e1));
    assert(t5.get("default_permission_preset"@) == Some(e2));
    assert(t5.get("preset"@) == Some(e3));
    assert(t5.get("effort"@) == Some(e4));
}

/// What is written is read back as it was.
pub proof fn law_hook_bridge_entry_round_trip(v: HookBridgeEntry, dialect: Seq<char>)
    ensures
        v.tree() is Object,
        hook_bridge_entry_from(v.tree(), dialect) == Some(v@),
{
    reveal_strlit("id");
    reveal_strlit("dialect");
    reveal_strlit("configPath");
    reveal_strlit("enabled");
    reveal_strlit("pluginRoot");
    reveal_strlit("projectDir");
    reveal_strlit("defaultTimeoutMs");
    reveal_strlit("stderrSummaryMaxChars");
    assert("id"@.len() == 2
        && "dialect"@.len() == 7
        && "configPath"@.len() == 10
        && "enabled"@.len() == 7
        && "pluginRoot"@.len() == 10
        && "projectDir"@.len() == 10
        && "defaultTimeoutMs"@.len() == 16
        && "stderrSummaryMaxChars"@.len() == 21
        && "dialect"@[0] == 'd'
        && "enabled"@[0] == 'e'
        && "configPath"@[0] == 'c'
        && "pluginRoot"@[0] == 'p'
        && "projectDir"@[0] == 'p'
        && "pluginRoot"@[1] == 'l'
        && "projectDir"@[1] == 'r');
    let t0 = JsonTree::object();
    let e0 = JsonTree::Text(v.id@);
    let t1 = t0.with("id"@, e0);
    lemma_with(t0, "id"@, e0);
    let e1 = JsonTree::Text(v.dialect@);
    let t2 = t1.with("dialect"@, e1);
    lemma_with(t1, "dialect"@, e1);
    let e2 = JsonTree::Text(v.config_path@);
    let t3 = t2.with("configPath"@, e2);
    lemma_with(t2, "configPath"@, e2);
    let e3 = JsonTree::Bool(v.enabled);
    let t4 = t3.with("enabled"@, e3);
    lemma_with(t3, "enabled"@, e3);
    let e4 = text_option(v.plugin_root);
    let t5 = t4.with_some("pluginRoot"@, e4);
    lemma_with_some(t4, "pluginRoot"@, e4);
    let e5 = text_option(v.project_dir);
    let t6 = t5.with_some("projectDir"@, e5);
    lemma_with_some(t5, "projectDir"@, e5);
    let e6 = match v.default_timeout_ms {
        Some(n) => Some(JsonTree::Number(Num::Unsigned(n))),
        None => None,
    };
    let t7 = t6.with_some("defaultTimeoutMs"@, e6);
    lemma_with_some(t6, "defaultTimeoutMs"@, e6);
    let e7 = match v.stderr_summary_max_chars {
        Some(n) => Some(JsonTree::Number(Num::Unsigned(n as u64))),
        None => None,
    };
    let t8 = t7.with_some("stderrSummaryMaxChars"@, e7);
    lemma_with_some(t7, "stderrSummaryMaxChars"@, e7);
    assert(t8 == v.tree());
    assert(t8.get("id"@) == Some(e0));
    assert(t8.get("dialect"@) == Some(e1));
    assert(t8.get("configPath"@) == Some(e2));
    assert(t8.get("enabled"@) == Some(e3));
    assert(t8.get("pluginRoot"@) == e4);
    assert(t8.get("projectDir"@) == e5);
    assert(t8.get("defaultTimeoutMs"@) == e6);
    assert(t8.get("stderrSummaryMaxChars"@) == e7);
}

/// What is written is read back as it was.
pub proof fn law_mcp_server_entry_round_trip(v: McpServerEntry)
    ensures
        v.tree() is Object,
        mcp_server_entry_from(v.tree()) == Some(v@),
{
    reveal_strlit("id");
    reveal_strlit("enabled");
    reveal_strlit("command");
    reveal_strlit("args");
    reveal_strlit("env");
    reveal_strlit("cwd");
    reveal_strlit("toolCallTimeoutMs");
    reveal_strlit("url");
    reveal_strlit("headers");
    assert("id"@.len() == 2
        && "enabled"@.len() == 7
        && "command"@.len() == 7
        && "args"@.len() == 4
        && "env"@.len() == 3
        && "cwd"@.len() == 3
        && "toolCallTimeoutMs"@.len() == 17
        && "url"@.len() == 3
        && "headers"@.len() == 7
        && "enabled"@[0] == 'e'
        && "command"@[0] == 'c'
        && "headers"@[0] == 'h'
        && "env"@[0] == 'e'
        && "cwd"@[0] == 'c'
        && "url"@[0] == 'u');
    let t0 = JsonTree::object();
    let e0 = JsonTree::Text(v.id@);
    let t1 = t0.with("id"@, e0);
    lemma_with(t0, "id"@, e0);
    let e1 = JsonTree::Bool(v.enabled);
    let t2 = t1.with("enabled"@, e1);
    lemma_with(t1, "enabled"@, e1);
    let e2 = JsonTree::Text(v.command@);
    let t3 = t2.with("command"@, e2);
    lemma_with(t2, "command"@, e2);
    let e3 = JsonTree::Array(text_trees(v.args@));
    let t4 = t3.with("args"@, e3);
    lemma_with(t3, "args"@, e3);
    let e4 = text_map_tree(v.env.entries@);
    let t5 = t4.with("env"@, e4);
    lemma_with(t4, "env"@, e4);
    let e5 = text_option(v.cwd);
    let t6 = t5.with_some("cwd"@, e5);
    lemma_with_some(t5, "cwd"@, e5);
    let e6 = match v.tool_call_timeout_ms {
        Some(n) => Some(JsonTree::Number(Num::Unsigned(n))),
        None => None,
    };
    let t7 = t6.with_some("toolCallTimeoutMs"@, e6);
    lemma_with_some(t6, "toolCallTimeoutMs"@, e6);
    let e7 = text_option(v.url);
    let t8 = t7.with_some("url"@, e7);
    lemma_with_some(t7, "url"@, e7);
    let e8 = if v.headers.entries@.len() == 0 {
        None
    } else {
        Some(text_map_tree(v.headers.entries@))
    };
    let t9 = t8.with_some("headers"@, e8);
    lemma_with_some(t8, "headers"@, e8);
    assert(t9 == v.tree());
    assert(t9.get("id"@) == Some(e0));
    assert(t9.get("enabled"@) == Some(e1));
    assert(t9.get("command"@) == Some(e2));
    assert(t9.get("args"@) == Some(e3));
    lemma_texts_back(v.args@);
    assert(t9.get("env"@) == Some(e4));
    lemma_text_map_back(v.env);
    assert(t9.get("cwd"@) == e5);
    assert(t9.get("toolCallTimeoutMs"@) == e6);
    assert(t9.get("url"@) == e7);
    assert(t9.get("headers"@) == e8);
    lemma_text_map_back(v.headers);
}

proof fn lemma_provider_entry_list_back(v: Seq<ProviderEntry>)
    ensures
        provider_entry_list_from(provider_entry_trees(v)) == Some(provider_entry_views(v)),
{
    let items = v.map_values(|e: ProviderEntry| e.tree());
    assert forall|i: int| 0 <= i < items.len() implies provider_entry_from(#[trigger] items[i]) == Some(v[i]@) by {
        law_provider_entry_round_trip(v[i]);
    }
    assert(items.map_values(|x: JsonTree| provider_entry_from(x)->0) =~= provider_entry_views(v));
}

proof fn lemma_mcp_server_entry_list_back(v: Seq<McpServerEntry>)
    ensures
        mcp_server_entry_list_from(mcp_server_entry_trees(v)) == Some(mcp_server_entry_views(v)),
{
    let items = v.map_values(|e: McpServerEntry| e.tree());
    assert forall|i: int| 0 <= i < items.len() implies mcp_server_entry_from(#[trigger] items[i]) == Some(v[i]@) by {
        law_mcp_server_entry_round_trip(v[i]);
    }
    assert(items.map_values(|x: JsonTree| mcp_server_entry_from(x)->0)
        =~= mcp_server_entry_views(v));
}

proof fn lemma_hook_bridge_entry_list_back(v: Seq<HookBridgeEntry>, dialect: Seq<char>)
    ensures
        hook_bridge_entry_list_from(hook_bridge_entry_trees(v), dialect)
            == Some(hook_bridge_entry_views(v)),
{
    let items = v.map_values(|e: HookBridgeEntry| e.tree());
    assert forall|i: int| 0 <= i < items.len() implies hook_bridge_entry_from(#[trigger] items[i], dialect) == Some(v[i]@) by {
        law_hook_bridge_entry_round_trip(v[i], dialect);
    }
    assert(items.map_values(|x: JsonTree| hook_bridge_entry_from(x, dialect)->0)
        =~= hook_bridge_entry_views(v));
}

/// What is written is read back as it was.
pub proof fn law_settings_file_round_trip(v: SettingsFile, dialect: Seq<char>)
    ensures
        v.tree() is Object,
        settings_file_from(v.tree(), dialect) == Some(v@),
{
    reveal_strlit("version");
    reveal_strlit("onboarded");
    reveal_strlit("providers");
    reveal_strlit("workspaces");
    reveal_strlit("workspace_paths");
    reveal_strlit("workspace_titles");
    reveal_strlit("busy_enter");
    reveal_strlit("language");
    reveal_strlit("appearance");
    reveal_strlit("mcp_servers");
    reveal_strlit("hook_bridges");
    assert("version"@.len() == 7
        && "onboarded"@.len() == 9
        && "providers"@.len() == 9
        && "workspaces"@.len() == 10
        && "workspace_paths"@.len() == 15
        && "workspace_titles"@.len() == 16
        && "busy_enter"@.len() == 10
        && "language"@.len() == 8
        && "appearance"@.len() == 10
        && "mcp_servers"@.len() == 11
        && "hook_bridges"@.len() == 12
        && "onboarded"@[0] == 'o'
        && "providers"@[0] == 'p'
        && "workspaces"@[0] == 'w'
        && "busy_enter"@[0] == 'b'
        && "appearance"@[0] == 'a');
    let t0 = JsonTree::object();
    let e0 = JsonTree::Number(Num::Unsigned(v.version as u64));
    let t1 = t0.with("version"@, e0);
    lemma_with(t0, "version"@, e0);
    let e1 = JsonTree::Bool(v.onboarded);
    let t2 = t1.with("onboarded"@, e1);
    lemma_with(t1, "onboarded"@, e1);
    let e2 = provider_entry_trees(v.providers@);
    let t3 = t2.with("providers"@, e2);
    lemma_with(t2, "providers"@, e2);
    let e3 = defaults_tree(v.workspaces.entries@);
    let t4 = t3.with("workspaces"@, e3);
    lemma_with(t3, "workspaces"@, e3);
    let e4 = JsonTree::Array(text_trees(v.workspace_paths@));
    let t5 = t4.with("workspace_paths"@, e4);
    lemma_with(t4, "workspace_paths"@, e4);
    let e5 = text_map_tree(v.workspace_titles.entries@);
    let t6 = t5.with("workspace_titles"@, e5);
    lemma_with(t5, "workspace_titles"@, e5);
    let e6 = JsonTree::Text(v.busy_enter@);
    let t7 = t6.with("busy_enter"@, e6);
    lemma_with(t6, "busy_enter"@, e6);
    let e7 = JsonTree::Text(v.language@);
    let t8 = t7.with("language"@, e7);
    lemma_with(t7, "language"@, e7);
    let e8 = JsonTree::Text(v.appearance@);
    let t9 = t8.with("appearance"@, e8);
    lemma_with(t8, "appearance"@, e8);
    let e9 = mcp_server_entry_trees(v.mcp_servers@);
    let t10 = t9.with("mcp_servers"@, e9);
    lemma_with(t9, "mcp_servers"@, e9);
    let e10 = hook_bridge_entry_trees(v.hook_bridges@);
    let t11 = t10.with("hook_bridges"@, e10);
    lemma_with(t10, "hook_bridges"@, e10);
    assert(t11 == v.tree());
    assert(t11.get("version"@) == Some(e0));
    assert(t11.get("onboarded"@) == Some(e1));
    assert(t11.get("providers"@) == Some(e2));
    lemma_provider_entry_list_back(v.providers@);
    assert(t11.get("workspaces"@) == Some(e3));
    lemma_defaults_map_back(v.workspaces);
    assert(t11.get("workspace_paths"@) == Some(e4));
    lemma_texts_back(v.workspace_paths@);
    assert(t11.get("workspace_titles"@) == Some(e5));
    lemma_text_map_back(v.workspace_titles);
    assert(t11.get("busy_enter"@) == Some(e6));
    assert(t11.get("language"@) == Some(e7));
    assert(t11.get("appearance"@) == Some(e8));
    assert(t11.get("mcp_servers"@) == Some(e9));
    lemma_mcp_server_entry_list_back(v.mcp_servers@);
    assert(t11.get("hook_bridges"@) == Some(e10));
    lemma_hook_bridge_entry_list_back(v.hook_bridges@, dialect);
}
/// Its members in the file: each thing stands under its own name, and nothing else is there.
pub proof fn law_settings_file_members(v: SettingsFile, t: JsonTree)
    requires
        t == v.tree(),
    ensures
        has_entry(t, "version"@, JsonTree::Number(Num::Unsigned(v.version as u64))),
        has_entry(t, "onboarded"@, JsonTree::Bool(v.onboarded)),
        has_entry(t, "providers"@, provider_entry_trees(v.providers@)),
        has_entry(t, "workspaces"@, defaults_tree(v.workspaces.entries@)),
        has_entry(t, "workspace_paths"@, JsonTree::Array(text_trees(v.workspace_paths@))),
        has_entry(t, "workspace_titles"@, text_map_tree(v.workspace_titles.entries@)),
        has_entry(t, "busy_enter"@, JsonTree::Text(v.busy_enter@)),
        has_entry(t, "language"@, JsonTree::Text(v.language@)),
        has_entry(t, "appearance"@, JsonTree::Text(v.appearance@)),
        has_entry(t, "mcp_servers"@, mcp_server_entry_trees(v.mcp_servers@)),
        has_entry(t, "hook_bridges"@, hook_bridge_entry_trees(v.hook_bridges@)),
        t->Object_0.len() == 11,
{
    let t0 = JsonTree::object();
    let x0 = JsonTree::Number(Num::Unsigned(v.version as u64));
    lemma_entry(t0, "version"@, x0);
    let t1 = t0.with("version"@, x0);
    let x1 = JsonTree::Bool(v.onboarded);
    lemma_entry(t1, "onboarded"@, x1);
    let t2 = t1.with("onboarded"@, x1);
    let x2 = provider_entry_trees(v.providers@);
    lemma_entry(t2, "providers"@, x2);
    let t3 = t2.with("providers"@, x2);
    let x3 = defaults_tree(v.workspaces.entries@);
    lemma_entry(t3, "workspaces"@, x3);
    let t4 = t3.with("workspaces"@, x3);
    let x4 = JsonTree::Array(text_trees(v.workspace_paths@));
    lemma_entry(t4, "workspace_paths"@, x4);
    let t5 = t4.with("workspace_paths"@, x4);
    let x5 = text_map_tree(v.workspace_titles.entries@);
    lemma_entry(t5, "workspace_titles"@, x5);
    let t6 = t5.with("workspace_titles"@, x5);
    let x6 = JsonTree::Text(v.busy_enter@);
    lemma_entry(t6, "busy_enter"@, x6);
    let t7 = t6.with("busy_enter"@, x6);
    let x7 = JsonTree::Text(v.language@);
    lemma_entry(t7, "language"@, x7);
    let t8 = t7.with("language"@, x7);
    let x8 = JsonTree::Text(v.appearance@);
    lemma_entry(t8, "appearance"@, x8);
    let t9 = t8.with("appearance"@, x8);
    let x9 = mcp_server_entry_trees(v.mcp_servers@);
    lemma_entry(t9, "mcp_servers"@, x9);
    let t10 = t9.with("mcp_servers"@, x9);
    lemma_entry(t10, "hook_bridges"@, hook_bridge_entry_trees(v.hook_bridges@));
}

/// How a server of tools is read: each member from its own name. One that does not say
/// whether it is in use is in use; other members that are missing are empty or none.
pub proof fn law_server_is_read_by_members(t: JsonTree, v: McpServerView, k: Seq<char>)
    requires
        mcp_server_entry_from(t) == Some(v),
    ensures
        t.get("id"@) matches Some(x) ==> x == JsonTree::Text(v.id),
        t.get("id"@) is None ==> v.id == ""@,
        t.get("enabled"@) matches Some(x) ==> x == JsonTree::Bool(v.enabled),
        t.get("enabled"@) is None ==> v.enabled,
        t.get("command"@) matches Some(x) ==> x == JsonTree::Text(v.command),
        t.get("command"@) is None ==> v.command == ""@,
        t.get("args"@) matches Some(x) ==> x == JsonTree::Array(
            v.args.map_values(|s: Seq<char>| JsonTree::Text(s)),
        ),
        t.get("args"@) is None ==> v.args.len() == 0,
        t.get("env"@) matches Some(x) ==> (v.env.dom().contains(k) <==> x.get(k) is Some) && (x.get(
            k,
        ) matches Some(w) ==> w == JsonTree::Text(v.env[k])),
        t.get("env"@) is None ==> v.env.dom().is_empty(),
        t.get("headers"@) matches Some(x) ==> (v.headers.dom().contains(k) <==> x.get(k) is Some)
            && (x.get(k) matches Some(w) ==> w == JsonTree::Text(v.headers[k])),
        t.get("headers"@) is None ==> v.headers.dom().is_empty(),
        v.cwd matches Some(s) ==> t.at("cwd"@) == JsonTree::Text(s),
        v.cwd is None ==> t.at("cwd"@) is Null,
        v.url matches Some(s) ==> t.at("url"@) == JsonTree::Text(s),
        v.url is None ==> t.at("url"@) is Null,
        v.tool_call_timeout_ms matches Some(n) ==> t.at("toolCallTimeoutMs"@) == JsonTree::Number(
            Num::Unsigned(n),
        ),
        v.tool_call_timeout_ms is None ==> t.at("toolCallTimeoutMs"@) is Null,
{
    if t.get("args"@) is Some {
        let x = t.get("args"@)->0;
        assert(x->Array_0 =~= v.args.map_values(|s: Seq<char>| JsonTree::Text(s)));
    }
    if t.get("env"@) is Some {
        lemma_texts_of(t.get("env"@)->0->Object_0, k);
    }
    if t.get("headers"@) is Some {
        lemma_texts_of(t.get("headers"@)->0->Object_0, k);
    }
}

proof fn lemma_texts_of(entries: Seq<(Seq<char>, JsonTree)>, k: Seq<char>)
    requires
        forall|i: int| 0 <= i < entries.len() ==> (#[trigger] entries[i]).1 is Text,
    ensures
        object_texts(entries).dom().contains(k) <==> JsonTree::Object(entries).get(k) is Some,
        JsonTree::Object(entries).get(k) matches Some(w) ==> w == JsonTree::Text(
            object_texts(entries)[k],
        ),
    decreases entries.len(),
{
    if entries.len() > 0 && entries[0].0 != k {
        let rest = entries.drop_first();
        assert forall|i: int| 0 <= i < rest.len() implies (#[trigger] rest[i]).1 is Text by {
            assert(rest[i] == entries[i + 1]);
        }
        lemma_texts_of(rest, k);
    }
}

/// How a hook is read: each member from its own name. One that does not say whether it is
/// in use is in use, and one that names no dialect has that which goes without saying.
pub proof fn law_hook_is_read_by_members(t: JsonTree, dialect: Seq<char>, v: HookBridgeView)
    requires
        hook_bridge_entry_from(t, dialect) == Some(v),
    ensures
        t.get("id"@) matches Some(x) ==> x == JsonTree::Text(v.id),
        t.get("id"@) is None ==> v.id == ""@,
        t.get("dialect"@) matches Some(x) ==> x == JsonTree::Text(v.dialect),
        t.get("dialect"@) is None ==> v.dialect == dialect,
        t.get("configPath"@) matches Some(x) ==> x == JsonTree::Text(v.config_path),
        t.get("configPath"@) is None ==> v.config_path == ""@,
        t.get("enabled"@) matches Some(x) ==> x == JsonTree::Bool(v.enabled),
        t.get("enabled"@) is None ==> v.enabled,
        v.plugin_root matches Some(s) ==> t.at("pluginRoot"@) == JsonTree::Text(s),
        v.plugin_root is None ==> t.at("pluginRoot"@) is Null,
        v.project_dir matches Some(s) ==> t.at("projectDir"@) == JsonTree::Text(s),
        v.project_dir is None ==> t.at("projectDir"@) is Null,
        v.default_timeout_ms matches Some(n) ==> t.at("defaultTimeoutMs"@) == JsonTree::Number(
            Num::Unsigned(n),
        ),
        v.default_timeout_ms is None ==> t.at("defaultTimeoutMs"@) is Null,
        v.stderr_summary_max_chars matches Some(n) ==> t.at("stderrSummaryMaxChars"@)
            == JsonTree::Number(Num::Unsigned(n as u64)),
        v.stderr_summary_max_chars is None ==> t.at("stderrSummaryMaxChars"@) is Null,
{
}

/// How a provider is read: each member from its own name; those that are needed stand
/// there, and the others are none where they are missing.
pub proof fn law_provider_is_read_by_members(t: JsonTree, v: ProviderView)
    requires
        provider_entry_from(t) == Some(v),
    ensures
        t.get("id"@) == Some(JsonTree::Text(v.id)),
        t.get("base_url"@) == Some(JsonTree::Text(v.base_url)),
        t.get("dialect"@) == Some(JsonTree::Text(v.dialect)),
        v.credential_ref matches Some(s) ==> t.at("credential_ref"@) == JsonTree::Text(s),
        v.credential_ref is None ==> t.at("credential_ref"@) is Null,
        v.api_key matches Some(s) ==> t.at("api_key"@) == JsonTree::Text(s),
        v.api_key is None ==> t.at("api_key"@) is Null,
        v.default_model matches Some(s) ==> t.at("default_model"@) == JsonTree::Text(s),
        v.default_model is None ==> t.at("default_model"@) is Null,
        v.display_name matches Some(s) ==> t.at("display_name"@) == JsonTree::Text(s),
        v.display_name is None ==> t.at("display_name"@) is Null,
        t.get("models"@) matches Some(x) ==> x == JsonTree::Array(
            v.models.map_values(|s: Seq<char>| JsonTree::Text(s)),
        ),
        t.get("models"@) is None ==> v.models.len() == 0,
        v.billing is None <==> t.at("billing"@) is Null,
        v.billing matches Some(b) ==> billing_config_from(t.at("billing"@)) == Some(b),
        v.billing_cache is None <==> t.at("billing_cache"@) is Null,
        v.billing_cache matches Some(b) ==> billing_snapshot_from(t.at("billing_cache"@)) == Some(b),
        t.get("model_context_windows"@) is None ==> v.model_context_windows.dom().is_empty(),
{
    if t.get("models"@) is Some {
        let x = t.get("models"@)->0;
        assert(x->Array_0 =~= v.models.map_values(|s: Seq<char>| JsonTree::Text(s)));
    }
}

/// How the settings are read: each member from its own name. The version, whether setting
/// up is done, the providers and the workspaces stand there; what is missing of the rest
/// is what a new host starts from.
pub proof fn law_settings_are_read_by_members(t: JsonTree, dialect: Seq<char>, v: SettingsView, i: int)
    requires
        settings_file_from(t, dialect) == Some(v),
    ensures
        t.get("version"@) == Some(JsonTree::Number(Num::Unsigned(v.version as u64))),
        t.get("onboarded"@) == Some(JsonTree::Bool(v.onboarded)),
        t.get("providers"@) is Some && t.at("providers"@) is Array && t.at(
            "providers"@,
        )->Array_0.len() == v.providers.len(),
        0 <= i < v.providers.len() ==> provider_entry_from(t.at("providers"@)->Array_0[i]) == Some(
            v.providers[i],
        ),
        t.get("workspaces"@) is Some && t.at("workspaces"@) is Object,
        t.get("workspace_paths"@) matches Some(x) ==> x == JsonTree::Array(
            v.workspace_paths.map_values(|s: Seq<char>| JsonTree::Text(s)),
        ),
        t.get("workspace_paths"@) is None ==> v.workspace_paths.len() == 0,
        t.get("workspace_titles"@) is None ==> v.workspace_titles.dom().is_empty(),
        t.get("busy_enter"@) matches Some(x) ==> x == JsonTree::Text(v.busy_enter),
        t.get("busy_enter"@) is None ==> v.busy_enter == "queue"@,
        t.get("language"@) matches Some(x) ==> x == JsonTree::Text(v.language),
        t.get("language"@) is None ==> v.language == "zh"@,
        t.get("appearance"@) matches Some(x) ==> x == JsonTree::Text(v.appearance),
        t.get("appearance"@) is None ==> v.appearance == "dark"@,
        t.get("mcp_servers"@) is None ==> v.mcp_servers.len() == 0,
        t.get("mcp_servers"@) matches Some(x) ==> x is Array && x->Array_0.len()
            == v.mcp_servers.len() && (0 <= i < v.mcp_servers.len() ==> mcp_server_entry_from(
            x->Array_0[i],
        ) == Some(v.mcp_servers[i])),
        t.get("hook_bridges"@) is None ==> v.hook_bridges.len() == 0,
        t.get("hook_bridges"@) matches Some(x) ==> x is Array && x->Array_0.len()
            == v.hook_bridges.len() && (0 <= i < v.hook_bridges.len() ==> hook_bridge_entry_from(
            x->Array_0[i],
            dialect,
        ) == Some(v.hook_bridges[i])),
{
    if t.get("workspace_paths"@) is Some {
        let x = t.get("workspace_paths"@)->0;
        assert(x->Array_0 =~= v.workspace_paths.map_values(|s: Seq<char>| JsonTree::Text(s)));
    }
}

/// A billing is read member by member, and so is a snapshot, by its kind; other kinds are
/// not read.
pub proof fn law_billing_is_read_by_members(t: JsonTree, b: BillingView, s: SnapshotView)
    requires
        billing_config_from(t) == Some(b) || billing_snapshot_from(t) == Some(s),
    ensures
        billing_config_from(t) == Some(b) ==> t.get("url"@) == Some(JsonTree::Text(b.url)) && (t.at(
            "kind"@,
        ) == JsonTree::Text("balance"@) || t.at("kind"@) == JsonTree::Text("usage"@)) && (b.kind
            == BillingKind::Balance <==> t.at("kind"@) == JsonTree::Text("balance"@)) && (
        b.auth_style matches Some(a) ==> t.at("auth_style"@) == JsonTree::Text(a)),
        billing_snapshot_from(t) == Some(s) ==> match s {
            SnapshotView::Balance { fetched_at_ms, amount, currency } => t.at("kind"@)
                == JsonTree::Text("balance"@) && t.at("fetched_at_ms"@) == JsonTree::Number(
                Num::Unsigned(fetched_at_ms),
            ) && t.at("amount"@) == JsonTree::Text(amount) && (currency matches Some(c) ==> t.at(
                "currency"@,
            ) == JsonTree::Text(c)) && (currency is None ==> t.at("currency"@) is Null),
            SnapshotView::Usage { fetched_at_ms, pct_5h, pct_7d, resets, resets_7d } => t.at(
                "kind"@,
            ) == JsonTree::Text("usage"@) && t.at("fetched_at_ms"@) == JsonTree::Number(
                Num::Unsigned(fetched_at_ms),
            ) && (pct_5h matches Some(n) ==> t.at("pct_5h"@) == JsonTree::Number(
                Num::Unsigned(n as u64),
            )) && (pct_7d matches Some(n) ==> t.at("pct_7d"@) == JsonTree::Number(
                Num::Unsigned(n as u64),
            )) && (resets matches Some(r) ==> t.at("resets"@) == JsonTree::Text(r)) && (
            resets_7d matches Some(r) ==> t.at("resets_7d"@) == JsonTree::Text(r)),
        },
{
    reveal_strlit("balance");
    reveal_strlit("usage");
    assert("balance"@.len() == 7 && "usage"@.len() == 5);
}

/// Whether a member is missing, null or a text.
pub open spec fn may_be_text(t: JsonTree, key: Seq<char>) -> bool {
    t.at(key) is Null || t.at(key) is Text
}

/// Whether a member is missing or a number without a sign.
pub open spec fn may_be_number(t: JsonTree, key: Seq<char>) -> bool {
    t.at(key) is Null || (t.at(key) is Number && t.at(key)->Number_0 is Unsigned)
}

/// Whether a member, where it is there, is an array of texts.
pub open spec fn may_be_texts(t: JsonTree, key: Seq<char>) -> bool {
    t.get(key) matches Some(x) ==> x is Array && forall|i: int|
        0 <= i < x->Array_0.len() ==> (#[trigger] x->Array_0[i]) is Text
}

/// Whether a member, where it is there, is an object of texts.
pub open spec fn may_be_text_map(t: JsonTree, key: Seq<char>) -> bool {
    t.get(key) matches Some(x) ==> x is Object && forall|i: int|
        0 <= i < x->Object_0.len() ==> (#[trigger] x->Object_0[i]).1 is Text
}

/// What is read at all: an object whose members have their types. A member that may be
/// missing is not read from a value of another type.
pub proof fn law_well_typed_objects_are_read(t: JsonTree, dialect: Seq<char>)
    ensures
        billing_paths_from(t) is Some <==> t is Object && may_be_text(t, "balance"@) && may_be_text(
            t,
            "currency"@,
        ) && may_be_text(t, "usage_5h"@) && may_be_text(t, "usage_7d"@) && may_be_text(
            t,
            "resets"@,
        ) && may_be_text(t, "resets_7d"@),
        billing_paths_from(t) matches Some(p) ==> (p.balance matches Some(s) ==> t.at("balance"@)
            == JsonTree::Text(s)) && (p.currency matches Some(s) ==> t.at("currency"@)
            == JsonTree::Text(s)) && (p.usage_5h matches Some(s) ==> t.at("usage_5h"@)
            == JsonTree::Text(s)) && (p.usage_7d matches Some(s) ==> t.at("usage_7d"@)
            == JsonTree::Text(s)) && (p.resets matches Some(s) ==> t.at("resets"@)
            == JsonTree::Text(s)) && (p.resets_7d matches Some(s) ==> t.at("resets_7d"@)
            == JsonTree::Text(s)),
        billing_paths_from(t) matches Some(p) ==> (p.balance is None ==> t.at("balance"@) is Null)
            && (p.currency is None ==> t.at("currency"@) is Null) && (p.usage_5h is None ==> t.at(
            "usage_5h"@,
        ) is Null) && (p.usage_7d is None ==> t.at("usage_7d"@) is Null) && (p.resets is None
            ==> t.at("resets"@) is Null) && (p.resets_7d is None ==> t.at("resets_7d"@) is Null),
        workspace_defaults_from(t) is Some <==> t is Object && may_be_text(t, "provider"@)
            && may_be_text(t, "model"@) && may_be_text(t, "default_permission_preset"@)
            && may_be_text(t, "preset"@) && may_be_text(t, "effort"@),
        mcp_server_entry_from(t) is Some <==> t is Object && (t.get("id"@) is None || t.at(
            "id"@,
        ) is Text) && (t.get("enabled"@) is None || t.at("enabled"@) is Bool) && (t.get(
            "command"@,
        ) is None || t.at("command"@) is Text) && may_be_texts(t, "args"@) && may_be_text_map(
            t,
            "env"@,
        ) && may_be_text(t, "cwd"@) && may_be_number(t, "toolCallTimeoutMs"@) && may_be_text(
            t,
            "url"@,
        ) && may_be_text_map(t, "headers"@),
        billing_config_from(t) is Some <==> t is Object && (t.at("kind"@) == JsonTree::Text(
            "balance"@,
        ) || t.at("kind"@) == JsonTree::Text("usage"@)) && t.at("url"@) is Text
            && billing_paths_from(t.at("paths"@)) is Some && may_be_text(t, "auth_style"@),
{
}

/// What holds for a workspace is read member by member.
pub proof fn law_defaults_are_read_by_members(t: JsonTree, v: WorkspaceDefaultsView)
    requires
        workspace_defaults_from(t) == Some(v),
    ensures
        v.provider matches Some(s) ==> t.at("provider"@) == JsonTree::Text(s),
        v.provider is None ==> t.at("provider"@) is Null,
        v.model matches Some(s) ==> t.at("model"@) == JsonTree::Text(s),
        v.model is None ==> t.at("model"@) is Null,
        v.default_permission_preset matches Some(s) ==> t.at("default_permission_preset"@)
            == JsonTree::Text(s),
        v.default_permission_preset is None ==> t.at("default_permission_preset"@) is Null,
        v.preset matches Some(s) ==> t.at("preset"@) == JsonTree::Text(s),
        v.preset is None ==> t.at("preset"@) is Null,
        v.effort matches Some(s) ==> t.at("effort"@) == JsonTree::Text(s),
        v.effort is None ==> t.at("effort"@) is Null,
{
}

} // verus!
