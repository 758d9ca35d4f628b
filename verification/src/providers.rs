//! Providers and hooks in the settings, and what a change of a provider means
//! for attached sessions.
use vstd::prelude::*;
use vstd::string::*;

use crate::edits::{lemma_id_set_push, unknown_workspace, with_defaults};
use crate::host::{
    AppHost, Fingerprint, FingerprintView, HostView, contains_text, lists_map,
};
use crate::mcp::{good_tool_id, is_tool_id};
use crate::ports::same_option;
use crate::proto::{ErrorView, RpcError, error_view};
use crate::settings::{
    BillingSnapshot, BillingView, CatalogView, HookBridgeEntry, HookBridgeView, ProviderEntry,
    ProviderView, SettingsView, WorkspaceDefaultsView, builtin_view, catalog_deepseek, catalog_glm,
    catalog_kimi, catalog_minimax, catalog_qwen, copy_text, find_provider, hook_bridge_entry_views,
    known_catalog, provider_entry_views, provider_index, text_seq,
};
use crate::strmap::{StrMap, id_set};
use crate::text::{begins_with, blank, chars_of, is_blank, same, starts_with};
use crate::workspaces::ws_named;

verus! {

/// A character of the id of a provider.
pub open spec fn is_provider_char(c: char) -> bool {
    ('a' <= c && c <= 'z') || ('0' <= c && c <= '9') || c == '-'
}

/// An id of a provider: it neither begins nor ends with a hyphen.
pub open spec fn is_provider_id(id: Seq<char>) -> bool {
    &&& id.len() > 0
    &&& forall|i: int| 0 <= i < id.len() ==> is_provider_char(#[trigger] id[i])
    &&& id[0] != '-'
    &&& id.last() != '-'
}

/// A dialect that is understood.
pub open spec fn is_dialect(d: Seq<char>) -> bool {
    ||| d == "openai-completions"@
    ||| d == "anthropic-messages"@
    ||| d == "openai-responses"@
    ||| d == "glm-responses"@
}

/// What is wrong with a provider; `ref_known` says whether the place that it
/// names for its key can be read.
pub open spec fn provider_fault(p: ProviderView, ref_known: bool) -> Option<ErrorView> {
    if !is_provider_id(p.id) {
        Some(error_view("bad-request"@, "provider id 仅限小写字母/数字/连字符"@))
    } else if !begins_with(p.base_url, "http://"@) && !begins_with(p.base_url, "https://"@) {
        Some(error_view("bad-request"@, "base_url 须以 http(s):// 开头"@))
    } else if !is_dialect(p.dialect) {
        Some(error_view("bad-request"@, "未知方言"@))
    } else if p.credential_ref is Some && !ref_known {
        Some(error_view("bad-request"@, "凭据引用须为 env:NAME"@))
    } else {
        None
    }
}

fn good_provider_id(id: &str) -> (r: bool)
    ensures
        r == is_provider_id(id@),
{
    let v = chars_of(id);
    if v.len() == 0 {
        return false;
    }
    let mut i: usize = 0;
    while i < v.len()
        invariant
            i <= v.len(),
            v@ == id@,
            forall|k: int| 0 <= k < i ==> is_provider_char(#[trigger] id@[k]),
        decreases v.len() - i,
    {
        let c = v[i];
        let good = ('a' <= c && c <= 'z') || ('0' <= c && c <= '9') || c == '-';
        if !good {
            assert(!is_provider_char(id@[i as int]));
            return false;
        }
        i = i + 1;
    }
    v[0] != '-' && v[v.len() - 1] != '-'
}

fn check_provider(p: &ProviderEntry, ref_known: bool) -> (r: Result<(), RpcError>)
    ensures
        match provider_fault(p@, ref_known) {
            None => r is Ok,
            Some(e) => r is Err && r->Err_0@ == e,
        },
{
    if !good_provider_id(p.id.as_str()) {
        return Err(RpcError::bad_request("provider id 仅限小写字母/数字/连字符"));
    }
    if !starts_with(p.base_url.as_str(), "http://") && !starts_with(
        p.base_url.as_str(),
        "https://",
    ) {
        return Err(RpcError::bad_request("base_url 须以 http(s):// 开头"));
    }
    let d = p.dialect.as_str();
    if !same(d, "openai-completions") && !same(d, "anthropic-messages") && !same(
        d,
        "openai-responses",
    ) && !same(d, "glm-responses") {
        return Err(RpcError::bad_request("未知方言"));
    }
    if p.credential_ref.is_some() && !ref_known {
        return Err(RpcError::bad_request("凭据引用须为 env:NAME"));
    }
    Ok(())
}

/// The place of the first provider under an id; their number where there is
/// none.
pub open spec fn provider_place(all: Seq<ProviderView>, id: Seq<char>) -> int
    decreases all.len(),
{
    if all.len() == 0 || all[0].id == id {
        0
    } else {
        1 + provider_place(all.drop_first(), id)
    }
}

proof fn lemma_provider_place(all: Seq<ProviderView>, id: Seq<char>, k: int)
    requires
        0 <= k <= all.len(),
        k < all.len() ==> all[k].id == id,
        forall|i: int| 0 <= i < k ==> (#[trigger] all[i]).id != id,
    ensures
        provider_place(all, id) == k,
    decreases k,
{
    if k > 0 {
        assert(all[0].id != id);
        let rest = all.drop_first();
        assert forall|i: int| 0 <= i < k - 1 implies (#[trigger] rest[i]).id != id by {
            assert(rest[i] == all[i + 1]);
        }
        lemma_provider_place(rest, id, k - 1);
    }
}

/// The providers with one more, or with one in the place of another of its id.
/// One that comes without a key keeps the key that was there.
pub open spec fn with_provider(all: Seq<ProviderView>, p: ProviderView) -> Seq<ProviderView> {
    let k = provider_place(all, p.id);
    if k < all.len() {
        all.update(
            k,
            ProviderView {
                api_key: match p.api_key {
                    Some(key) => Some(key),
                    None => all[k].api_key,
                },
                ..p
            },
        )
    } else {
        all.push(p)
    }
}

/// The providers without those under an id.
pub open spec fn without_provider(all: Seq<ProviderView>, id: Seq<char>) -> Seq<ProviderView>
    decreases all.len(),
{
    if all.len() == 0 {
        Seq::empty()
    } else if all.last().id == id {
        without_provider(all.drop_last(), id)
    } else {
        without_provider(all.drop_last(), id).push(all.last())
    }
}

fn provider_at(list: &Vec<ProviderEntry>, id: &str) -> (r: Option<usize>)
    ensures
        match r {
            Some(k) => k < list.len() && provider_place(provider_entry_views(list@), id@) == k,
            None => provider_place(provider_entry_views(list@), id@) == list.len(),
        },
{
    let ghost all = provider_entry_views(list@);
    match provider_index(list, id) {
        Some(k) => {
            proof {
                assert forall|j: int| 0 <= j < k implies (#[trigger] all[j]).id != id@ by {
                    assert(all[j] == list@[j]@);
                }
                assert(all[k as int] == list@[k as int]@);
                lemma_provider_place(all, id@, k as int);
            }
            Some(k)
        },
        None => {
            proof {
                assert forall|j: int| 0 <= j < all.len() implies (#[trigger] all[j]).id != id@ by {
                    assert(all[j] == list@[j]@);
                }
                lemma_provider_place(all, id@, all.len() as int);
            }
            None
        },
    }
}

impl AppHost {
    /// The providers.
    pub fn providers(&self) -> (r: Vec<ProviderEntry>)
        requires
            self.wf(),
        ensures
            provider_entry_views(r@) == self@.settings.providers,
            forall|i: int| 0 <= i < r@.len() ==> (#[trigger] r@[i]).wf(),
    {
        crate::settings::copy_providers(&self.settings.providers)
    }

    /// Keeps a provider. What it named as its models is forgotten.
    pub fn upsert_provider(&mut self, entry: ProviderEntry, ref_known: bool) -> (r: Result<
        (),
        RpcError,
    >)
        requires
            old(self).wf(),
            entry.wf(),
        ensures
            final(self).wf(),
            match provider_fault(entry@, ref_known) {
                Some(e) => r is Err && r->Err_0@ == e && final(self)@ == old(self)@,
                None => r is Ok && final(self)@ == (HostView {
                    settings: SettingsView {
                        providers: with_provider(old(self)@.settings.providers, entry@),
                        ..old(self)@.settings
                    },
                    models_cache: old(self)@.models_cache.remove(entry@.id),
                    ..old(self)@
                }),
            },
    {
        if let Err(e) = check_provider(&entry, ref_known) {
            return Err(e);
        }
        let ghost before = self@.settings.providers;
        let ghost cached = self.models_cache@;
        let id = entry.id.clone();
        match provider_at(&self.settings.providers, entry.id.as_str()) {
            Some(k) => {
                let was = self.settings.providers.remove(k);
                let ghost old_view = was@;
                assert(old_view == before[k as int]);
                let mut slot = entry;
                if slot.api_key.is_none() {
                    slot.api_key = was.api_key;
                }
                let ghost new_view = slot@;
                self.settings.providers.insert(k, slot);
                proof {
                    assert(provider_entry_views(self.settings.providers@) =~= before.update(
                        k as int,
                        new_view,
                    ));
                }
            },
            None => {
                self.settings.providers.push(entry);
                assert(provider_entry_views(self.settings.providers@) =~= before.push(entry@));
            },
        }
        let gone = self.models_cache.remove(id.as_str());
        assert(lists_map(self.models_cache@) =~= lists_map(cached).remove(id@));
        Ok(())
    }

    /// Gives up the providers under an id.
    pub fn remove_provider(&mut self, id: &str)
        requires
            old(self).wf(),
        ensures
            final(self).wf(),
            final(self)@ == (HostView {
                settings: SettingsView {
                    providers: without_provider(old(self)@.settings.providers, id@),
                    ..old(self)@.settings
                },
                models_cache: old(self)@.models_cache.remove(id@),
                ..old(self)@
            }),
    {
        let ghost before = self@.settings.providers;
        let ghost cached = self.models_cache@;
        let n: usize = self.settings.providers.len();
        let mut done: usize = 0;
        let mut i: usize = 0;
        proof {
            assert(before.take(0) =~= Seq::empty());
            assert(without_provider(before.take(0), id@) + before.skip(0) =~= before);
        }
        while done < n
            invariant
                i <= done <= n,
                before.len() == n,
                self.wf(),
                self.models_cache@ == cached,
                self@ == (HostView {
                    settings: SettingsView {
                        providers: self@.settings.providers,
                        ..old(self)@.settings
                    },
                    ..old(self)@
                }),
                i == without_provider(before.take(done as int), id@).len(),
                self@.settings.providers == without_provider(before.take(done as int), id@)
                    + before.skip(done as int),
            decreases n - done,
        {
            let ghost now = self.settings.providers@;
            let ghost head = without_provider(before.take(done as int), id@);
            proof {
                assert(before.take(done + 1).drop_last() =~= before.take(done as int));
                assert(before.take(done + 1).last() == before[done as int]);
                assert(provider_entry_views(now).len() == now.len());
                assert(before.skip(done as int).len() == n - done);
                assert(provider_entry_views(now)[i as int] == before[done as int]);
                assert(now[i as int]@ == before[done as int]);
            }
            if same(self.settings.providers[i].id.as_str(), id) {
                let gone = self.settings.providers.remove(i);
                proof {
                    assert(provider_entry_views(self.settings.providers@) =~= provider_entry_views(
                        now,
                    ).remove(i as int));
                    assert((head + before.skip(done as int)).remove(i as int) =~= head
                        + before.skip(done + 1));
                }
            } else {
                proof {
                    assert(head + before.skip(done as int) =~= head.push(before[done as int])
                        + before.skip(done + 1));
                }
                i = i + 1;
            }
            done = done + 1;
        }
        proof {
            assert(before.take(n as int) =~= before);
            assert(without_provider(before, id@) + before.skip(n as int) =~= without_provider(
                before,
                id@,
            ));
        }
        let gone = self.models_cache.remove(id);
        assert(lists_map(self.models_cache@) =~= lists_map(cached).remove(id@));
    }

    /// Notes what a provider said is left; nothing where there is no such
    /// provider.
    pub fn set_billing_cache(&mut self, provider_id: &str, snapshot: BillingSnapshot)
        requires
            old(self).wf(),
        ensures
            final(self).wf(),
            ({
                let all = old(self)@.settings.providers;
                let k = provider_place(all, provider_id@);
                final(self)@ == (if k < all.len() {
                    HostView {
                        settings: SettingsView {
                            providers: all.update(
                                k,
                                ProviderView { billing_cache: Some(snapshot@), ..all[k] },
                            ),
                            ..old(self)@.settings
                        },
                        ..old(self)@
                    }
                } else {
                    old(self)@
                })
            }),
    {
        let ghost before = self@.settings.providers;
        if let Some(k) = provider_at(&self.settings.providers, provider_id) {
            let mut p = self.settings.providers.remove(k);
            assert(p@ == before[k as int]);
            p.billing_cache = Some(snapshot);
            let ghost new_view = p@;
            self.settings.providers.insert(k, p);
            assert(provider_entry_views(self.settings.providers@) =~= before.update(
                k as int,
                new_view,
            ));
        }
    }

    /// Keeps the models that a provider named.
    pub fn remember_models(&mut self, provider_id: &str, models: Vec<String>)
        requires
            old(self).wf(),
        ensures
            final(self).wf(),
            final(self)@ == (HostView {
                models_cache: old(self)@.models_cache.insert(provider_id@, text_seq(models@)),
                ..old(self)@
            }),
    {
        let ghost before = self.models_cache@;
        self.models_cache.insert(provider_id.to_owned(), models);
        assert(lists_map(self.models_cache@) =~= lists_map(before).insert(
            provider_id@,
            text_seq(models@),
        ));
    }
}

/// A provider that is kept is found under its id, with its key where it has
/// one, else with the key that was there.
pub proof fn law_kept_provider_is_found(all: Seq<ProviderView>, p: ProviderView)
    ensures
        ({
            let found = find_provider(with_provider(all, p), p.id);
            found is Some && found->0 == (ProviderView {
                api_key: match p.api_key {
                    Some(key) => Some(key),
                    None => match find_provider(all, p.id) {
                        Some(q) => q.api_key,
                        None => None,
                    },
                },
                ..p
            })
        }),
    decreases all.len(),
{
    if all.len() == 0 {
        assert(with_provider(all, p)[0] == p);
    } else {
        let rest = all.drop_first();
        law_kept_provider_is_found(rest, p);
        let k = provider_place(all, p.id);
        lemma_provider_place_bound(all, p.id);
        lemma_provider_place_bound(rest, p.id);
        if all[0].id == p.id {
            assert(with_provider(all, p)[0].id == p.id);
        } else if k < all.len() {
            assert(with_provider(all, p).drop_first() =~= with_provider(rest, p));
            assert(with_provider(all, p)[0] == all[0]);
        } else {
            assert(with_provider(all, p).drop_first() =~= with_provider(rest, p));
            assert(with_provider(all, p)[0] == all[0]);
        }
    }
}

proof fn lemma_provider_place_bound(all: Seq<ProviderView>, id: Seq<char>)
    ensures
        0 <= provider_place(all, id) <= all.len(),
    decreases all.len(),
{
    if all.len() > 0 && all[0].id != id {
        lemma_provider_place_bound(all.drop_first(), id);
    }
}

// Changes that sessions must be assembled anew for.

/// The fingerprint of a provider.
pub open spec fn fingerprint(p: ProviderView) -> FingerprintView {
    FingerprintView { api_key: p.api_key, base_url: p.base_url, dialect: p.dialect }
}

/// The fingerprints of providers; the last one under an id counts.
pub open spec fn fingerprints(all: Seq<ProviderView>) -> Map<Seq<char>, FingerprintView>
    decreases all.len(),
{
    if all.len() == 0 {
        Map::empty()
    } else {
        fingerprints(all.drop_last()).insert(all.last().id, fingerprint(all.last()))
    }
}

/// Whether a provider is new or has changed.
pub open spec fn has_changed(h: HostView, id: Seq<char>) -> bool {
    let now = fingerprints(h.settings.providers);
    now.dom().contains(id) && !(h.provider_fp.dom().contains(id) && h.provider_fp[id] == now[id])
}

/// The attached sessions, not running, of providers that have changed.
pub open spec fn outdated(h: HostView) -> Set<Seq<char>> {
    Set::new(
        |id: Seq<char>|
            h.sessions.dom().contains(id) && !h.sessions[id] && has_changed(
                h,
                h.provider_for(h.workspace_of_session(id)).id,
            ),
    )
}

/// The state after sessions were checked against the providers.
pub open spec fn synced(h: HostView) -> HostView {
    if exists|id: Seq<char>| has_changed(h, id) {
        HostView {
            provider_fp: fingerprints(h.settings.providers),
            sessions: h.sessions.remove_keys(outdated(h)),
            ..h
        }
    } else {
        h
    }
}

fn same_fingerprint(a: &Fingerprint, b: &Fingerprint) -> (r: bool)
    ensures
        r == (a@ == b@),
{
    same_option(&a.api_key, &b.api_key) && same(a.base_url.as_str(), b.base_url.as_str()) && same(
        a.dialect.as_str(),
        b.dialect.as_str(),
    )
}

/// The model of a map to fingerprints.
pub open spec fn fp_view(m: Map<Seq<char>, Fingerprint>) -> Map<Seq<char>, FingerprintView> {
    m.map_values(|f: Fingerprint| f@)
}

fn take_fingerprints(list: &Vec<ProviderEntry>) -> (r: StrMap<Fingerprint>)
    ensures
        r.wf(),
        fp_view(r@) == fingerprints(provider_entry_views(list@)),
{
    let ghost all = provider_entry_views(list@);
    let mut out: StrMap<Fingerprint> = StrMap::new();
    let mut i: usize = 0;
    proof {
        assert(all.take(0) =~= Seq::empty());
        assert(fp_view(out@) =~= Map::empty());
    }
    while i < list.len()
        invariant
            i <= list.len(),
            all == provider_entry_views(list@),
            out.wf(),
            fp_view(out@) == fingerprints(all.take(i as int)),
        decreases list.len() - i,
    {
        let p = &list[i];
        let ghost before = out@;
        let f = Fingerprint {
            api_key: copy_text(&p.api_key),
            base_url: p.base_url.clone(),
            dialect: p.dialect.clone(),
        };
        let ghost v = f@;
        out.insert(p.id.clone(), f);
        proof {
            assert(all.take(i + 1).drop_last() =~= all.take(i as int));
            assert(all.take(i + 1).last() == p@);
            assert(fp_view(out@) =~= fp_view(before).insert(p@.id, v));
        }
        i = i + 1;
    }
    assert(all.take(all.len() as int) =~= all);
    out
}

fn changed_ids(now: &StrMap<Fingerprint>, before: &StrMap<Fingerprint>) -> (r: Vec<String>)
    ensures
        forall|k: Seq<char>| #[trigger]
            id_set(r@).contains(k) <==> now@.dom().contains(k) && !(before@.dom().contains(k)
                && fp_view(before@)[k] == fp_view(now@)[k]),
{
    let ids = now.keys();
    let mut out: Vec<String> = Vec::new();
    let mut i: usize = 0;
    while i < ids.len()
        invariant
            i <= ids.len(),
            id_set(ids@) == now@.dom(),
            forall|k: Seq<char>| #[trigger]
                id_set(out@).contains(k) <==> id_set(ids@.take(i as int)).contains(k)
                    && now@.dom().contains(k) && !(before@.dom().contains(k) && fp_view(before@)[k]
                    == fp_view(now@)[k]),
        decreases ids.len() - i,
    {
        let ghost head = ids@.take(i as int);
        let ghost seen = out@;
        let id = ids[i].as_str();
        proof {
            lemma_id_set_push(head, ids@[i as int]);
            assert(ids@.take(i + 1) =~= head.push(ids@[i as int]));
            assert(ids@[i as int]@ == id@);
            assert(id_set(ids@).contains(id@)) by {
                assert(ids@[i as int]@ == id@);
            }
        }
        let unchanged = match (now.get(id), before.get(id)) {
            (Some(a), Some(b)) => {
                assert(fp_view(now@)[id@] == a@);
                assert(fp_view(before@)[id@] == b@);
                same_fingerprint(b, a)
            },
            _ => false,
        };
        if !unchanged {
            out.push(ids[i].clone());
            proof {
                lemma_id_set_push(seen, ids@[i as int]);
            }
        }
        i = i + 1;
    }
    assert(ids@.take(ids@.len() as int) =~= ids@);
    out
}

impl AppHost {
    fn find_outdated(&self, changed: &Vec<String>) -> (r: Vec<String>)
        requires
            self.wf(),
            forall|k: Seq<char>| #[trigger]
                id_set(changed@).contains(k) <==> has_changed(self@, k),
        ensures
            id_set(r@) == outdated(self@),
    {
        let ids = self.sessions.keys();
        let mut out: Vec<String> = Vec::new();
        let mut i: usize = 0;
        while i < ids.len()
            invariant
                i <= ids.len(),
                self.wf(),
                id_set(ids@) == self@.sessions.dom(),
                forall|k: Seq<char>| #[trigger]
                    id_set(changed@).contains(k) <==> has_changed(self@, k),
                forall|k: Seq<char>| #[trigger]
                    id_set(out@).contains(k) <==> id_set(ids@.take(i as int)).contains(k)
                        && outdated(self@).contains(k),
            decreases ids.len() - i,
        {
            let ghost head = ids@.take(i as int);
            let ghost seen = out@;
            let id = ids[i].as_str();
            proof {
                lemma_id_set_push(head, ids@[i as int]);
                assert(ids@.take(i + 1) =~= head.push(ids@[i as int]));
                assert(ids@[i as int]@ == id@);
                assert(id_set(ids@).contains(id@)) by {
                    assert(ids@[i as int]@ == id@);
                }
            }
            let running = match self.sessions.get(id) {
                Some(b) => *b,
                None => false,
            };
            let (ws, stem) = self.resolve_session(id);
            let p = self.provider_for(&ws);
            if !running && crate::host::contains_text(changed, p.id.as_str()) {
                proof {
                    lemma_contains_is_set(changed@, p@.id);
                }
                out.push(ids[i].clone());
                proof {
                    lemma_id_set_push(seen, ids@[i as int]);
                }
            } else {
                proof {
                    lemma_contains_is_set(changed@, p@.id);
                }
            }
            i = i + 1;
        }
        proof {
            assert(ids@.take(ids@.len() as int) =~= ids@);
            assert(id_set(out@) =~= outdated(self@));
        }
        out
    }

    /// Checks sessions against the providers: those, not running, of a provider
    /// whose key, address or dialect has changed are let go, to be assembled
    /// anew. The first result names the providers that have changed, the second
    /// the sessions that were let go.
    pub fn sync_provider_transports(&mut self) -> (r: (Vec<String>, Vec<String>))
        requires
            old(self).wf(),
        ensures
            final(self).wf(),
            final(self)@ == synced(old(self)@),
            forall|k: Seq<char>| #[trigger]
                id_set(r.0@).contains(k) <==> has_changed(old(self)@, k),
            id_set(r.1@) == outdated(old(self)@),
    {
        let now = take_fingerprints(&self.settings.providers);
        let changed = changed_ids(&now, &self.provider_fp);
        let ghost h = self@;
        proof {
            assert forall|k: Seq<char>| #[trigger]
                id_set(changed@).contains(k) <==> has_changed(h, k) by {
                assert(fp_view(now@).dom().contains(k) == now@.dom().contains(k));
                assert(h.provider_fp == fp_view(self.provider_fp@));
            }
        }
        let gone = self.find_outdated(&changed);
        if changed.len() == 0 {
            proof {
                assert forall|k: Seq<char>| !has_changed(h, k) by {
                    assert(!id_set(changed@).contains(k));
                }
                assert(outdated(h) =~= Set::empty());
            }
            return (changed, gone);
        }
        proof {
            assert(id_set(changed@).contains(changed@[0]@));
            assert(has_changed(h, changed@[0]@));
        }
        self.provider_fp = now;
        self.sessions.remove_all(&gone);
        (changed, gone)
    }

    /// Chooses the provider of a workspace. Its attached sessions that are not
    /// running are let go, to be assembled anew.
    pub fn set_workspace_provider(&mut self, ws_name: &str, provider_id: &str) -> (r: Result<
        (),
        RpcError,
    >)
        requires
            old(self).wf(),
        ensures
            final(self).wf(),
            ({
                let h = old(self)@;
                match ws_named(h.workspaces, ws_name@) {
                    None => r is Err && r->Err_0@ == unknown_workspace() && final(self)@ == h,
                    Some(ws) => if find_provider(h.settings.providers, provider_id@) is None {
                        r is Err && r->Err_0@ == error_view("bad-request"@, "未知 provider"@)
                            && final(self)@ == h
                    } else {
                        r is Ok && final(self)@ == (HostView {
                            sessions: h.sessions.remove_keys(idle_under(h, ws.path)),
                            ..with_defaults(
                                h,
                                ws,
                                WorkspaceDefaultsView {
                                    provider: Some(provider_id@),
                                    ..h.defaults(ws)
                                },
                            )
                        })
                    },
                }
            }),
    {
        let ws = match self.workspace_of(ws_name) {
            Some(w) => w,
            None => {
                return Err(RpcError::bad_request("未知工作区"));
            },
        };
        if provider_index(&self.settings.providers, provider_id).is_none() {
            return Err(RpcError::bad_request("未知 provider"));
        }
        let gone = self.find_idle_under(ws.path.as_str());
        let mut d = self.defaults_for(&ws);
        d.provider = Some(provider_id.to_owned());
        self.put_defaults(&ws, d);
        self.sessions.remove_all(&gone);
        Ok(())
    }

    fn find_idle_under(&self, path: &str) -> (r: Vec<String>)
        ensures
            id_set(r@) == idle_under(self@, path@),
    {
        let ids = self.sessions.keys();
        let mut out: Vec<String> = Vec::new();
        let mut i: usize = 0;
        while i < ids.len()
            invariant
                i <= ids.len(),
                id_set(ids@) == self@.sessions.dom(),
                forall|k: Seq<char>| #[trigger]
                    id_set(out@).contains(k) <==> id_set(ids@.take(i as int)).contains(k)
                        && idle_under(self@, path@).contains(k),
            decreases ids.len() - i,
        {
            let ghost head = ids@.take(i as int);
            let ghost seen = out@;
            let id = ids[i].as_str();
            proof {
                lemma_id_set_push(head, ids@[i as int]);
                assert(ids@.take(i + 1) =~= head.push(ids@[i as int]));
                assert(id_set(ids@).contains(id@)) by {
                    assert(ids@[i as int]@ == id@);
                }
            }
            let running = match self.sessions.get(id) {
                Some(b) => *b,
                None => false,
            };
            let (ws, stem) = self.resolve_session(id);
            if !running && same(ws.path.as_str(), path) {
                out.push(ids[i].clone());
                proof {
                    lemma_id_set_push(seen, ids@[i as int]);
                }
            }
            i = i + 1;
        }
        proof {
            assert(ids@.take(ids@.len() as int) =~= ids@);
            assert(id_set(out@) =~= idle_under(self@, path@));
        }
        out
    }
}

/// The attached sessions of a workspace that are not running.
pub open spec fn idle_under(h: HostView, path: Seq<char>) -> Set<Seq<char>> {
    Set::new(
        |id: Seq<char>|
            h.sessions.dom().contains(id) && !h.sessions[id] && h.workspace_of_session(id).path
                == path,
    )
}

proof fn lemma_contains_is_set(v: Seq<String>, k: Seq<char>)
    ensures
        text_seq(v).contains(k) == id_set(v).contains(k),
{
    if text_seq(v).contains(k) {
        let i = choose|i: int| 0 <= i < text_seq(v).len() && text_seq(v)[i] == k;
        assert(v[i]@ == k);
    }
    if id_set(v).contains(k) {
        let i = choose|i: int| 0 <= i < v.len() && (#[trigger] v[i])@ == k;
        assert(text_seq(v)[i] == k);
    }
}

/// Checking sessions again, with the same settings, changes nothing more; and a
/// session that runs is never let go.
pub proof fn law_sync_is_idempotent(h: HostView)
    ensures
        synced(synced(h)) == synced(h),
        forall|id: Seq<char>| #[trigger]
            h.sessions.dom().contains(id) && h.sessions[id] ==> synced(h).sessions.dom().contains(
                id,
            ),
{
    let once = synced(h);
    if exists|id: Seq<char>| has_changed(h, id) {
        assert forall|id: Seq<char>| !has_changed(once, id) by {}
    }
}

// Hooks.

/// Names to choose from, as a text.
pub open spec fn one_of(names: Seq<Seq<char>>) -> Seq<char>
    decreases names.len(),
{
    if names.len() == 0 {
        Seq::empty()
    } else if names.len() == 1 {
        names[0]
    } else {
        one_of(names.drop_last()) + " 或 "@ + names.last()
    }
}

fn name_choices(names: &Vec<String>) -> (r: String)
    ensures
        r@ == one_of(text_seq(names@)),
{
    let ghost all = text_seq(names@);
    let mut out = String::new();
    let mut i: usize = 0;
    assert(all.take(0) =~= Seq::empty());
    while i < names.len()
        invariant
            i <= names.len(),
            all == text_seq(names@),
            out@ == one_of(all.take(i as int)),
        decreases names.len() - i,
    {
        proof {
            assert(all[i as int] == names@[i as int]@);
            assert(all.take(i + 1).drop_last() =~= all.take(i as int));
        }
        if i > 0 {
            out.append(" 或 ");
        }
        out.append(names[i].as_str());
        assert(out@ =~= one_of(all.take(i + 1)));
        i = i + 1;
    }
    assert(all.take(all.len() as int) =~= all);
    out
}

/// What is wrong with a set of hooks, where `dialects` can be understood.
pub open spec fn hook_fault(e: HookBridgeView, dialects: Seq<Seq<char>>) -> Option<ErrorView> {
    if !is_tool_id(e.id) {
        Some(error_view("bad-request"@, "id 仅限 ASCII 字母/数字/下划线/连字符"@))
    } else if !dialects.contains(e.dialect) {
        Some(error_view("bad-request"@, "dialect 仅限 "@ + one_of(dialects)))
    } else if is_blank(e.config_path) {
        Some(error_view("bad-request"@, "configPath 不能为空"@))
    } else {
        None
    }
}

/// The place of the first set of hooks under an id; their number where there is
/// none.
pub open spec fn hook_place(all: Seq<HookBridgeView>, id: Seq<char>) -> int
    decreases all.len(),
{
    if all.len() == 0 || all[0].id == id {
        0
    } else {
        1 + hook_place(all.drop_first(), id)
    }
}

/// The sets of hooks with one more, or with one in the place of another of its
/// id.
pub open spec fn with_hook(all: Seq<HookBridgeView>, e: HookBridgeView) -> Seq<HookBridgeView> {
    let k = hook_place(all, e.id);
    if k < all.len() {
        all.update(k, e)
    } else {
        all.push(e)
    }
}

/// The sets of hooks without those under an id.
pub open spec fn without_hook(all: Seq<HookBridgeView>, id: Seq<char>) -> Seq<HookBridgeView>
    decreases all.len(),
{
    if all.len() == 0 {
        Seq::empty()
    } else if all.last().id == id {
        without_hook(all.drop_last(), id)
    } else {
        without_hook(all.drop_last(), id).push(all.last())
    }
}

proof fn lemma_hook_place(all: Seq<HookBridgeView>, id: Seq<char>, k: int)
    requires
        0 <= k <= all.len(),
        k < all.len() ==> all[k].id == id,
        forall|i: int| 0 <= i < k ==> (#[trigger] all[i]).id != id,
    ensures
        hook_place(all, id) == k,
    decreases k,
{
    if k > 0 {
        assert(all[0].id != id);
        let rest = all.drop_first();
        assert forall|i: int| 0 <= i < k - 1 implies (#[trigger] rest[i]).id != id by {
            assert(rest[i] == all[i + 1]);
        }
        lemma_hook_place(rest, id, k - 1);
    }
}

impl AppHost {
    /// The sets of hooks.
    pub fn hook_bridges(&self) -> (r: Vec<HookBridgeEntry>)
        ensures
            hook_bridge_entry_views(r@) == self@.settings.hook_bridges,
    {
        crate::settings::copy_hooks(&self.settings.hook_bridges)
    }

    /// Keeps a set of hooks.
    pub fn upsert_hook_bridge(&mut self, entry: HookBridgeEntry, dialects: &Vec<String>) -> (r: Result<
        (),
        RpcError,
    >)
        requires
            old(self).wf(),
        ensures
            final(self).wf(),
            match hook_fault(entry@, text_seq(dialects@)) {
                Some(e) => r is Err && r->Err_0@ == e && final(self)@ == old(self)@,
                None => r is Ok && final(self)@ == (HostView {
                    settings: SettingsView {
                        hook_bridges: with_hook(old(self)@.settings.hook_bridges, entry@),
                        ..old(self)@.settings
                    },
                    ..old(self)@
                }),
            },
    {
        if !good_tool_id(entry.id.as_str()) {
            return Err(RpcError::bad_request("id 仅限 ASCII 字母/数字/下划线/连字符"));
        }
        if !contains_text(dialects, entry.dialect.as_str()) {
            let mut message = "dialect 仅限 ".to_owned();
            let names = name_choices(dialects);
            message.append(names.as_str());
            return Err(RpcError::bad_request(message.as_str()));
        }
        if blank(entry.config_path.as_str()) {
            return Err(RpcError::bad_request("configPath 不能为空"));
        }
        let ghost before = self@.settings.hook_bridges;
        let mut i: usize = 0;
        while i < self.settings.hook_bridges.len() && !same(
            self.settings.hook_bridges[i].id.as_str(),
            entry.id.as_str(),
        )
            invariant
                i <= self.settings.hook_bridges.len(),
                self@ == old(self)@,
                self.wf(),
                before == hook_bridge_entry_views(self.settings.hook_bridges@),
                forall|k: int| 0 <= k < i ==> (#[trigger] before[k]).id != entry@.id,
            decreases self.settings.hook_bridges.len() - i,
        {
            assert(before[i as int] == self.settings.hook_bridges@[i as int]@);
            i = i + 1;
        }
        proof {
            if i < self.settings.hook_bridges.len() {
                assert(before[i as int] == self.settings.hook_bridges@[i as int]@);
            }
            lemma_hook_place(before, entry@.id, i as int);
        }
        let ghost view = entry@;
        if i < self.settings.hook_bridges.len() {
            let gone = self.settings.hook_bridges.remove(i);
            self.settings.hook_bridges.insert(i, entry);
            assert(hook_bridge_entry_views(self.settings.hook_bridges@) =~= before.update(
                i as int,
                view,
            ));
        } else {
            self.settings.hook_bridges.push(entry);
            assert(hook_bridge_entry_views(self.settings.hook_bridges@) =~= before.push(view));
        }
        Ok(())
    }

    /// Gives up the sets of hooks under an id.
    pub fn remove_hook_bridge(&mut self, id: &str)
        requires
            old(self).wf(),
        ensures
            final(self).wf(),
            final(self)@ == (HostView {
                settings: SettingsView {
                    hook_bridges: without_hook(old(self)@.settings.hook_bridges, id@),
                    ..old(self)@.settings
                },
                ..old(self)@
            }),
    {
        let ghost before = self@.settings.hook_bridges;
        let n: usize = self.settings.hook_bridges.len();
        let mut done: usize = 0;
        let mut i: usize = 0;
        proof {
            assert(before.take(0) =~= Seq::empty());
            assert(without_hook(before.take(0), id@) + before.skip(0) =~= before);
        }
        while done < n
            invariant
                i <= done <= n,
                before.len() == n,
                self.wf(),
                self@ == (HostView {
                    settings: SettingsView {
                        hook_bridges: self@.settings.hook_bridges,
                        ..old(self)@.settings
                    },
                    ..old(self)@
                }),
                i == without_hook(before.take(done as int), id@).len(),
                self@.settings.hook_bridges == without_hook(before.take(done as int), id@)
                    + before.skip(done as int),
            decreases n - done,
        {
            let ghost now = self.settings.hook_bridges@;
            let ghost head = without_hook(before.take(done as int), id@);
            proof {
                assert(before.take(done + 1).drop_last() =~= before.take(done as int));
                assert(before.take(done + 1).last() == before[done as int]);
                assert(hook_bridge_entry_views(now).len() == now.len());
                assert(before.skip(done as int).len() == n - done);
                assert(hook_bridge_entry_views(now)[i as int] == before[done as int]);
                assert(now[i as int]@ == before[done as int]);
            }
            if same(self.settings.hook_bridges[i].id.as_str(), id) {
                let gone = self.settings.hook_bridges.remove(i);
                proof {
                    assert(hook_bridge_entry_views(self.settings.hook_bridges@)
                        =~= hook_bridge_entry_views(now).remove(i as int));
                    assert((head + before.skip(done as int)).remove(i as int) =~= head
                        + before.skip(done + 1));
                }
            } else {
                proof {
                    assert(head + before.skip(done as int) =~= head.push(before[done as int])
                        + before.skip(done + 1));
                }
                i = i + 1;
            }
            done = done + 1;
        }
        proof {
            assert(before.take(n as int) =~= before);
            assert(without_hook(before, id@) + before.skip(n as int) =~= without_hook(before, id@));
        }
    }
}

/// The sets of hooks, of some, that sessions use.
pub open spec fn used_hooks(all: Seq<HookBridgeView>) -> Seq<HookBridgeView>
    decreases all.len(),
{
    if all.len() == 0 {
        Seq::empty()
    } else if all.last().enabled {
        used_hooks(all.drop_last()).push(all.last())
    } else {
        used_hooks(all.drop_last())
    }
}

/// The file of a set of hooks, where it lies under the user's home: the rest of
/// its path.
pub fn under_home(path: &str) -> (r: Option<String>)
    ensures
        match r {
            Some(rest) => begins_with(path@, "~/"@) && rest@ == path@.skip("~/"@.len() as int),
            None => !begins_with(path@, "~/"@),
        },
{
    crate::text::without_prefix(path, "~/")
}

impl AppHost {
    /// The sets of hooks that sessions use.
    pub fn enabled_hooks(&self) -> (r: Vec<HookBridgeEntry>)
        ensures
            hook_bridge_entry_views(r@) == used_hooks(self@.settings.hook_bridges),
    {
        let ghost all = self@.settings.hook_bridges;
        let mut out: Vec<HookBridgeEntry> = Vec::new();
        let mut i: usize = 0;
        proof {
            assert(all.take(0) =~= Seq::empty());
            assert(hook_bridge_entry_views(out@) =~= Seq::empty());
        }
        while i < self.settings.hook_bridges.len()
            invariant
                i <= self.settings.hook_bridges.len(),
                all == hook_bridge_entry_views(self.settings.hook_bridges@),
                hook_bridge_entry_views(out@) == used_hooks(all.take(i as int)),
            decreases self.settings.hook_bridges.len() - i,
        {
            let e = &self.settings.hook_bridges[i];
            proof {
                assert(all.take(i + 1).drop_last() =~= all.take(i as int));
                assert(all.take(i + 1).last() == e@);
            }
            if e.enabled {
                let copy = e.copy();
                assert(hook_bridge_entry_views(out@.push(copy)) =~= hook_bridge_entry_views(
                    out@,
                ).push(copy@));
                out.push(copy);
            }
            i = i + 1;
        }
        assert(all.take(all.len() as int) =~= all);
        out
    }
}

/// A provider of the catalog as it is first set.
pub open spec fn catalog_provider(e: CatalogView) -> ProviderView {
    ProviderView { id: e.id, base_url: e.base_url, dialect: e.dialect, ..builtin_view() }
}

/// Whether a path, where there is one, begins at the root of the answer.
pub open spec fn is_rooted(path: Option<Seq<char>>) -> bool {
    path matches Some(p) ==> p.len() > 0 && p[0] == '$'
}

/// Whether all paths of a billing configuration begin at the root, and those are there
/// that its kind needs.
pub open spec fn is_billable(b: BillingView) -> bool {
    &&& is_rooted(b.paths.balance) && is_rooted(b.paths.currency)
    &&& is_rooted(b.paths.usage_5h) && is_rooted(b.paths.usage_7d)
    &&& is_rooted(b.paths.resets) && is_rooted(b.paths.resets_7d)
    &&& b.kind is Balance ==> b.paths.balance is Some
    &&& b.kind is Usage ==> b.paths.usage_5h is Some && b.paths.usage_7d is Some
}

/// Whether an entry of the catalog can be set as a provider, has a model, and can be
/// asked for what is left where it says how.
pub open spec fn is_settable(e: CatalogView) -> bool {
    &&& forall|ref_known: bool| #[trigger] provider_fault(catalog_provider(e), ref_known) is None
    &&& e.models.len() > 0
    &&& e.billing matches Some(b) ==> is_billable(b)
}

/// The entries of the catalog have different ids, and each can be set.
pub proof fn law_catalog_is_settable()
    ensures
        forall|i: int, j: int|
            0 <= i < j < known_catalog().len() ==> (#[trigger] known_catalog()[i]).id != (
            #[trigger] known_catalog()[j]).id,
        forall|i: int|
            0 <= i < known_catalog().len() ==> is_settable(#[trigger] known_catalog()[i]),
{
    lemma_deepseek_is_settable();
    lemma_glm_is_settable();
    lemma_kimi_is_settable();
    lemma_minimax_is_settable();
    lemma_qwen_is_settable();
    let all = known_catalog();
    assert(all[0] == catalog_deepseek() && all[1] == catalog_glm() && all[2] == catalog_kimi()
        && all[3] == catalog_minimax() && all[4] == catalog_qwen());
    reveal_strlit("deepseek");
    reveal_strlit("glm");
    reveal_strlit("kimi");
    reveal_strlit("minimax");
    reveal_strlit("qwen");
    assert("deepseek"@.len() == 8 && "glm"@.len() == 3 && "kimi"@.len() == 4 && "minimax"@.len()
        == 7 && "qwen"@.len() == 4 && "kimi"@[0] == 'k' && "qwen"@[0] == 'q');
    assert forall|i: int, j: int| 0 <= i < j < all.len() implies (#[trigger] all[i]).id != (
    #[trigger] all[j]).id by {
        assert(i == 0 || i == 1 || i == 2 || i == 3);
        assert(j == 1 || j == 2 || j == 3 || j == 4);
    }
    assert forall|i: int| 0 <= i < all.len() implies is_settable(#[trigger] all[i]) by {
        assert(i == 0 || i == 1 || i == 2 || i == 3 || i == 4);
    }
}

proof fn lemma_secure_url(url: Seq<char>)
    requires
        url.len() >= 8,
        url[0] == 'h' && url[1] == 't' && url[2] == 't' && url[3] == 'p' && url[4] == 's' && url[5]
            == ':' && url[6] == '/' && url[7] == '/',
    ensures
        begins_with(url, "https://"@),
{
    reveal_strlit("https://");
    assert(url.take(8) =~= "https://"@);
}

proof fn lemma_deepseek_is_settable()
    ensures
        is_settable(catalog_deepseek()),
{
    reveal_strlit("deepseek");
    reveal_strlit("https://api.deepseek.com/v1");
    reveal_strlit("$.balance_infos[0].total_balance");
    reveal_strlit("$.balance_infos[0].currency");
    lemma_secure_url("https://api.deepseek.com/v1"@);
    assert(is_provider_id("deepseek"@));
}

proof fn lemma_glm_is_settable()
    ensures
        is_settable(catalog_glm()),
{
    reveal_strlit("glm");
    reveal_strlit("https://open.bigmodel.cn/api/v1");
    reveal_strlit("$.data.limits[?(@.type==\"TOKENS_LIMIT\" && @.unit==3)].percentage");
    reveal_strlit("$.data.limits[?(@.type==\"TOKENS_LIMIT\" && @.unit==6)].percentage");
    reveal_strlit("$.data.limits[?(@.type==\"TOKENS_LIMIT\" && @.unit==3)].nextResetTime");
    reveal_strlit("$.data.limits[?(@.type==\"TOKENS_LIMIT\" && @.unit==6)].nextResetTime");
    lemma_secure_url("https://open.bigmodel.cn/api/v1"@);
    assert(is_provider_id("glm"@));
}

proof fn lemma_kimi_is_settable()
    ensures
        is_settable(catalog_kimi()),
{
    reveal_strlit("kimi");
    reveal_strlit("https://api.moonshot.cn/v1");
    reveal_strlit("$.data.available_balance");
    lemma_secure_url("https://api.moonshot.cn/v1"@);
    assert(is_provider_id("kimi"@));
}

proof fn lemma_minimax_is_settable()
    ensures
        is_settable(catalog_minimax()),
{
    reveal_strlit("minimax");
    reveal_strlit("https://api.minimax.cn/v1");
    lemma_secure_url("https://api.minimax.cn/v1"@);
    assert(is_provider_id("minimax"@));
}

proof fn lemma_qwen_is_settable()
    ensures
        is_settable(catalog_qwen()),
{
    reveal_strlit("qwen");
    reveal_strlit("https://{WorkspaceId}.cn-beijing.maas.aliyuncs.com/compatible-mode/v1");
    lemma_secure_url("https://{WorkspaceId}.cn-beijing.maas.aliyuncs.com/compatible-mode/v1"@);
    assert(is_provider_id("qwen"@));
}

/// Which providers can be kept: those with an id of small letters, digits and hyphens
/// that neither begins nor ends with one, an address of the web, a dialect that is
/// understood, and a place for the key that can be read where one is named.
pub proof fn law_good_providers_are_kept(p: ProviderView, ref_known: bool)
    ensures
        provider_fault(p, ref_known) is None <==> p.id.len() > 0 && (forall|i: int|
            0 <= i < p.id.len() ==> {
                let c = #[trigger] p.id[i];
                ('a' <= c && c <= 'z') || ('0' <= c && c <= '9') || c == '-'
            }) && p.id[0] != '-' && p.id.last() != '-' && ((exists|rest: Seq<char>|
            p.base_url == #[trigger] ("http://"@ + rest)) || (exists|rest: Seq<char>|
            p.base_url == #[trigger] ("https://"@ + rest))) && (p.dialect == "openai-completions"@
            || p.dialect == "anthropic-messages"@ || p.dialect == "openai-responses"@ || p.dialect
            == "glm-responses"@) && (p.credential_ref is Some ==> ref_known),
        provider_fault(p, ref_known) matches Some(e) ==> e.code == "bad-request"@,
{
    lemma_begins(p.base_url, "http://"@);
    lemma_begins(p.base_url, "https://"@);
    if !is_provider_id(p.id) && p.id.len() > 0 && p.id[0] != '-' && p.id.last() != '-' {
        let i = choose|i: int| 0 <= i < p.id.len() && !is_provider_char(#[trigger] p.id[i]);
        let c = p.id[i];
        assert(!(('a' <= c && c <= 'z') || ('0' <= c && c <= '9') || c == '-'));
    }
}

proof fn lemma_begins(s: Seq<char>, prefix: Seq<char>)
    ensures
        begins_with(s, prefix) <==> exists|rest: Seq<char>| s == #[trigger] (prefix + rest),
{
    let n = prefix.len() as int;
    if begins_with(s, prefix) {
        assert(s =~= prefix + s.skip(n));
    }
    if exists|rest: Seq<char>| s == #[trigger] (prefix + rest) {
        let rest = choose|rest: Seq<char>| s == #[trigger] (prefix + rest);
        assert(s.take(n) =~= prefix);
    }
}

proof fn lemma_provider_place_holds(all: Seq<ProviderView>, id: Seq<char>)
    ensures
        0 <= provider_place(all, id) <= all.len(),
        provider_place(all, id) < all.len() ==> all[provider_place(all, id)].id == id,
        forall|i: int| 0 <= i < provider_place(all, id) ==> (#[trigger] all[i]).id != id,
    decreases all.len(),
{
    if all.len() > 0 && all[0].id != id {
        let rest = all.drop_first();
        lemma_provider_place_holds(rest, id);
        assert forall|i: int| 0 <= i < provider_place(all, id) implies (#[trigger] all[i]).id
            != id by {
            if i > 0 {
                assert(all[i] == rest[i - 1]);
            }
        }
    }
}

/// Keeping a provider touches no provider of another id: each stays in its place. It
/// takes the place of the one of its id, or comes last where there is none.
pub proof fn law_other_providers_stay(all: Seq<ProviderView>, p: ProviderView)
    ensures
        ({
            let after = with_provider(all, p);
            &&& forall|i: int|
                0 <= i < all.len() && (#[trigger] all[i]).id != p.id ==> i < after.len() && after[i]
                    == all[i]
            &&& (forall|i: int| 0 <= i < all.len() ==> (#[trigger] all[i]).id != p.id) ==> after
                == all.push(p)
            &&& (exists|i: int| 0 <= i < all.len() && (#[trigger] all[i]).id == p.id) ==> after.len()
                == all.len()
            &&& exists|i: int|
                0 <= i < after.len() && (#[trigger] after[i]).id == p.id && after[i].base_url
                    == p.base_url && after[i].dialect == p.dialect && after[i].models == p.models
        }),
{
    lemma_provider_place_holds(all, p.id);
    let k = provider_place(all, p.id);
    let after = with_provider(all, p);
    assert(after[k].id == p.id);
}

/// Giving up a provider leaves all those of other ids, in order, and none of its id.
pub proof fn law_removed_provider_is_gone(all: Seq<ProviderView>, id: Seq<char>)
    ensures
        without_provider(all, id) == all.filter(|p: ProviderView| p.id != id),
{
    lemma_without_provider(all, id, |p: ProviderView| p.id != id);
}

proof fn lemma_without_provider(
    all: Seq<ProviderView>,
    id: Seq<char>,
    keep: spec_fn(ProviderView) -> bool,
)
    requires
        forall|p: ProviderView| #[trigger] keep(p) == (p.id != id),
    ensures
        without_provider(all, id) == all.filter(keep),
    decreases all.len(),
{
    reveal(Seq::filter);
    if all.len() > 0 {
        lemma_without_provider(all.drop_last(), id, keep);
        assert(keep(all.last()) == (all.last().id != id));
    } else {
        assert(without_provider(all, id) =~= all.filter(keep));
    }
}

proof fn lemma_fingerprints(all: Seq<ProviderView>, i: int)
    requires
        0 <= i < all.len(),
        forall|k: int| i < k < all.len() ==> (#[trigger] all[k]).id != all[i].id,
    ensures
        fingerprints(all).dom().contains(all[i].id),
        fingerprints(all)[all[i].id] == fingerprint(all[i]),
    decreases all.len(),
{
    if i < all.len() - 1 {
        let rest = all.drop_last();
        assert forall|k: int| i < k < rest.len() implies (#[trigger] rest[k]).id != rest[i].id by {
            assert(all[k].id != all[i].id);
        }
        lemma_fingerprints(rest, i);
        assert(all[all.len() - 1].id != all[i].id);
    }
}

/// A provider has changed exactly where its key, its address or its dialect is another
/// than when sessions were last checked, or where it was not there then.
pub proof fn law_change_is_of_transport(h: HostView, i: int)
    requires
        0 <= i < h.settings.providers.len(),
        forall|j: int, k: int|
            0 <= j < k < h.settings.providers.len() ==> (#[trigger] h.settings.providers[j]).id != (
            #[trigger] h.settings.providers[k]).id,
    ensures
        ({
            let p = h.settings.providers[i];
            has_changed(h, p.id) <==> !h.provider_fp.dom().contains(p.id) || h.provider_fp[p.id].api_key
                != p.api_key || h.provider_fp[p.id].base_url != p.base_url
                || h.provider_fp[p.id].dialect != p.dialect
        }),
{
    lemma_fingerprints(h.settings.providers, i);
}

/// Which sessions are let go: those that are attached, do not run, and whose provider has
/// changed. All others stay as they are.
pub proof fn law_outdated_sessions_go(h: HostView, id: Seq<char>)
    ensures
        synced(h).sessions.dom().contains(id) <==> h.sessions.dom().contains(id) && (h.sessions[id]
            || !has_changed(h, h.provider_for(h.workspace_of_session(id)).id)),
        synced(h).sessions.dom().contains(id) ==> synced(h).sessions[id] == h.sessions[id],
        synced(h) == (HostView {
            sessions: synced(h).sessions,
            provider_fp: synced(h).provider_fp,
            ..h
        }),
{
    let p = h.provider_for(h.workspace_of_session(id)).id;
    if has_changed(h, p) {
        assert(exists|x: Seq<char>| has_changed(h, x));
    }
}

/// The attached sessions of a workspace that are let go with a change of its provider:
/// those that do not run.
pub proof fn law_idle_sessions_of_workspace(h: HostView, path: Seq<char>, id: Seq<char>)
    ensures
        idle_under(h, path).contains(id) <==> h.sessions.dom().contains(id) && !h.sessions[id]
            && h.resolve(id).0.path == path,
{
}

/// Which sets of hooks can be kept: those with an id of letters, digits, underscores and
/// hyphens, a dialect that is understood, and a file.
pub proof fn law_good_hooks_are_kept(e: HookBridgeView, dialects: Seq<Seq<char>>)
    ensures
        hook_fault(e, dialects) is None <==> e.id.len() > 0 && (forall|i: int|
            0 <= i < e.id.len() ==> {
                let c = #[trigger] e.id[i];
                ('0' <= c && c <= '9') || ('A' <= c && c <= 'Z') || ('a' <= c && c <= 'z') || c
                    == '_' || c == '-'
            }) && dialects.contains(e.dialect) && !is_blank(e.config_path),
{
    if !is_tool_id(e.id) && e.id.len() > 0 {
        let i = choose|i: int| 0 <= i < e.id.len() && !crate::mcp::is_id_char(#[trigger] e.id[i]);
        let c = e.id[i];
        assert(!(('0' <= c && c <= '9') || ('A' <= c && c <= 'Z') || ('a' <= c && c <= 'z') || c
            == '_' || c == '-'));
    }
}

proof fn lemma_hook_place_holds(all: Seq<HookBridgeView>, id: Seq<char>)
    ensures
        0 <= hook_place(all, id) <= all.len(),
        hook_place(all, id) < all.len() ==> all[hook_place(all, id)].id == id,
        forall|i: int| 0 <= i < hook_place(all, id) ==> (#[trigger] all[i]).id != id,
    decreases all.len(),
{
    if all.len() > 0 && all[0].id != id {
        let rest = all.drop_first();
        lemma_hook_place_holds(rest, id);
        assert forall|i: int| 0 <= i < hook_place(all, id) implies (#[trigger] all[i]).id != id by {
            if i > 0 {
                assert(all[i] == rest[i - 1]);
            }
        }
    }
}

/// Keeping, giving up and using sets of hooks. One that is kept is there, in the place of
/// the one of its id or last; all others stay. One that is given up is gone; all others
/// stay, in order. Those that are in use are all those that are switched on, in order.
pub proof fn law_hooks_are_kept(all: Seq<HookBridgeView>, e: HookBridgeView, id: Seq<char>)
    ensures
        with_hook(all, e).contains(e),
        forall|i: int|
            0 <= i < all.len() && (#[trigger] all[i]).id != e.id ==> i < with_hook(all, e).len()
                && with_hook(all, e)[i] == all[i],
        (forall|i: int| 0 <= i < all.len() ==> (#[trigger] all[i]).id != e.id) ==> with_hook(all, e)
            == all.push(e),
        (exists|i: int| 0 <= i < all.len() && (#[trigger] all[i]).id == e.id) ==> with_hook(
            all,
            e,
        ).len() == all.len(),
        without_hook(all, id) == all.filter(|h: HookBridgeView| h.id != id),
        used_hooks(all) == all.filter(|h: HookBridgeView| h.enabled),
{
    lemma_hook_place_holds(all, e.id);
    assert(with_hook(all, e)[hook_place(all, e.id)] == e);
    lemma_hook_filters(
        all,
        id,
        |h: HookBridgeView| h.id != id,
        |h: HookBridgeView| h.enabled,
    );
}

proof fn lemma_hook_filters(
    all: Seq<HookBridgeView>,
    id: Seq<char>,
    keep: spec_fn(HookBridgeView) -> bool,
    on: spec_fn(HookBridgeView) -> bool,
)
    requires
        forall|h: HookBridgeView| #[trigger] keep(h) == (h.id != id),
        forall|h: HookBridgeView| #[trigger] on(h) == h.enabled,
    ensures
        without_hook(all, id) == all.filter(keep),
        used_hooks(all) == all.filter(on),
    decreases all.len(),
{
    reveal(Seq::filter);
    if all.len() > 0 {
        lemma_hook_filters(all.drop_last(), id, keep, on);
        assert(keep(all.last()) == (all.last().id != id));
        assert(on(all.last()) == all.last().enabled);
    } else {
        assert(without_hook(all, id) =~= all.filter(keep));
        assert(used_hooks(all) =~= all.filter(on));
    }
}

} // verus!
