//! The settings of the host: providers, workspaces, servers of tools, hooks.
use vstd::prelude::*;
use vstd::string::*;

use crate::interact::text_view;
use crate::json::{
    Json, JsonTree, Num, entry_trees, flag, has_entry, lemma_entry, lemma_entry_some,
    lemma_tree_of_object, text_json, text_option, text_trees, texts_json, trees,
};
use crate::strmap::StrMap;
use crate::text::same;

verus! {

/// The form of the settings that is understood.
pub const SETTINGS_VERSION: u32 = 1;

/// The models of a run of texts.
pub open spec fn text_seq(v: Seq<String>) -> Seq<Seq<char>> {
    v.map_values(|s: String| s@)
}

/// The model of a map to texts.
pub open spec fn text_map(m: Map<Seq<char>, String>) -> Map<Seq<char>, Seq<char>> {
    m.map_values(|s: String| s@)
}

/// A second text that is the same as this one, where there is one.
pub fn copy_text(s: &Option<String>) -> (r: Option<String>)
    ensures
        r == *s,
{
    match s {
        Some(s) => Some(s.clone()),
        None => None,
    }
}

/// A second run of texts that is the same as this one.
pub fn copy_strings(v: &Vec<String>) -> (r: Vec<String>)
    ensures
        r@ == v@,
{
    let mut out: Vec<String> = Vec::new();
    let mut i: usize = 0;
    while i < v.len()
        invariant
            i <= v.len(),
            out@ == v@.take(i as int),
        decreases v.len() - i,
    {
        out.push(v[i].clone());
        assert(v@.take(i + 1) =~= v@.take(i as int).push(v@[i as int]));
        i = i + 1;
    }
    assert(v@.take(v@.len() as int) =~= v@);
    out
}

/// A second map that is the same as this one.
pub fn copy_text_map(m: &StrMap<String>) -> (r: StrMap<String>)
    ensures
        r.entries@ == m.entries@,
        r@ == m@,
        m.wf() ==> r.wf(),
{
    let mut out: Vec<(String, String)> = Vec::new();
    let mut i: usize = 0;
    while i < m.entries.len()
        invariant
            i <= m.entries.len(),
            out@ == m.entries@.take(i as int),
        decreases m.entries.len() - i,
    {
        out.push((m.entries[i].0.clone(), m.entries[i].1.clone()));
        assert(m.entries@.take(i + 1) =~= m.entries@.take(i as int).push(m.entries@[i as int]));
        i = i + 1;
    }
    assert(m.entries@.take(m.entries@.len() as int) =~= m.entries@);
    StrMap { entries: out }
}

/// A second map that is the same as this one.
fn copy_numbers(m: &StrMap<u64>) -> (r: StrMap<u64>)
    ensures
        r.entries@ == m.entries@,
        r@ == m@,
        m.wf() ==> r.wf(),
{
    let mut out: Vec<(String, u64)> = Vec::new();
    let mut i: usize = 0;
    while i < m.entries.len()
        invariant
            i <= m.entries.len(),
            out@ == m.entries@.take(i as int),
        decreases m.entries.len() - i,
    {
        out.push((m.entries[i].0.clone(), m.entries[i].1));
        assert(m.entries@.take(i + 1) =~= m.entries@.take(i as int).push(m.entries@[i as int]));
        i = i + 1;
    }
    assert(m.entries@.take(m.entries@.len() as int) =~= m.entries@);
    StrMap { entries: out }
}

/// A second map that is the same as this one.
fn copy_workspace_defaults_map(m: &StrMap<WorkspaceDefaults>) -> (r: StrMap<WorkspaceDefaults>)
    ensures
        r.entries@ == m.entries@,
        r@ == m@,
        m.wf() ==> r.wf(),
{
    let mut out: Vec<(String, WorkspaceDefaults)> = Vec::new();
    let mut i: usize = 0;
    while i < m.entries.len()
        invariant
            i <= m.entries.len(),
            out@ == m.entries@.take(i as int),
        decreases m.entries.len() - i,
    {
        out.push((m.entries[i].0.clone(), m.entries[i].1.copy()));
        assert(m.entries@.take(i + 1) =~= m.entries@.take(i as int).push(m.entries@[i as int]));
        i = i + 1;
    }
    assert(m.entries@.take(m.entries@.len() as int) =~= m.entries@);
    StrMap { entries: out }
}

/// A text, or `Null` where there is none.
pub open spec fn text_or_null(s: Option<String>) -> JsonTree {
    match s {
        Some(s) => JsonTree::Text(s@),
        None => JsonTree::Null,
    }
}

pub(crate) fn nullable_text(s: &Option<String>) -> (r: Json)
    ensures
        r@ == text_or_null(*s),
{
    match s {
        Some(s) => Json::text(s.as_str()),
        None => Json::Null,
    }
}

/// A map to texts in JSON.
pub open spec fn text_map_tree(entries: Seq<(String, String)>) -> JsonTree {
    JsonTree::Object(entries.map_values(|e: (String, String)| (e.0@, JsonTree::Text(e.1@))))
}

/// A map to numbers in JSON.
pub open spec fn number_map_tree(entries: Seq<(String, u64)>) -> JsonTree {
    JsonTree::Object(
        entries.map_values(|e: (String, u64)| (e.0@, JsonTree::Number(Num::Unsigned(e.1)))),
    )
}

/// A map to texts as an object.
pub fn text_map_json(m: &StrMap<String>) -> (r: Json)
    ensures
        r@ == text_map_tree(m.entries@),
{
    let ghost wanted = m.entries@.map_values(
        |e: (String, String)| (e.0@, JsonTree::Text(e.1@)),
    );
    let mut out: Vec<(String, Json)> = Vec::new();
    let mut i: usize = 0;
    while i < m.entries.len()
        invariant
            i <= m.entries.len(),
            wanted == m.entries@.map_values(|e: (String, String)| (e.0@, JsonTree::Text(e.1@))),
            entry_trees(out@) == wanted.take(i as int),
        decreases m.entries.len() - i,
    {
        let entry = (m.entries[i].0.clone(), Json::text(m.entries[i].1.as_str()));
        proof {
            assert(entry_trees(out@.push(entry)) =~= entry_trees(out@).push((entry.0@, entry.1@)));
            assert(wanted.take(i + 1) =~= wanted.take(i as int).push(wanted[i as int]));
        }
        out.push(entry);
        i = i + 1;
    }
    proof {
        assert(wanted.take(wanted.len() as int) =~= wanted);
        lemma_tree_of_object(out);
    }
    Json::Object(out)
}

pub(crate) fn number_map_json(m: &StrMap<u64>) -> (r: Json)
    ensures
        r@ == number_map_tree(m.entries@),
{
    let ghost wanted = m.entries@.map_values(
        |e: (String, u64)| (e.0@, JsonTree::Number(Num::Unsigned(e.1))),
    );
    let mut out: Vec<(String, Json)> = Vec::new();
    let mut i: usize = 0;
    while i < m.entries.len()
        invariant
            i <= m.entries.len(),
            wanted == m.entries@.map_values(
                |e: (String, u64)| (e.0@, JsonTree::Number(Num::Unsigned(e.1))),
            ),
            entry_trees(out@) == wanted.take(i as int),
        decreases m.entries.len() - i,
    {
        let entry = (m.entries[i].0.clone(), Json::number(m.entries[i].1));
        proof {
            assert(entry_trees(out@.push(entry)) =~= entry_trees(out@).push((entry.0@, entry.1@)));
            assert(wanted.take(i + 1) =~= wanted.take(i as int).push(wanted[i as int]));
        }
        out.push(entry);
        i = i + 1;
    }
    proof {
        assert(wanted.take(wanted.len() as int) =~= wanted);
        lemma_tree_of_object(out);
    }
    Json::Object(out)
}

/// Whether a provider tells a balance or a usage.
#[derive(Debug, PartialEq, Eq, Clone, Copy, Structural)]
pub enum BillingKind {
    Balance,
    Usage,
}

impl BillingKind {
    /// How it stands in JSON.
    pub open spec fn tree(self) -> JsonTree {
        match self {
            BillingKind::Balance => JsonTree::Text("balance"@),
            BillingKind::Usage => JsonTree::Text("usage"@),
        }
    }

    /// How it stands in JSON.
    pub fn to_json(self) -> (r: Json)
        ensures
            r@ == self.tree(),
    {
        match self {
            BillingKind::Balance => Json::text("balance"),
            BillingKind::Usage => Json::text("usage"),
        }
    }
}

/// What a provider said is left.
#[derive(Debug, PartialEq)]
pub enum BillingSnapshot {
    Balance { fetched_at_ms: u64, amount: String, currency: Option<String> },
    Usage {
        fetched_at_ms: u64,
        pct_5h: Option<u8>,
        pct_7d: Option<u8>,
        resets: Option<String>,
        resets_7d: Option<String>,
    },
}

/// The model of [`BillingSnapshot`].
pub enum SnapshotView {
    Balance { fetched_at_ms: u64, amount: Seq<char>, currency: Option<Seq<char>> },
    Usage {
        fetched_at_ms: u64,
        pct_5h: Option<u8>,
        pct_7d: Option<u8>,
        resets: Option<Seq<char>>,
        resets_7d: Option<Seq<char>>,
    },
}

impl View for BillingSnapshot {
    type V = SnapshotView;

    open spec fn view(&self) -> SnapshotView {
        match self {
            BillingSnapshot::Balance { fetched_at_ms, amount, currency } => SnapshotView::Balance {
                fetched_at_ms: *fetched_at_ms,
                amount: amount@,
                currency: text_view(*currency),
            },
            BillingSnapshot::Usage { fetched_at_ms, pct_5h, pct_7d, resets, resets_7d } =>
                SnapshotView::Usage {
                    fetched_at_ms: *fetched_at_ms,
                    pct_5h: *pct_5h,
                    pct_7d: *pct_7d,
                    resets: text_view(*resets),
                    resets_7d: text_view(*resets_7d),
                },
        }
    }
}

/// A share in JSON, or `Null` where there is none.
pub open spec fn share_tree(n: Option<u8>) -> JsonTree {
    match n {
        Some(n) => JsonTree::Number(Num::Unsigned(n as u64)),
        None => JsonTree::Null,
    }
}

fn share_json(n: Option<u8>) -> (r: Json)
    ensures
        r@ == share_tree(n),
{
    match n {
        Some(n) => Json::number(n as u64),
        None => Json::Null,
    }
}

impl BillingSnapshot {
    /// A second one that is the same as this one.
    pub fn copy(&self) -> (r: BillingSnapshot)
        ensures
            r@ == self@,
    {
        match self {
            BillingSnapshot::Balance { fetched_at_ms, amount, currency } =>
                BillingSnapshot::Balance {
                    fetched_at_ms: *fetched_at_ms,
                    amount: amount.clone(),
                    currency: copy_text(currency),
                },
            BillingSnapshot::Usage { fetched_at_ms, pct_5h, pct_7d, resets, resets_7d } =>
                BillingSnapshot::Usage {
                    fetched_at_ms: *fetched_at_ms,
                    pct_5h: *pct_5h,
                    pct_7d: *pct_7d,
                    resets: copy_text(resets),
                    resets_7d: copy_text(resets_7d),
                },
        }
    }

    /// How it stands in JSON: what kind it is stands beside its parts.
    pub open spec fn tree(self) -> JsonTree {
        match self {
            BillingSnapshot::Balance { fetched_at_ms, amount, currency } => JsonTree::object().with(
                "kind"@,
                JsonTree::Text("balance"@),
            ).with("fetched_at_ms"@, JsonTree::Number(Num::Unsigned(fetched_at_ms))).with(
                "amount"@,
                JsonTree::Text(amount@),
            ).with("currency"@, text_or_null(currency)),
            BillingSnapshot::Usage { fetched_at_ms, pct_5h, pct_7d, resets, resets_7d } =>
                JsonTree::object().with("kind"@, JsonTree::Text("usage"@)).with(
                    "fetched_at_ms"@,
                    JsonTree::Number(Num::Unsigned(fetched_at_ms)),
                ).with("pct_5h"@, share_tree(pct_5h)).with("pct_7d"@, share_tree(pct_7d)).with(
                    "resets"@,
                    text_or_null(resets),
                ).with("resets_7d"@, text_or_null(resets_7d)),
        }
    }

    /// How it stands in JSON.
    pub fn to_json(&self) -> (r: Json)
        ensures
            r@ == self.tree(),
    {
        match self {
            BillingSnapshot::Balance { fetched_at_ms, amount, currency } => Json::object().with(
                "kind",
                Json::text("balance"),
            ).with("fetched_at_ms", Json::number(*fetched_at_ms)).with(
                "amount",
                Json::text(amount.as_str()),
            ).with("currency", nullable_text(currency)),
            BillingSnapshot::Usage { fetched_at_ms, pct_5h, pct_7d, resets, resets_7d } =>
                Json::object().with("kind", Json::text("usage")).with(
                    "fetched_at_ms",
                    Json::number(*fetched_at_ms),
                ).with("pct_5h", share_json(*pct_5h)).with("pct_7d", share_json(*pct_7d)).with(
                    "resets",
                    nullable_text(resets),
                ).with("resets_7d", nullable_text(resets_7d)),
        }
    }
}

/// Where the parts of a billing answer are found, as JSONPaths; a part without a path is not shown.
#[derive(Debug, PartialEq)]
pub struct BillingPaths {
    /// The balance.
    pub balance: Option<String>,
    /// Its currency.
    pub currency: Option<String>,
    /// The share of the five-hour allowance that is used.
    pub usage_5h: Option<String>,
    /// The share of the seven-day allowance that is used.
    pub usage_7d: Option<String>,
    /// When the five-hour allowance is renewed.
    pub resets: Option<String>,
    /// When the seven-day allowance is renewed.
    pub resets_7d: Option<String>,
}

/// The model of [`BillingPaths`].
pub struct BillingPathsView {
    pub balance: Option<Seq<char>>,
    pub currency: Option<Seq<char>>,
    pub usage_5h: Option<Seq<char>>,
    pub usage_7d: Option<Seq<char>>,
    pub resets: Option<Seq<char>>,
    pub resets_7d: Option<Seq<char>>,
}

impl View for BillingPaths {
    type V = BillingPathsView;

    open spec fn view(&self) -> BillingPathsView {
        BillingPathsView {
            balance: text_view(self.balance),
            currency: text_view(self.currency),
            usage_5h: text_view(self.usage_5h),
            usage_7d: text_view(self.usage_7d),
            resets: text_view(self.resets),
            resets_7d: text_view(self.resets_7d),
        }
    }
}

impl BillingPaths {
    /// A second one that is the same as this one.
    pub fn copy(&self) -> (r: BillingPaths)
        ensures
            r@ == self@,
            r == *self,
    {
        BillingPaths {
            balance: copy_text(&self.balance),
            currency: copy_text(&self.currency),
            usage_5h: copy_text(&self.usage_5h),
            usage_7d: copy_text(&self.usage_7d),
            resets: copy_text(&self.resets),
            resets_7d: copy_text(&self.resets_7d),
        }
    }

    /// How it stands in JSON.
    pub open spec fn tree(self) -> JsonTree {
        JsonTree::object()
            .with("balance"@, text_or_null(self.balance))
            .with("currency"@, text_or_null(self.currency))
            .with("usage_5h"@, text_or_null(self.usage_5h))
            .with("usage_7d"@, text_or_null(self.usage_7d))
            .with("resets"@, text_or_null(self.resets))
            .with("resets_7d"@, text_or_null(self.resets_7d))
    }

    /// How it stands in JSON.
    pub fn to_json(&self) -> (r: Json)
        ensures
            r@ == self.tree(),
    {
        Json::object()
            .with("balance", nullable_text(&self.balance))
            .with("currency", nullable_text(&self.currency))
            .with("usage_5h", nullable_text(&self.usage_5h))
            .with("usage_7d", nullable_text(&self.usage_7d))
            .with("resets", nullable_text(&self.resets))
            .with("resets_7d", nullable_text(&self.resets_7d))
    }
}

/// Where a provider says what is left.
#[derive(Debug, PartialEq)]
pub struct BillingConfig {
    /// Whether it is a balance or a usage.
    pub kind: BillingKind,
    /// Where to ask.
    pub url: String,
    /// Where the parts of the answer are found.
    pub paths: BillingPaths,
    /// How the key is sent: `raw`, or by the dialect.
    pub auth_style: Option<String>,
}

/// The model of [`BillingConfig`].
pub struct BillingView {
    pub kind: BillingKind,
    pub url: Seq<char>,
    pub paths: BillingPathsView,
    pub auth_style: Option<Seq<char>>,
}

impl View for BillingConfig {
    type V = BillingView;

    open spec fn view(&self) -> BillingView {
        BillingView {
            kind: self.kind,
            url: self.url@,
            paths: self.paths@,
            auth_style: text_view(self.auth_style),
        }
    }
}

impl BillingConfig {
    /// A second one that is the same as this one.
    pub fn copy(&self) -> (r: BillingConfig)
        ensures
            r@ == self@,
            r == *self,
    {
        BillingConfig {
            kind: self.kind,
            url: self.url.clone(),
            paths: self.paths.copy(),
            auth_style: copy_text(&self.auth_style),
        }
    }

    /// How it stands in JSON.
    pub open spec fn tree(self) -> JsonTree {
        JsonTree::object()
            .with("kind"@, self.kind.tree())
            .with("url"@, JsonTree::Text(self.url@))
            .with("paths"@, self.paths.tree())
            .with("auth_style"@, text_or_null(self.auth_style))
    }

    /// How it stands in JSON.
    pub fn to_json(&self) -> (r: Json)
        ensures
            r@ == self.tree(),
    {
        Json::object()
            .with("kind", self.kind.to_json())
            .with("url", Json::text(self.url.as_str()))
            .with("paths", self.paths.to_json())
            .with("auth_style", nullable_text(&self.auth_style))
    }
}

/// A provider of models.
#[derive(Debug, PartialEq)]
pub struct ProviderEntry {
    /// Its id: lower-case letters, digits and hyphens.
    pub id: String,
    /// Where its requests go.
    pub base_url: String,
    /// The dialect that it speaks.
    pub dialect: String,
    /// Where its key is found.
    pub credential_ref: Option<String>,
    /// Its key.
    pub api_key: Option<String>,
    /// The model to use.
    pub default_model: Option<String>,
    /// The name to show.
    pub display_name: Option<String>,
    /// The models to choose from; none means those that it names itself.
    pub models: Vec<String>,
    /// Where it says what is left.
    pub billing: Option<BillingConfig>,
    /// What it said last.
    pub billing_cache: Option<BillingSnapshot>,
    /// How much context a model takes.
    pub model_context_windows: StrMap<u64>,
}

/// The model of [`ProviderEntry`].
pub struct ProviderView {
    pub id: Seq<char>,
    pub base_url: Seq<char>,
    pub dialect: Seq<char>,
    pub credential_ref: Option<Seq<char>>,
    pub api_key: Option<Seq<char>>,
    pub default_model: Option<Seq<char>>,
    pub display_name: Option<Seq<char>>,
    pub models: Seq<Seq<char>>,
    pub billing: Option<BillingView>,
    pub billing_cache: Option<SnapshotView>,
    pub model_context_windows: Map<Seq<char>, u64>,
}

impl View for ProviderEntry {
    type V = ProviderView;

    open spec fn view(&self) -> ProviderView {
        ProviderView {
            id: self.id@,
            base_url: self.base_url@,
            dialect: self.dialect@,
            credential_ref: text_view(self.credential_ref),
            api_key: text_view(self.api_key),
            default_model: text_view(self.default_model),
            display_name: text_view(self.display_name),
            models: text_seq(self.models@),
            billing: (match self.billing { Some(v) => Some(v@), None => None }),
            billing_cache: (match self.billing_cache { Some(v) => Some(v@), None => None }),
            model_context_windows: self.model_context_windows@,
        }
    }
}

impl ProviderEntry {
    /// No key of its maps comes twice.
    pub open spec fn wf(self) -> bool {
        &&& self.model_context_windows.wf()
    }

    /// A second one that is the same as this one.
    pub fn copy(&self) -> (r: ProviderEntry)
        requires
            self.wf(),
        ensures
            r@ == self@,
            r.wf(),
    {
        ProviderEntry {
            id: self.id.clone(),
            base_url: self.base_url.clone(),
            dialect: self.dialect.clone(),
            credential_ref: copy_text(&self.credential_ref),
            api_key: copy_text(&self.api_key),
            default_model: copy_text(&self.default_model),
            display_name: copy_text(&self.display_name),
            models: copy_strings(&self.models),
            billing: (match &self.billing { Some(v) => Some(v.copy()), None => None }),
            billing_cache: (match &self.billing_cache { Some(v) => Some(v.copy()), None => None }),
            model_context_windows: copy_numbers(&self.model_context_windows),
        }
    }

    /// How it stands in JSON.
    pub open spec fn tree(self) -> JsonTree {
        JsonTree::object()
            .with("id"@, JsonTree::Text(self.id@))
            .with("base_url"@, JsonTree::Text(self.base_url@))
            .with("dialect"@, JsonTree::Text(self.dialect@))
            .with("credential_ref"@, text_or_null(self.credential_ref))
            .with("api_key"@, text_or_null(self.api_key))
            .with("default_model"@, text_or_null(self.default_model))
            .with("display_name"@, text_or_null(self.display_name))
            .with("models"@, JsonTree::Array(text_trees(self.models@)))
            .with("billing"@, (match self.billing { Some(v) => v.tree(), None => JsonTree::Null }))
            .with(
                "billing_cache"@,
                match self.billing_cache {
                    Some(v) => v.tree(),
                    None => JsonTree::Null,
                },
            )
            .with_some(
                "model_context_windows"@,
                if self.model_context_windows.entries@.len() == 0 {
                    None
                } else {
                    Some(number_map_tree(self.model_context_windows.entries@))
                },
            )
    }

    /// How it stands in JSON.
    pub fn to_json(&self) -> (r: Json)
        ensures
            r@ == self.tree(),
    {
        Json::object()
            .with("id", Json::text(self.id.as_str()))
            .with("base_url", Json::text(self.base_url.as_str()))
            .with("dialect", Json::text(self.dialect.as_str()))
            .with("credential_ref", nullable_text(&self.credential_ref))
            .with("api_key", nullable_text(&self.api_key))
            .with("default_model", nullable_text(&self.default_model))
            .with("display_name", nullable_text(&self.display_name))
            .with("models", texts_json(&self.models))
            .with("billing", (match &self.billing { Some(v) => v.to_json(), None => Json::Null }))
            .with(
                "billing_cache",
                match &self.billing_cache {
                    Some(v) => v.to_json(),
                    None => Json::Null,
                },
            )
            .with_some(
                "model_context_windows",
                if self.model_context_windows.entries.len() == 0 {
                    None
                } else {
                    Some(number_map_json(&self.model_context_windows))
                },
            )
    }
}

/// A provider that is known from the start.
#[derive(Debug, PartialEq)]
pub struct CatalogEntry {
    /// Its id.
    pub id: String,
    /// Its name.
    pub display_name: String,
    /// The dialect that it speaks.
    pub dialect: String,
    /// Where its requests go.
    pub base_url: String,
    /// Its models.
    pub models: Vec<String>,
    /// Where it says what is left.
    pub billing: Option<BillingConfig>,
}

/// The model of [`CatalogEntry`].
pub struct CatalogView {
    pub id: Seq<char>,
    pub display_name: Seq<char>,
    pub dialect: Seq<char>,
    pub base_url: Seq<char>,
    pub models: Seq<Seq<char>>,
    pub billing: Option<BillingView>,
}

impl View for CatalogEntry {
    type V = CatalogView;

    open spec fn view(&self) -> CatalogView {
        CatalogView {
            id: self.id@,
            display_name: self.display_name@,
            dialect: self.dialect@,
            base_url: self.base_url@,
            models: text_seq(self.models@),
            billing: (match self.billing { Some(v) => Some(v@), None => None }),
        }
    }
}

impl CatalogEntry {
    /// A second one that is the same as this one.
    pub fn copy(&self) -> (r: CatalogEntry)
        ensures
            r@ == self@,
    {
        CatalogEntry {
            id: self.id.clone(),
            display_name: self.display_name.clone(),
            dialect: self.dialect.clone(),
            base_url: self.base_url.clone(),
            models: copy_strings(&self.models),
            billing: (match &self.billing { Some(v) => Some(v.copy()), None => None }),
        }
    }

    /// How it stands in JSON.
    pub open spec fn tree(self) -> JsonTree {
        JsonTree::object()
            .with("id"@, JsonTree::Text(self.id@))
            .with("display_name"@, JsonTree::Text(self.display_name@))
            .with("dialect"@, JsonTree::Text(self.dialect@))
            .with("base_url"@, JsonTree::Text(self.base_url@))
            .with("models"@, JsonTree::Array(text_trees(self.models@)))
            .with("billing"@, (match self.billing { Some(v) => v.tree(), None => JsonTree::Null }))
    }

    /// How it stands in JSON.
    pub fn to_json(&self) -> (r: Json)
        ensures
            r@ == self.tree(),
    {
        Json::object()
            .with("id", Json::text(self.id.as_str()))
            .with("display_name", Json::text(self.display_name.as_str()))
            .with("dialect", Json::text(self.dialect.as_str()))
            .with("base_url", Json::text(self.base_url.as_str()))
            .with("models", texts_json(&self.models))
            .with("billing", (match &self.billing { Some(v) => v.to_json(), None => Json::Null }))
    }
}

/// What holds for the sessions of a workspace unless they say otherwise.
#[derive(Debug, PartialEq)]
pub struct WorkspaceDefaults {
    /// The provider.
    pub provider: Option<String>,
    /// The model.
    pub model: Option<String>,
    /// The permission preset of new sessions.
    pub default_permission_preset: Option<String>,
    /// The agent preset.
    pub preset: Option<String>,
    /// The level of effort.
    pub effort: Option<String>,
}

/// The model of [`WorkspaceDefaults`].
pub struct WorkspaceDefaultsView {
    pub provider: Option<Seq<char>>,
    pub model: Option<Seq<char>>,
    pub default_permission_preset: Option<Seq<char>>,
    pub preset: Option<Seq<char>>,
    pub effort: Option<Seq<char>>,
}

impl View for WorkspaceDefaults {
    type V = WorkspaceDefaultsView;

    open spec fn view(&self) -> WorkspaceDefaultsView {
        WorkspaceDefaultsView {
            provider: text_view(self.provider),
            model: text_view(self.model),
            default_permission_preset: text_view(self.default_permission_preset),
            preset: text_view(self.preset),
            effort: text_view(self.effort),
        }
    }
}

impl WorkspaceDefaults {
    /// A second one that is the same as this one.
    pub fn copy(&self) -> (r: WorkspaceDefaults)
        ensures
            r@ == self@,
            r == *self,
    {
        WorkspaceDefaults {
            provider: copy_text(&self.provider),
            model: copy_text(&self.model),
            default_permission_preset: copy_text(&self.default_permission_preset),
            preset: copy_text(&self.preset),
            effort: copy_text(&self.effort),
        }
    }

    /// How it stands in JSON.
    pub open spec fn tree(self) -> JsonTree {
        JsonTree::object()
            .with("provider"@, text_or_null(self.provider))
            .with("model"@, text_or_null(self.model))
            .with("default_permission_preset"@, text_or_null(self.default_permission_preset))
            .with("preset"@, text_or_null(self.preset))
            .with("effort"@, text_or_null(self.effort))
    }

    /// How it stands in JSON.
    pub fn to_json(&self) -> (r: Json)
        ensures
            r@ == self.tree(),
    {
        Json::object()
            .with("provider", nullable_text(&self.provider))
            .with("model", nullable_text(&self.model))
            .with("default_permission_preset", nullable_text(&self.default_permission_preset))
            .with("preset", nullable_text(&self.preset))
            .with("effort", nullable_text(&self.effort))
    }
}

/// A set of hooks.
#[derive(Debug, PartialEq)]
pub struct HookBridgeEntry {
    /// Its id.
    pub id: String,
    /// The dialect of its file.
    pub dialect: String,
    /// Its file.
    pub config_path: String,
    /// Whether sessions use it.
    pub enabled: bool,
    /// The root of its plugin.
    pub plugin_root: Option<String>,
    /// The directory that its commands see.
    pub project_dir: Option<String>,
    /// How long a hook may run.
    pub default_timeout_ms: Option<u64>,
    /// How much of its errors is kept.
    pub stderr_summary_max_chars: Option<usize>,
}

/// The model of [`HookBridgeEntry`].
pub struct HookBridgeView {
    pub id: Seq<char>,
    pub dialect: Seq<char>,
    pub config_path: Seq<char>,
    pub enabled: bool,
    pub plugin_root: Option<Seq<char>>,
    pub project_dir: Option<Seq<char>>,
    pub default_timeout_ms: Option<u64>,
    pub stderr_summary_max_chars: Option<usize>,
}

impl View for HookBridgeEntry {
    type V = HookBridgeView;

    open spec fn view(&self) -> HookBridgeView {
        HookBridgeView {
            id: self.id@,
            dialect: self.dialect@,
            config_path: self.config_path@,
            enabled: self.enabled,
            plugin_root: text_view(self.plugin_root),
            project_dir: text_view(self.project_dir),
            default_timeout_ms: self.default_timeout_ms,
            stderr_summary_max_chars: self.stderr_summary_max_chars,
        }
    }
}

impl HookBridgeEntry {
    /// A second one that is the same as this one.
    pub fn copy(&self) -> (r: HookBridgeEntry)
        ensures
            r@ == self@,
            r == *self,
    {
        HookBridgeEntry {
            id: self.id.clone(),
            dialect: self.dialect.clone(),
            config_path: self.config_path.clone(),
            enabled: self.enabled,
            plugin_root: copy_text(&self.plugin_root),
            project_dir: copy_text(&self.project_dir),
            default_timeout_ms: self.default_timeout_ms,
            stderr_summary_max_chars: self.stderr_summary_max_chars,
        }
    }

    /// How it stands in JSON.
    pub open spec fn tree(self) -> JsonTree {
        JsonTree::object()
            .with("id"@, JsonTree::Text(self.id@))
            .with("dialect"@, JsonTree::Text(self.dialect@))
            .with("configPath"@, JsonTree::Text(self.config_path@))
            .with("enabled"@, JsonTree::Bool(self.enabled))
            .with_some("pluginRoot"@, text_option(self.plugin_root))
            .with_some("projectDir"@, text_option(self.project_dir))
            .with_some(
                "defaultTimeoutMs"@,
                match self.default_timeout_ms {
                    Some(n) => Some(JsonTree::Number(Num::Unsigned(n))),
                    None => None,
                },
            )
            .with_some(
                "stderrSummaryMaxChars"@,
                match self.stderr_summary_max_chars {
                    Some(n) => Some(JsonTree::Number(Num::Unsigned(n as u64))),
                    None => None,
                },
            )
    }

    /// How it stands in JSON.
    pub fn to_json(&self) -> (r: Json)
        ensures
            r@ == self.tree(),
    {
        Json::object()
            .with("id", Json::text(self.id.as_str()))
            .with("dialect", Json::text(self.dialect.as_str()))
            .with("configPath", Json::text(self.config_path.as_str()))
            .with("enabled", Json::Bool(self.enabled))
            .with_some("pluginRoot", text_json(&self.plugin_root))
            .with_some("projectDir", text_json(&self.project_dir))
            .with_some(
                "defaultTimeoutMs",
                match self.default_timeout_ms {
                    Some(n) => Some(Json::number(n)),
                    None => None,
                },
            )
            .with_some(
                "stderrSummaryMaxChars",
                match self.stderr_summary_max_chars {
                    Some(n) => Some(Json::number(n as u64)),
                    None => None,
                },
            )
    }
}

/// A server of tools: started by a command, or reached under a URL.
#[derive(Debug, PartialEq)]
pub struct McpServerEntry {
    /// Its id, which is part of the names of its tools.
    pub id: String,
    /// Whether sessions use it.
    pub enabled: bool,
    /// The command that starts it.
    pub command: String,
    /// What the command is given.
    pub args: Vec<String>,
    /// What is added to its environment.
    pub env: StrMap<String>,
    /// The directory it runs in.
    pub cwd: Option<String>,
    /// How long a call may take.
    pub tool_call_timeout_ms: Option<u64>,
    /// Where it is reached.
    pub url: Option<String>,
    /// The headers of requests to it.
    pub headers: StrMap<String>,
}

/// The model of [`McpServerEntry`].
pub struct McpServerView {
    pub id: Seq<char>,
    pub enabled: bool,
    pub command: Seq<char>,
    pub args: Seq<Seq<char>>,
    pub env: Map<Seq<char>, Seq<char>>,
    pub cwd: Option<Seq<char>>,
    pub tool_call_timeout_ms: Option<u64>,
    pub url: Option<Seq<char>>,
    pub headers: Map<Seq<char>, Seq<char>>,
}

impl View for McpServerEntry {
    type V = McpServerView;

    open spec fn view(&self) -> McpServerView {
        McpServerView {
            id: self.id@,
            enabled: self.enabled,
            command: self.command@,
            args: text_seq(self.args@),
            env: text_map(self.env@),
            cwd: text_view(self.cwd),
            tool_call_timeout_ms: self.tool_call_timeout_ms,
            url: text_view(self.url),
            headers: text_map(self.headers@),
        }
    }
}

impl McpServerEntry {
    /// No key of its maps comes twice.
    pub open spec fn wf(self) -> bool {
        &&& self.env.wf()
        &&& self.headers.wf()
    }

    /// A second one that is the same as this one.
    pub fn copy(&self) -> (r: McpServerEntry)
        requires
            self.wf(),
        ensures
            r@ == self@,
            r.wf(),
    {
        McpServerEntry {
            id: self.id.clone(),
            enabled: self.enabled,
            command: self.command.clone(),
            args: copy_strings(&self.args),
            env: copy_text_map(&self.env),
            cwd: copy_text(&self.cwd),
            tool_call_timeout_ms: self.tool_call_timeout_ms,
            url: copy_text(&self.url),
            headers: copy_text_map(&self.headers),
        }
    }

    /// How it stands in JSON.
    pub open spec fn tree(self) -> JsonTree {
        JsonTree::object()
            .with("id"@, JsonTree::Text(self.id@))
            .with("enabled"@, JsonTree::Bool(self.enabled))
            .with("command"@, JsonTree::Text(self.command@))
            .with("args"@, JsonTree::Array(text_trees(self.args@)))
            .with("env"@, text_map_tree(self.env.entries@))
            .with_some("cwd"@, text_option(self.cwd))
            .with_some(
                "toolCallTimeoutMs"@,
                match self.tool_call_timeout_ms {
                    Some(n) => Some(JsonTree::Number(Num::Unsigned(n))),
                    None => None,
                },
            )
            .with_some("url"@, text_option(self.url))
            .with_some(
                "headers"@,
                if self.headers.entries@.len() == 0 {
                    None
                } else {
                    Some(text_map_tree(self.headers.entries@))
                },
            )
    }

    /// How it stands in JSON.
    pub fn to_json(&self) -> (r: Json)
        ensures
            r@ == self.tree(),
    {
        Json::object()
            .with("id", Json::text(self.id.as_str()))
            .with("enabled", Json::Bool(self.enabled))
            .with("command", Json::text(self.command.as_str()))
            .with("args", texts_json(&self.args))
            .with("env", text_map_json(&self.env))
            .with_some("cwd", text_json(&self.cwd))
            .with_some(
                "toolCallTimeoutMs",
                match self.tool_call_timeout_ms {
                    Some(n) => Some(Json::number(n)),
                    None => None,
                },
            )
            .with_some("url", text_json(&self.url))
            .with_some(
                "headers",
                if self.headers.entries.len() == 0 {
                    None
                } else {
                    Some(text_map_json(&self.headers))
                },
            )
    }
}

/// All settings.
#[derive(Debug, PartialEq)]
pub struct SettingsFile {
    /// The form of the settings.
    pub version: u32,
    /// Whether the user was shown around.
    pub onboarded: bool,
    /// The providers.
    pub providers: Vec<ProviderEntry>,
    /// What holds for workspaces, by the name of their directory.
    pub workspaces: StrMap<WorkspaceDefaults>,
    /// The workspaces, in the order in which they are shown.
    pub workspace_paths: Vec<String>,
    /// The names that are shown for workspaces.
    pub workspace_titles: StrMap<String>,
    /// What a submission does while a turn runs.
    pub busy_enter: String,
    /// The language of the interface.
    pub language: String,
    /// The appearance of the interface.
    pub appearance: String,
    /// The servers of tools.
    pub mcp_servers: Vec<McpServerEntry>,
    /// The sets of hooks.
    pub hook_bridges: Vec<HookBridgeEntry>,
}

/// The model of [`SettingsFile`].
pub struct SettingsView {
    pub version: u32,
    pub onboarded: bool,
    pub providers: Seq<ProviderView>,
    pub workspaces: Map<Seq<char>, WorkspaceDefaultsView>,
    pub workspace_paths: Seq<Seq<char>>,
    pub workspace_titles: Map<Seq<char>, Seq<char>>,
    pub busy_enter: Seq<char>,
    pub language: Seq<char>,
    pub appearance: Seq<char>,
    pub mcp_servers: Seq<McpServerView>,
    pub hook_bridges: Seq<HookBridgeView>,
}

impl View for SettingsFile {
    type V = SettingsView;

    open spec fn view(&self) -> SettingsView {
        SettingsView {
            version: self.version,
            onboarded: self.onboarded,
            providers: provider_entry_views(self.providers@),
            workspaces: self.workspaces@.map_values(|d: WorkspaceDefaults| d@),
            workspace_paths: text_seq(self.workspace_paths@),
            workspace_titles: text_map(self.workspace_titles@),
            busy_enter: self.busy_enter@,
            language: self.language@,
            appearance: self.appearance@,
            mcp_servers: mcp_server_entry_views(self.mcp_servers@),
            hook_bridges: hook_bridge_entry_views(self.hook_bridges@),
        }
    }
}

impl SettingsFile {
    /// No key of its maps comes twice.
    pub open spec fn wf(self) -> bool {
        &&& forall|i: int| 0 <= i < self.providers@.len() ==> (#[trigger] self.providers@[i]).wf()
        &&& self.workspaces.wf()
        &&& self.workspace_titles.wf()
        &&& forall|i: int| 0 <= i < self.mcp_servers@.len() ==> (#[trigger] self.mcp_servers@[i]).wf()
    }

    /// A second one that is the same as this one.
    pub fn copy(&self) -> (r: SettingsFile)
        requires
            self.wf(),
        ensures
            r@ == self@,
            r.wf(),
    {
        SettingsFile {
            version: self.version,
            onboarded: self.onboarded,
            providers: copy_providers(&self.providers),
            workspaces: copy_workspace_defaults_map(&self.workspaces),
            workspace_paths: copy_strings(&self.workspace_paths),
            workspace_titles: copy_text_map(&self.workspace_titles),
            busy_enter: self.busy_enter.clone(),
            language: self.language.clone(),
            appearance: self.appearance.clone(),
            mcp_servers: copy_servers(&self.mcp_servers),
            hook_bridges: copy_hooks(&self.hook_bridges),
        }
    }
}

pub open spec fn provider_entry_views(v: Seq<ProviderEntry>) -> Seq<ProviderView> {
    v.map_values(|e: ProviderEntry| e@)
}

/// A second run of them that is the same as this one.
pub fn copy_providers(v: &Vec<ProviderEntry>) -> (r: Vec<ProviderEntry>)
    requires
        forall|i: int| 0 <= i < v@.len() ==> (#[trigger] v@[i]).wf(),
    ensures
        provider_entry_views(r@) == provider_entry_views(v@),
        forall|i: int| 0 <= i < r@.len() ==> (#[trigger] r@[i]).wf(),
{
    let mut out: Vec<ProviderEntry> = Vec::new();
    let mut i: usize = 0;
    while i < v.len()
        invariant
            i <= v.len(),
            forall|k: int| 0 <= k < v@.len() ==> (#[trigger] v@[k]).wf(),
            forall|k: int| 0 <= k < out@.len() ==> (#[trigger] out@[k]).wf(),
            provider_entry_views(out@) == provider_entry_views(v@).take(i as int),
        decreases v.len() - i,
    {
        let item = v[i].copy();
        proof {
            assert(provider_entry_views(out@.push(item))
                =~= provider_entry_views(out@).push(item@));
            assert(provider_entry_views(v@).take(i + 1)
                =~= provider_entry_views(v@).take(i as int).push(item@));
        }
        out.push(item);
        i = i + 1;
    }
    assert(provider_entry_views(v@).take(v@.len() as int) =~= provider_entry_views(v@));
    out
}

/// How a run of them stands in JSON.
pub open spec fn provider_entry_trees(v: Seq<ProviderEntry>) -> JsonTree {
    JsonTree::Array(v.map_values(|e: ProviderEntry| e.tree()))
}

/// How a run of them stands in JSON.
pub fn providers_json(v: &Vec<ProviderEntry>) -> (r: Json)
    ensures
        r@ == provider_entry_trees(v@),
{
    let mut out: Vec<Json> = Vec::new();
    let mut i: usize = 0;
    let ghost wanted = v@.map_values(|e: ProviderEntry| e.tree());
    while i < v.len()
        invariant
            i <= v.len(),
            wanted == v@.map_values(|e: ProviderEntry| e.tree()),
            trees(out@) == wanted.take(i as int),
        decreases v.len() - i,
    {
        let item = v[i].to_json();
        proof {
            assert(trees(out@.push(item)) =~= trees(out@).push(item@));
            assert(wanted.take(i + 1) =~= wanted.take(i as int).push(wanted[i as int]));
        }
        out.push(item);
        i = i + 1;
    }
    assert(wanted.take(wanted.len() as int) =~= wanted);
    Json::array(out)
}

pub open spec fn mcp_server_entry_views(v: Seq<McpServerEntry>) -> Seq<McpServerView> {
    v.map_values(|e: McpServerEntry| e@)
}

/// A second run of them that is the same as this one.
pub fn copy_servers(v: &Vec<McpServerEntry>) -> (r: Vec<McpServerEntry>)
    requires
        forall|i: int| 0 <= i < v@.len() ==> (#[trigger] v@[i]).wf(),
    ensures
        mcp_server_entry_views(r@) == mcp_server_entry_views(v@),
        forall|i: int| 0 <= i < r@.len() ==> (#[trigger] r@[i]).wf(),
{
    let mut out: Vec<McpServerEntry> = Vec::new();
    let mut i: usize = 0;
    while i < v.len()
        invariant
            i <= v.len(),
            forall|k: int| 0 <= k < v@.len() ==> (#[trigger] v@[k]).wf(),
            forall|k: int| 0 <= k < out@.len() ==> (#[trigger] out@[k]).wf(),
            mcp_server_entry_views(out@) == mcp_server_entry_views(v@).take(i as int),
        decreases v.len() - i,
    {
        let item = v[i].copy();
        proof {
            assert(mcp_server_entry_views(out@.push(item))
                =~= mcp_server_entry_views(out@).push(item@));
            assert(mcp_server_entry_views(v@).take(i + 1)
                =~= mcp_server_entry_views(v@).take(i as int).push(item@));
        }
        out.push(item);
        i = i + 1;
    }
    assert(mcp_server_entry_views(v@).take(v@.len() as int) =~= mcp_server_entry_views(v@));
    out
}

/// How a run of them stands in JSON.
pub open spec fn mcp_server_entry_trees(v: Seq<McpServerEntry>) -> JsonTree {
    JsonTree::Array(v.map_values(|e: McpServerEntry| e.tree()))
}

/// How a run of them stands in JSON.
pub fn servers_json(v: &Vec<McpServerEntry>) -> (r: Json)
    ensures
        r@ == mcp_server_entry_trees(v@),
{
    let mut out: Vec<Json> = Vec::new();
    let mut i: usize = 0;
    let ghost wanted = v@.map_values(|e: McpServerEntry| e.tree());
    while i < v.len()
        invariant
            i <= v.len(),
            wanted == v@.map_values(|e: McpServerEntry| e.tree()),
            trees(out@) == wanted.take(i as int),
        decreases v.len() - i,
    {
        let item = v[i].to_json();
        proof {
            assert(trees(out@.push(item)) =~= trees(out@).push(item@));
            assert(wanted.take(i + 1) =~= wanted.take(i as int).push(wanted[i as int]));
        }
        out.push(item);
        i = i + 1;
    }
    assert(wanted.take(wanted.len() as int) =~= wanted);
    Json::array(out)
}

pub open spec fn hook_bridge_entry_views(v: Seq<HookBridgeEntry>) -> Seq<HookBridgeView> {
    v.map_values(|e: HookBridgeEntry| e@)
}

/// A second run of them that is the same as this one.
pub fn copy_hooks(v: &Vec<HookBridgeEntry>) -> (r: Vec<HookBridgeEntry>)
    ensures
        hook_bridge_entry_views(r@) == hook_bridge_entry_views(v@),
{
    let mut out: Vec<HookBridgeEntry> = Vec::new();
    let mut i: usize = 0;
    while i < v.len()
        invariant
            i <= v.len(),
            hook_bridge_entry_views(out@) == hook_bridge_entry_views(v@).take(i as int),
        decreases v.len() - i,
    {
        let item = v[i].copy();
        proof {
            assert(hook_bridge_entry_views(out@.push(item))
                =~= hook_bridge_entry_views(out@).push(item@));
            assert(hook_bridge_entry_views(v@).take(i + 1)
                =~= hook_bridge_entry_views(v@).take(i as int).push(item@));
        }
        out.push(item);
        i = i + 1;
    }
    assert(hook_bridge_entry_views(v@).take(v@.len() as int) =~= hook_bridge_entry_views(v@));
    out
}

/// How a run of them stands in JSON.
pub open spec fn hook_bridge_entry_trees(v: Seq<HookBridgeEntry>) -> JsonTree {
    JsonTree::Array(v.map_values(|e: HookBridgeEntry| e.tree()))
}

/// How a run of them stands in JSON.
pub fn hooks_json(v: &Vec<HookBridgeEntry>) -> (r: Json)
    ensures
        r@ == hook_bridge_entry_trees(v@),
{
    let mut out: Vec<Json> = Vec::new();
    let mut i: usize = 0;
    let ghost wanted = v@.map_values(|e: HookBridgeEntry| e.tree());
    while i < v.len()
        invariant
            i <= v.len(),
            wanted == v@.map_values(|e: HookBridgeEntry| e.tree()),
            trees(out@) == wanted.take(i as int),
        decreases v.len() - i,
    {
        let item = v[i].to_json();
        proof {
            assert(trees(out@.push(item)) =~= trees(out@).push(item@));
            assert(wanted.take(i + 1) =~= wanted.take(i as int).push(wanted[i as int]));
        }
        out.push(item);
        i = i + 1;
    }
    assert(wanted.take(wanted.len() as int) =~= wanted);
    Json::array(out)
}
impl Default for BillingPaths {
    fn default() -> (r: BillingPaths)
        ensures
            r@ == no_paths(),
    {
        BillingPaths {
            balance: None,
            currency: None,
            usage_5h: None,
            usage_7d: None,
            resets: None,
            resets_7d: None,
        }
    }
}

/// No path at all.
pub open spec fn no_paths() -> BillingPathsView {
    BillingPathsView {
        balance: None,
        currency: None,
        usage_5h: None,
        usage_7d: None,
        resets: None,
        resets_7d: None,
    }
}

/// Nothing set for a workspace.
pub open spec fn no_defaults() -> WorkspaceDefaultsView {
    WorkspaceDefaultsView {
        provider: None,
        model: None,
        default_permission_preset: None,
        preset: None,
        effort: None,
    }
}

impl Default for WorkspaceDefaults {
    fn default() -> (r: WorkspaceDefaults)
        ensures
            r@ == no_defaults(),
    {
        WorkspaceDefaults {
            provider: None,
            model: None,
            default_permission_preset: None,
            preset: None,
            effort: None,
        }
    }
}

impl HookBridgeEntry {
    /// A set of hooks in a dialect, of which nothing else is said.
    pub fn in_dialect(dialect: &str) -> (r: HookBridgeEntry)
        ensures
            r@ == (HookBridgeView {
                id: Seq::empty(),
                dialect: dialect@,
                config_path: Seq::empty(),
                enabled: true,
                plugin_root: None,
                project_dir: None,
                default_timeout_ms: None,
                stderr_summary_max_chars: None,
            }),
    {
        HookBridgeEntry {
            id: String::new(),
            dialect: dialect.to_owned(),
            config_path: String::new(),
            enabled: true,
            plugin_root: None,
            project_dir: None,
            default_timeout_ms: None,
            stderr_summary_max_chars: None,
        }
    }
}

/// A server of tools of which only the name is known.
pub open spec fn bare_server(id: Seq<char>) -> McpServerView {
    McpServerView {
        id,
        enabled: true,
        command: Seq::empty(),
        args: Seq::empty(),
        env: Map::empty(),
        cwd: None,
        tool_call_timeout_ms: None,
        url: None,
        headers: Map::empty(),
    }
}

impl McpServerEntry {
    pub(crate) fn bare(id: String) -> (r: McpServerEntry)
        ensures
            r@ == bare_server(id@),
            r.wf(),
            r.args@.len() == 0,
    {
        let r = McpServerEntry {
            id,
            enabled: true,
            command: String::new(),
            args: Vec::new(),
            env: StrMap::new(),
            cwd: None,
            tool_call_timeout_ms: None,
            url: None,
            headers: StrMap::new(),
        };
        proof {
            assert(r@.args =~= Seq::empty());
            assert(r@.env =~= Map::empty());
            assert(r@.headers =~= Map::empty());
        }
        r
    }

    /// Whether the server is reached under a URL.
    pub fn is_http(&self) -> (r: bool)
        ensures
            r == (self@.url is Some),
    {
        match &self.url {
            Some(_) => true,
            None => false,
        }
    }
}

impl Default for McpServerEntry {
    fn default() -> (r: McpServerEntry)
        ensures
            r@ == bare_server(Seq::empty()),
            r.wf(),
    {
        McpServerEntry::bare(String::new())
    }
}

impl ProviderEntry {
    /// How much context a model of the provider takes, where that is set to
    /// more than nothing.
    pub fn context_window_for(&self, model: &str) -> (r: Option<u64>)
        ensures
            r == (if self@.model_context_windows.dom().contains(model@)
                && self@.model_context_windows[model@] > 0 {
                Some(self@.model_context_windows[model@])
            } else {
                None
            }),
    {
        match self.model_context_windows.get(model) {
            Some(n) => if *n > 0 {
                Some(*n)
            } else {
                None
            },
            None => None,
        }
    }
}

/// The provider that is there when no other is.
pub open spec fn builtin_view() -> ProviderView {
    ProviderView {
        id: "deepseek"@,
        base_url: "https://api.deepseek.com/v1"@,
        dialect: "openai-completions"@,
        credential_ref: None,
        api_key: None,
        default_model: None,
        display_name: None,
        models: Seq::empty(),
        billing: None,
        billing_cache: None,
        model_context_windows: Map::empty(),
    }
}

/// The provider that is there when no other is.
pub fn builtin_provider() -> (r: ProviderEntry)
    ensures
        r@ == builtin_view(),
        r.wf(),
{
    let r = ProviderEntry {
        id: "deepseek".to_owned(),
        base_url: "https://api.deepseek.com/v1".to_owned(),
        dialect: "openai-completions".to_owned(),
        credential_ref: None,
        api_key: None,
        default_model: None,
        display_name: None,
        models: Vec::new(),
        billing: None,
        billing_cache: None,
        model_context_windows: StrMap::new(),
    };
    assert(r@.models =~= Seq::empty());
    r
}

/// The settings before anything is set.
pub open spec fn default_settings() -> SettingsView {
    SettingsView {
        version: SETTINGS_VERSION,
        onboarded: false,
        providers: seq![builtin_view()],
        workspaces: Map::empty(),
        workspace_paths: Seq::empty(),
        workspace_titles: Map::empty(),
        busy_enter: "queue"@,
        language: "zh"@,
        appearance: "dark"@,
        mcp_servers: Seq::empty(),
        hook_bridges: Seq::empty(),
    }
}

impl Default for SettingsFile {
    fn default() -> (r: SettingsFile)
        ensures
            r@ == default_settings(),
            r.wf(),
    {
        let mut providers: Vec<ProviderEntry> = Vec::new();
        providers.push(builtin_provider());
        let r = SettingsFile {
            version: SETTINGS_VERSION,
            onboarded: false,
            providers,
            workspaces: StrMap::new(),
            workspace_paths: Vec::new(),
            workspace_titles: StrMap::new(),
            busy_enter: "queue".to_owned(),
            language: "zh".to_owned(),
            appearance: "dark".to_owned(),
            mcp_servers: Vec::new(),
            hook_bridges: Vec::new(),
        };
        proof {
            assert(r@.providers =~= seq![builtin_view()]);
            assert(r@.workspaces =~= Map::empty());
            assert(r@.workspace_paths =~= Seq::empty());
            assert(r@.workspace_titles =~= Map::empty());
            assert(r@.mcp_servers =~= Seq::empty());
            assert(r@.hook_bridges =~= Seq::empty());
        }
        r
    }
}

/// The first provider under an id.
pub open spec fn find_provider(providers: Seq<ProviderView>, id: Seq<char>) -> Option<ProviderView>
    decreases providers.len(),
{
    if providers.len() == 0 {
        None
    } else if providers[0].id == id {
        Some(providers[0])
    } else {
        find_provider(providers.drop_first(), id)
    }
}

/// The provider under an id; where there is none, the one that is there from
/// the start.
pub open spec fn provider_of(providers: Seq<ProviderView>, id: Option<Seq<char>>) -> ProviderView {
    let hit = match id {
        Some(i) => find_provider(providers, i),
        None => None,
    };
    match hit {
        Some(p) => p,
        None => match find_provider(providers, "deepseek"@) {
            Some(p) => p,
            None => builtin_view(),
        },
    }
}

/// What holds for a workspace; nothing where nothing was set.
pub open spec fn defaults_of(
    workspaces: Map<Seq<char>, WorkspaceDefaultsView>,
    key: Seq<char>,
) -> WorkspaceDefaultsView {
    if workspaces.dom().contains(key) {
        workspaces[key]
    } else {
        no_defaults()
    }
}

/// The place of the first provider under an id.
pub fn provider_index(providers: &Vec<ProviderEntry>, id: &str) -> (r: Option<usize>)
    ensures
        match r {
            Some(k) => k < providers.len() && providers@[k as int]@.id == id@ && find_provider(
                provider_entry_views(providers@),
                id@,
            ) == Some(providers@[k as int]@) && forall|j: int|
                0 <= j < k ==> (#[trigger] providers@[j])@.id != id@,
            None => find_provider(provider_entry_views(providers@), id@) is None && forall|j: int|
                0 <= j < providers.len() ==> (#[trigger] providers@[j])@.id != id@,
        },
{
    let ghost all = provider_entry_views(providers@);
    let mut i: usize = 0;
    assert(all.skip(0) =~= all);
    while i < providers.len()
        invariant
            i <= providers.len(),
            all == provider_entry_views(providers@),
            find_provider(all, id@) == find_provider(all.skip(i as int), id@),
            forall|j: int| 0 <= j < i ==> (#[trigger] providers@[j])@.id != id@,
        decreases providers.len() - i,
    {
        assert(all.skip(i as int)[0] == providers@[i as int]@);
        assert(all.skip(i as int).drop_first() =~= all.skip(i + 1));
        if same(providers[i].id.as_str(), id) {
            return Some(i);
        }
        i = i + 1;
    }
    None
}

impl SettingsFile {
    /// What holds for a workspace, by the name of its directory.
    pub fn workspace(&self, key: &str) -> (r: WorkspaceDefaults)
        ensures
            r@ == defaults_of(self@.workspaces, key@),
    {
        match self.workspaces.get(key) {
            Some(d) => d.copy(),
            None => WorkspaceDefaults::default(),
        }
    }

    /// The provider under an id; where there is none, the one that is there
    /// from the start.
    pub fn provider(&self, id: Option<&str>) -> (r: ProviderEntry)
        requires
            self.wf(),
        ensures
            r@ == provider_of(
                self@.providers,
                match id {
                    Some(s) => Some(s@),
                    None => None,
                },
            ),
            r.wf(),
    {
        if let Some(id) = id {
            if let Some(k) = provider_index(&self.providers, id) {
                return self.providers[k].copy();
            }
        }
        match provider_index(&self.providers, "deepseek") {
            Some(k) => self.providers[k].copy(),
            None => builtin_provider(),
        }
    }
}

// The catalog.

/// The texts of a run of literals.
fn strings2(a: &str, b: &str) -> (r: Vec<String>)
    ensures
        text_seq(r@) == seq![a@, b@],
{
    let mut v: Vec<String> = Vec::new();
    v.push(a.to_owned());
    v.push(b.to_owned());
    assert(text_seq(v@) =~= seq![a@, b@]);
    v
}

fn strings1(a: &str) -> (r: Vec<String>)
    ensures
        text_seq(r@) == seq![a@],
{
    let mut v: Vec<String> = Vec::new();
    v.push(a.to_owned());
    assert(text_seq(v@) =~= seq![a@]);
    v
}

pub open spec fn catalog_deepseek() -> CatalogView {
    CatalogView {
        id: "deepseek"@,
        display_name: "DeepSeek"@,
        dialect: "openai-responses"@,
        base_url: "https://api.deepseek.com/v1"@,
        models: seq!["deepseek-flash"@, "deepseek-v4-pro"@],
        billing: Some(
            BillingView {
                kind: BillingKind::Balance,
                url: "https://api.deepseek.com/user/balance"@,
                paths: BillingPathsView {
                    balance: Some("$.balance_infos[0].total_balance"@),
                    currency: Some("$.balance_infos[0].currency"@),
                    ..no_paths()
                },
                auth_style: None,
            },
        ),
    }
}

pub open spec fn catalog_glm() -> CatalogView {
    CatalogView {
        id: "glm"@,
        display_name: "GLM(智谱)"@,
        dialect: "glm-responses"@,
        base_url: "https://open.bigmodel.cn/api/v1"@,
        models: seq!["glm-5.3-flash"@],
        billing: Some(
            BillingView {
                kind: BillingKind::Usage,
                url: "https://open.bigmodel.cn/api/monitor/usage/quota/limit"@,
                paths: BillingPathsView {
                    usage_5h: Some(
                        "$.data.limits[?(@.type==\"TOKENS_LIMIT\" && @.unit==3)].percentage"@,
                    ),
                    usage_7d: Some(
                        "$.data.limits[?(@.type==\"TOKENS_LIMIT\" && @.unit==6)].percentage"@,
                    ),
                    resets: Some(
                        "$.data.limits[?(@.type==\"TOKENS_LIMIT\" && @.unit==3)].nextResetTime"@,
                    ),
                    resets_7d: Some(
                        "$.data.limits[?(@.type==\"TOKENS_LIMIT\" && @.unit==6)].nextResetTime"@,
                    ),
                    ..no_paths()
                },
                auth_style: Some("raw"@),
            },
        ),
    }
}

pub open spec fn catalog_kimi() -> CatalogView {
    CatalogView {
        id: "kimi"@,
        display_name: "Kimi(Moonshot)"@,
        dialect: "openai-responses"@,
        base_url: "https://api.moonshot.cn/v1"@,
        models: seq!["kimi-k3"@],
        billing: Some(
            BillingView {
                kind: BillingKind::Balance,
                url: "https://api.moonshot.cn/v1/users/me/balance"@,
                paths: BillingPathsView {
                    balance: Some("$.data.available_balance"@),
                    ..no_paths()
                },
                auth_style: None,
            },
        ),
    }
}

pub open spec fn catalog_minimax() -> CatalogView {
    CatalogView {
        id: "minimax"@,
        display_name: "MiniMax"@,
        dialect: "openai-responses"@,
        base_url: "https://api.minimax.cn/v1"@,
        models: seq!["MiniMax-M3"@],
        billing: None,
    }
}

pub open spec fn catalog_qwen() -> CatalogView {
    CatalogView {
        id: "qwen"@,
        display_name: "Qwen(百炼)"@,
        dialect: "openai-responses"@,
        base_url: "https://{WorkspaceId}.cn-beijing.maas.aliyuncs.com/compatible-mode/v1"@,
        models: seq!["qwen3.8-max"@, "qwen3.8-flash"@],
        billing: None,
    }
}

pub open spec fn catalog_views(v: Seq<CatalogEntry>) -> Seq<CatalogView> {
    v.map_values(|e: CatalogEntry| e@)
}

/// The providers that are known from the start.
pub open spec fn known_catalog() -> Seq<CatalogView> {
    seq![
        catalog_deepseek(),
        catalog_glm(),
        catalog_kimi(),
        catalog_minimax(),
        catalog_qwen(),
    ]
}

/// The providers that are known from the start.
pub fn provider_catalog() -> (r: Vec<CatalogEntry>)
    ensures
        catalog_views(r@) == known_catalog(),
{
    let deepseek = CatalogEntry {
        id: "deepseek".to_owned(),
        display_name: "DeepSeek".to_owned(),
        dialect: "openai-responses".to_owned(),
        base_url: "https://api.deepseek.com/v1".to_owned(),
        models: strings2("deepseek-flash", "deepseek-v4-pro"),
        billing: Some(
            BillingConfig {
                kind: BillingKind::Balance,
                url: "https://api.deepseek.com/user/balance".to_owned(),
                paths: BillingPaths {
                    balance: Some("$.balance_infos[0].total_balance".to_owned()),
                    currency: Some("$.balance_infos[0].currency".to_owned()),
                    ..BillingPaths::default()
                },
                auth_style: None,
            },
        ),
    };
    let glm = CatalogEntry {
        id: "glm".to_owned(),
        display_name: "GLM(智谱)".to_owned(),
        dialect: "glm-responses".to_owned(),
        base_url: "https://open.bigmodel.cn/api/v1".to_owned(),
        models: strings1("glm-5.3-flash"),
        billing: Some(
            BillingConfig {
                kind: BillingKind::Usage,
                url: "https://open.bigmodel.cn/api/monitor/usage/quota/limit".to_owned(),
                paths: BillingPaths {
                    usage_5h: Some(
                        "$.data.limits[?(@.type==\"TOKENS_LIMIT\" && @.unit==3)].percentage".to_owned(),
                    ),
                    usage_7d: Some(
                        "$.data.limits[?(@.type==\"TOKENS_LIMIT\" && @.unit==6)].percentage".to_owned(),
                    ),
                    resets: Some(
                        "$.data.limits[?(@.type==\"TOKENS_LIMIT\" && @.unit==3)].nextResetTime".to_owned(),
                    ),
                    resets_7d: Some(
                        "$.data.limits[?(@.type==\"TOKENS_LIMIT\" && @.unit==6)].nextResetTime".to_owned(),
                    ),
                    ..BillingPaths::default()
                },
                auth_style: Some("raw".to_owned()),
            },
        ),
    };
    let kimi = CatalogEntry {
        id: "kimi".to_owned(),
        display_name: "Kimi(Moonshot)".to_owned(),
        dialect: "openai-responses".to_owned(),
        base_url: "https://api.moonshot.cn/v1".to_owned(),
        models: strings1("kimi-k3"),
        billing: Some(
            BillingConfig {
                kind: BillingKind::Balance,
                url: "https://api.moonshot.cn/v1/users/me/balance".to_owned(),
                paths: BillingPaths {
                    balance: Some("$.data.available_balance".to_owned()),
                    ..BillingPaths::default()
                },
                auth_style: None,
            },
        ),
    };
    let minimax = CatalogEntry {
        id: "minimax".to_owned(),
        display_name: "MiniMax".to_owned(),
        dialect: "openai-responses".to_owned(),
        base_url: "https://api.minimax.cn/v1".to_owned(),
        models: strings1("MiniMax-M3"),
        billing: None,
    };
    let qwen = CatalogEntry {
        id: "qwen".to_owned(),
        display_name: "Qwen(百炼)".to_owned(),
        dialect: "openai-responses".to_owned(),
        base_url: "https://{WorkspaceId}.cn-beijing.maas.aliyuncs.com/compatible-mode/v1".to_owned(),
        models: strings2("qwen3.8-max", "qwen3.8-flash"),
        billing: None,
    };
    let mut out: Vec<CatalogEntry> = Vec::new();
    out.push(deepseek);
    out.push(glm);
    out.push(kimi);
    out.push(minimax);
    out.push(qwen);
    proof {
        assert(catalog_views(out@) =~= known_catalog());
    }
    out
}

/// A provider is found by its id where one has it, the first that has it; else the one
/// that is there from the start counts, as it is set or as it is built in.
pub proof fn law_provider_is_found_by_id(all: Seq<ProviderView>, id: Seq<char>, i: int)
    requires
        0 <= i <= all.len(),
        i < all.len() ==> all[i].id == id,
        forall|k: int| 0 <= k < i ==> (#[trigger] all[k]).id != id,
    ensures
        i < all.len() ==> find_provider(all, id) == Some(all[i]) && provider_of(all, Some(id))
            == all[i],
        i == all.len() ==> find_provider(all, id) is None && provider_of(all, Some(id))
            == provider_of(all, None),
        find_provider(all, "deepseek"@) is None ==> provider_of(all, None) == builtin_view(),
        find_provider(all, "deepseek"@) is Some ==> provider_of(all, None) == find_provider(
            all,
            "deepseek"@,
        )->0,
    decreases i,
{
    if i > 0 {
        assert(all[0].id != id);
        let rest = all.drop_first();
        assert forall|k: int| 0 <= k < i - 1 implies (#[trigger] rest[k]).id != id by {
            assert(rest[k] == all[k + 1]);
        }
        law_provider_is_found_by_id(rest, id, i - 1);
    }
}

/// Its members in the file: each thing stands under its own name, and nothing else is there.
pub proof fn law_billing_paths_members(v: BillingPaths, t: JsonTree)
    requires
        t == v.tree(),
    ensures
        v.balance matches Some(x) ==> has_entry(t, "balance"@, JsonTree::Text(x@)),
        v.balance is None ==> has_entry(t, "balance"@, JsonTree::Null),
        v.currency matches Some(x) ==> has_entry(t, "currency"@, JsonTree::Text(x@)),
        v.currency is None ==> has_entry(t, "currency"@, JsonTree::Null),
        v.usage_5h matches Some(x) ==> has_entry(t, "usage_5h"@, JsonTree::Text(x@)),
        v.usage_5h is None ==> has_entry(t, "usage_5h"@, JsonTree::Null),
        v.usage_7d matches Some(x) ==> has_entry(t, "usage_7d"@, JsonTree::Text(x@)),
        v.usage_7d is None ==> has_entry(t, "usage_7d"@, JsonTree::Null),
        v.resets matches Some(x) ==> has_entry(t, "resets"@, JsonTree::Text(x@)),
        v.resets is None ==> has_entry(t, "resets"@, JsonTree::Null),
        v.resets_7d matches Some(x) ==> has_entry(t, "resets_7d"@, JsonTree::Text(x@)),
        v.resets_7d is None ==> has_entry(t, "resets_7d"@, JsonTree::Null),
        t->Object_0.len() == 6,
{
    let t0 = JsonTree::object();
    let x0 = text_or_null(v.balance);
    lemma_entry(t0, "balance"@, x0);
    let t1 = t0.with("balance"@, x0);
    let x1 = text_or_null(v.currency);
    lemma_entry(t1, "currency"@, x1);
    let t2 = t1.with("currency"@, x1);
    let x2 = text_or_null(v.usage_5h);
    lemma_entry(t2, "usage_5h"@, x2);
    let t3 = t2.with("usage_5h"@, x2);
    let x3 = text_or_null(v.usage_7d);
    lemma_entry(t3, "usage_7d"@, x3);
    let t4 = t3.with("usage_7d"@, x3);
    let x4 = text_or_null(v.resets);
    lemma_entry(t4, "resets"@, x4);
    let t5 = t4.with("resets"@, x4);
    lemma_entry(t5, "resets_7d"@, text_or_null(v.resets_7d));
}

/// Its members in the file: each thing stands under its own name, and nothing else is there.
pub proof fn law_billing_config_members(v: BillingConfig, t: JsonTree)
    requires
        t == v.tree(),
    ensures
        has_entry(t, "kind"@, v.kind.tree()),
        has_entry(t, "url"@, JsonTree::Text(v.url@)),
        has_entry(t, "paths"@, v.paths.tree()),
        v.auth_style matches Some(x) ==> has_entry(t, "auth_style"@, JsonTree::Text(x@)),
        v.auth_style is None ==> has_entry(t, "auth_style"@, JsonTree::Null),
        t->Object_0.len() == 4,
{
    let t0 = JsonTree::object();
    let x0 = v.kind.tree();
    lemma_entry(t0, "kind"@, x0);
    let t1 = t0.with("kind"@, x0);
    let x1 = JsonTree::Text(v.url@);
    lemma_entry(t1, "url"@, x1);
    let t2 = t1.with("url"@, x1);
    let x2 = v.paths.tree();
    lemma_entry(t2, "paths"@, x2);
    let t3 = t2.with("paths"@, x2);
    lemma_entry(t3, "auth_style"@, text_or_null(v.auth_style));
}

/// Its members in the file: each thing stands under its own name, and nothing else is there.
pub proof fn law_provider_entry_members(v: ProviderEntry, t: JsonTree)
    requires
        t == v.tree(),
    ensures
        has_entry(t, "id"@, JsonTree::Text(v.id@)),
        has_entry(t, "base_url"@, JsonTree::Text(v.base_url@)),
        has_entry(t, "dialect"@, JsonTree::Text(v.dialect@)),
        v.credential_ref matches Some(x) ==> has_entry(t, "credential_ref"@, JsonTree::Text(x@)),
        v.credential_ref is None ==> has_entry(t, "credential_ref"@, JsonTree::Null),
        v.api_key matches Some(x) ==> has_entry(t, "api_key"@, JsonTree::Text(x@)),
        v.api_key is None ==> has_entry(t, "api_key"@, JsonTree::Null),
        v.default_model matches Some(x) ==> has_entry(t, "default_model"@, JsonTree::Text(x@)),
        v.default_model is None ==> has_entry(t, "default_model"@, JsonTree::Null),
        v.display_name matches Some(x) ==> has_entry(t, "display_name"@, JsonTree::Text(x@)),
        v.display_name is None ==> has_entry(t, "display_name"@, JsonTree::Null),
        has_entry(t, "models"@, JsonTree::Array(text_trees(v.models@))),
        v.billing matches Some(x) ==> has_entry(t, "billing"@, x.tree()),
        v.billing is None ==> has_entry(t, "billing"@, JsonTree::Null),
        v.billing_cache matches Some(x) ==> has_entry(t, "billing_cache"@, x.tree()),
        v.billing_cache is None ==> has_entry(t, "billing_cache"@, JsonTree::Null),
        v.model_context_windows.entries@.len() > 0 ==> has_entry(
            t,
            "model_context_windows"@,
            number_map_tree(v.model_context_windows.entries@),
        ),
        t->Object_0.len() == 10 + flag(v.model_context_windows.entries@.len() > 0),
{
    let t0 = JsonTree::object();
    let x0 = JsonTree::Text(v.id@);
    lemma_entry(t0, "id"@, x0);
    let t1 = t0.with("id"@, x0);
    let x1 = JsonTree::Text(v.base_url@);
    lemma_entry(t1, "base_url"@, x1);
    let t2 = t1.with("base_url"@, x1);
    let x2 = JsonTree::Text(v.dialect@);
    lemma_entry(t2, "dialect"@, x2);
    let t3 = t2.with("dialect"@, x2);
    let x3 = text_or_null(v.credential_ref);
    lemma_entry(t3, "credential_ref"@, x3);
    let t4 = t3.with("credential_ref"@, x3);
    let x4 = text_or_null(v.api_key);
    lemma_entry(t4, "api_key"@, x4);
    let t5 = t4.with("api_key"@, x4);
    let x5 = text_or_null(v.default_model);
    lemma_entry(t5, "default_model"@, x5);
    let t6 = t5.with("default_model"@, x5);
    let x6 = text_or_null(v.display_name);
    lemma_entry(t6, "display_name"@, x6);
    let t7 = t6.with("display_name"@, x6);
    let x7 = JsonTree::Array(text_trees(v.models@));
    lemma_entry(t7, "models"@, x7);
    let t8 = t7.with("models"@, x7);
    let x8 = match v.billing {
            Some(x) => x.tree(),
            None => JsonTree::Null,
        };
    lemma_entry(t8, "billing"@, x8);
    let t9 = t8.with("billing"@, x8);
    let x9 = match v.billing_cache {
            Some(x) => x.tree(),
            None => JsonTree::Null,
        };
    lemma_entry(t9, "billing_cache"@, x9);
    let t10 = t9.with("billing_cache"@, x9);
    lemma_entry_some(
        t10,
        "model_context_windows"@,
        if v.model_context_windows.entries@.len() == 0 {
            None
        } else {
            Some(number_map_tree(v.model_context_windows.entries@))
        },
    );
}

/// Its members in the file: each thing stands under its own name, and nothing else is there.
pub proof fn law_catalog_entry_members(v: CatalogEntry, t: JsonTree)
    requires
        t == v.tree(),
    ensures
        has_entry(t, "id"@, JsonTree::Text(v.id@)),
        has_entry(t, "display_name"@, JsonTree::Text(v.display_name@)),
        has_entry(t, "dialect"@, JsonTree::Text(v.dialect@)),
        has_entry(t, "base_url"@, JsonTree::Text(v.base_url@)),
        has_entry(t, "models"@, JsonTree::Array(text_trees(v.models@))),
        v.billing matches Some(x) ==> has_entry(t, "billing"@, x.tree()),
        v.billing is None ==> has_entry(t, "billing"@, JsonTree::Null),
        t->Object_0.len() == 6,
{
    let t0 = JsonTree::object();
    let x0 = JsonTree::Text(v.id@);
    lemma_entry(t0, "id"@, x0);
    let t1 = t0.with("id"@, x0);
    let x1 = JsonTree::Text(v.display_name@);
    lemma_entry(t1, "display_name"@, x1);
    let t2 = t1.with("display_name"@, x1);
    let x2 = JsonTree::Text(v.dialect@);
    lemma_entry(t2, "dialect"@, x2);
    let t3 = t2.with("dialect"@, x2);
    let x3 = JsonTree::Text(v.base_url@);
    lemma_entry(t3, "base_url"@, x3);
    let t4 = t3.with("base_url"@, x3);
    let x4 = JsonTree::Array(text_trees(v.models@));
    lemma_entry(t4, "models"@, x4);
    let t5 = t4.with("models"@, x4);
    lemma_entry(
        t5,
        "billing"@,
        match v.billing {
            Some(x) => x.tree(),
            None => JsonTree::Null,
        },
    );
}

/// Its members in the file: each thing stands under its own name, and nothing else is there.
pub proof fn law_workspace_defaults_members(v: WorkspaceDefaults, t: JsonTree)
    requires
        t == v.tree(),
    ensures
        v.provider matches Some(x) ==> has_entry(t, "provider"@, JsonTree::Text(x@)),
        v.provider is None ==> has_entry(t, "provider"@, JsonTree::Null),
        v.model matches Some(x) ==> has_entry(t, "model"@, JsonTree::Text(x@)),
        v.model is None ==> has_entry(t, "model"@, JsonTree::Null),
        v.default_permission_preset matches Some(x) ==> has_entry(
            t,
            "default_permission_preset"@,
            JsonTree::Text(x@),
        ),
        v.default_permission_preset is None ==> has_entry(
            t,
            "default_permission_preset"@,
            JsonTree::Null,
        ),
        v.preset matches Some(x) ==> has_entry(t, "preset"@, JsonTree::Text(x@)),
        v.preset is None ==> has_entry(t, "preset"@, JsonTree::Null),
        v.effort matches Some(x) ==> has_entry(t, "effort"@, JsonTree::Text(x@)),
        v.effort is None ==> has_entry(t, "effort"@, JsonTree::Null),
        t->Object_0.len() == 5,
{
    let t0 = JsonTree::object();
    let x0 = text_or_null(v.provider);
    lemma_entry(t0, "provider"@, x0);
    let t1 = t0.with("provider"@, x0);
    let x1 = text_or_null(v.model);
    lemma_entry(t1, "model"@, x1);
    let t2 = t1.with("model"@, x1);
    let x2 = text_or_null(v.default_permission_preset);
    lemma_entry(t2, "default_permission_preset"@, x2);
    let t3 = t2.with("default_permission_preset"@, x2);
    let x3 = text_or_null(v.preset);
    lemma_entry(t3, "preset"@, x3);
    let t4 = t3.with("preset"@, x3);
    lemma_entry(t4, "effort"@, text_or_null(v.effort));
}

/// Its members in the file: each thing stands under its own name, and nothing else is there.
pub proof fn law_hook_bridge_entry_members(v: HookBridgeEntry, t: JsonTree)
    requires
        t == v.tree(),
    ensures
        has_entry(t, "id"@, JsonTree::Text(v.id@)),
        has_entry(t, "dialect"@, JsonTree::Text(v.dialect@)),
        has_entry(t, "configPath"@, JsonTree::Text(v.config_path@)),
        has_entry(t, "enabled"@, JsonTree::Bool(v.enabled)),
        v.plugin_root matches Some(x) ==> has_entry(t, "pluginRoot"@, JsonTree::Text(x@)),
        v.project_dir matches Some(x) ==> has_entry(t, "projectDir"@, JsonTree::Text(x@)),
        v.default_timeout_ms matches Some(x) ==> has_entry(
            t,
            "defaultTimeoutMs"@,
            JsonTree::Number(Num::Unsigned(x)),
        ),
        v.stderr_summary_max_chars matches Some(x) ==> has_entry(
            t,
            "stderrSummaryMaxChars"@,
            JsonTree::Number(Num::Unsigned(x as u64)),
        ),
        t->Object_0.len() == 4 + flag(v.plugin_root is Some) + flag(v.project_dir is Some)
            + flag(v.default_timeout_ms is Some) + flag(v.stderr_summary_max_chars is Some),
{
    let t0 = JsonTree::object();
    let x0 = JsonTree::Text(v.id@);
    lemma_entry(t0, "id"@, x0);
    let t1 = t0.with("id"@, x0);
    let x1 = JsonTree::Text(v.dialect@);
    lemma_entry(t1, "dialect"@, x1);
    let t2 = t1.with("dialect"@, x1);
    let x2 = JsonTree::Text(v.config_path@);
    lemma_entry(t2, "configPath"@, x2);
    let t3 = t2.with("configPath"@, x2);
    let x3 = JsonTree::Bool(v.enabled);
    lemma_entry(t3, "enabled"@, x3);
    let t4 = t3.with("enabled"@, x3);
    let x4 = text_option(v.plugin_root);
    lemma_entry_some(t4, "pluginRoot"@, x4);
    let t5 = t4.with_some("pluginRoot"@, x4);
    let x5 = text_option(v.project_dir);
    lemma_entry_some(t5, "projectDir"@, x5);
    let t6 = t5.with_some("projectDir"@, x5);
    let x6 = match v.default_timeout_ms {
        Some(n) => Some(JsonTree::Number(Num::Unsigned(n))),
        None => None,
    };
    lemma_entry_some(t6, "defaultTimeoutMs"@, x6);
    let t7 = t6.with_some("defaultTimeoutMs"@, x6);
    lemma_entry_some(
        t7,
        "stderrSummaryMaxChars"@,
        match v.stderr_summary_max_chars {
            Some(n) => Some(JsonTree::Number(Num::Unsigned(n as u64))),
            None => None,
        },
    );
}

/// Its members in the file: each thing stands under its own name, and nothing else is there.
pub proof fn law_mcp_server_entry_members(v: McpServerEntry, t: JsonTree)
    requires
        t == v.tree(),
    ensures
        has_entry(t, "id"@, JsonTree::Text(v.id@)),
        has_entry(t, "enabled"@, JsonTree::Bool(v.enabled)),
        has_entry(t, "command"@, JsonTree::Text(v.command@)),
        has_entry(t, "args"@, JsonTree::Array(text_trees(v.args@))),
        has_entry(t, "env"@, text_map_tree(v.env.entries@)),
        v.cwd matches Some(x) ==> has_entry(t, "cwd"@, JsonTree::Text(x@)),
        v.tool_call_timeout_ms matches Some(x) ==> has_entry(
            t,
            "toolCallTimeoutMs"@,
            JsonTree::Number(Num::Unsigned(x)),
        ),
        v.url matches Some(x) ==> has_entry(t, "url"@, JsonTree::Text(x@)),
        v.headers.entries@.len() > 0 ==> has_entry(
            t,
            "headers"@,
            text_map_tree(v.headers.entries@),
        ),
        t->Object_0.len() == 5 + flag(v.cwd is Some) + flag(v.tool_call_timeout_ms is Some)
            + flag(v.url is Some) + flag(v.headers.entries@.len() > 0),
{
    let t0 = JsonTree::object();
    let x0 = JsonTree::Text(v.id@);
    lemma_entry(t0, "id"@, x0);
    let t1 = t0.with("id"@, x0);
    let x1 = JsonTree::Bool(v.enabled);
    lemma_entry(t1, "enabled"@, x1);
    let t2 = t1.with("enabled"@, x1);
    let x2 = JsonTree::Text(v.command@);
    lemma_entry(t2, "command"@, x2);
    let t3 = t2.with("command"@, x2);
    let x3 = JsonTree::Array(text_trees(v.args@));
    lemma_entry(t3, "args"@, x3);
    let t4 = t3.with("args"@, x3);
    let x4 = text_map_tree(v.env.entries@);
    lemma_entry(t4, "env"@, x4);
    let t5 = t4.with("env"@, x4);
    let x5 = text_option(v.cwd);
    lemma_entry_some(t5, "cwd"@, x5);
    let t6 = t5.with_some("cwd"@, x5);
    let x6 = match v.tool_call_timeout_ms {
        Some(n) => Some(JsonTree::Number(Num::Unsigned(n))),
        None => None,
    };
    lemma_entry_some(t6, "toolCallTimeoutMs"@, x6);
    let t7 = t6.with_some("toolCallTimeoutMs"@, x6);
    let x7 = text_option(v.url);
    lemma_entry_some(t7, "url"@, x7);
    let t8 = t7.with_some("url"@, x7);
    lemma_entry_some(
        t8,
        "headers"@,
        if v.headers.entries@.len() == 0 {
            None
        } else {
            Some(text_map_tree(v.headers.entries@))
        },
    );
}

/// A snapshot of a balance holds its amount and currency, and one of a usage its shares and
/// when they are reset; each says when it was taken and of which kind it is.
pub proof fn law_billing_snapshot_members(v: BillingSnapshot)
    ensures
        v matches BillingSnapshot::Balance { fetched_at_ms, amount, currency } ==> {
            let t = v.tree();
            &&& has_entry(t, "kind"@, JsonTree::Text("balance"@))
            &&& has_entry(t, "fetched_at_ms"@, JsonTree::Number(Num::Unsigned(fetched_at_ms)))
            &&& has_entry(t, "amount"@, JsonTree::Text(amount@))
            &&& has_entry(t, "currency"@, text_or_null(currency))
            &&& t->Object_0.len() == 4
        },
        v matches BillingSnapshot::Usage { fetched_at_ms, pct_5h, pct_7d, resets, resets_7d } ==> {
            let t = v.tree();
            &&& has_entry(t, "kind"@, JsonTree::Text("usage"@))
            &&& has_entry(t, "fetched_at_ms"@, JsonTree::Number(Num::Unsigned(fetched_at_ms)))
            &&& pct_5h matches Some(n) ==> has_entry(
                t,
                "pct_5h"@,
                JsonTree::Number(Num::Unsigned(n as u64)),
            )
            &&& pct_7d matches Some(n) ==> has_entry(
                t,
                "pct_7d"@,
                JsonTree::Number(Num::Unsigned(n as u64)),
            )
            &&& has_entry(t, "resets"@, text_or_null(resets))
            &&& has_entry(t, "resets_7d"@, text_or_null(resets_7d))
            &&& t->Object_0.len() == 6
        },
{
    let a = v.tree()->Object_0;
    if v is Balance {
        assert(a[0].0 == "kind"@ && a[1].0 == "fetched_at_ms"@ && a[2].0 == "amount"@ && a[3].0
            == "currency"@);
    } else {
        assert(a[0].0 == "kind"@ && a[1].0 == "fetched_at_ms"@ && a[2].0 == "pct_5h"@ && a[3].0
            == "pct_7d"@ && a[4].0 == "resets"@ && a[5].0 == "resets_7d"@);
    }
}

} // verus!
