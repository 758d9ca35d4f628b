//! What a provider says is left: where to ask, and how to read the answer.
use vstd::prelude::*;
use vstd::string::*;

use crate::host::{AppHost, HostView};
use crate::interact::text_view;
use crate::json::{
    Json, JsonTree, items_at, items_of, json_option, json_path, parse, parsed_value,
    path_first, trees,
};
use crate::logs::{collapse, collapsed};
use crate::settings::{
    BillingConfig, BillingKind, BillingSnapshot, BillingView, CatalogView, SnapshotView,
    catalog_views, known_catalog, provider_catalog, provider_of, text_seq,
};
use crate::text::{chars_of, first_chars, joined, joined3, same, take_chars};

verus! {

/// A header of a request.
#[derive(Debug, PartialEq)]
pub struct HttpHeader {
    pub name: String,
    pub value: String,
}

/// The models of headers.
pub open spec fn header_views(v: Seq<HttpHeader>) -> Seq<(Seq<char>, Seq<char>)> {
    v.map_values(|h: HttpHeader| (h.name@, h.value@))
}

/// The headers that carry a key: as it is, or as the dialect has it.
pub open spec fn key_headers(raw: bool, dialect: Seq<char>, key: Seq<char>) -> Seq<
    (Seq<char>, Seq<char>),
> {
    if raw {
        seq![("Authorization"@, key)]
    } else if dialect == "anthropic-messages"@ {
        seq![("x-api-key"@, key), ("anthropic-version"@, "2023-06-01"@)]
    } else {
        seq![("Authorization"@, "Bearer "@ + key)]
    }
}

/// The headers that carry a key.
pub fn auth_headers(raw: bool, dialect: &str, key: &str) -> (r: Vec<HttpHeader>)
    ensures
        header_views(r@) == key_headers(raw, dialect@, key@),
{
    let mut v: Vec<HttpHeader> = Vec::new();
    if raw {
        v.push(HttpHeader { name: "Authorization".to_owned(), value: key.to_owned() });
    } else if same(dialect, "anthropic-messages") {
        v.push(HttpHeader { name: "x-api-key".to_owned(), value: key.to_owned() });
        v.push(
            HttpHeader { name: "anthropic-version".to_owned(), value: "2023-06-01".to_owned() },
        );
    } else {
        v.push(HttpHeader { name: "Authorization".to_owned(), value: joined("Bearer ", key) });
    }
    assert(header_views(v@) =~= key_headers(raw, dialect@, key@));
    v
}

/// The headers of a billing request.
pub fn billing_headers(cfg: &BillingConfig, dialect: &str, key: &str) -> (r: Vec<HttpHeader>)
    ensures
        header_views(r@) == key_headers(cfg@.auth_style == Some("raw"@), dialect@, key@),
{
    let raw = match &cfg.auth_style {
        Some(s) => same(s.as_str(), "raw"),
        None => false,
    };
    auth_headers(raw, dialect, key)
}

/// A text without the slashes that it ends with.
pub open spec fn unslashed_back(s: Seq<char>) -> Seq<char>
    decreases s.len(),
{
    if s.len() > 0 && s.last() == '/' {
        unslashed_back(s.drop_last())
    } else {
        s
    }
}

/// Where a provider names its models.
pub fn models_url(base_url: &str) -> (r: String)
    ensures
        r@ == unslashed_back(base_url@) + "/models"@,
{
    let v = chars_of(base_url);
    let mut end: usize = v.len();
    assert(base_url@.take(end as int) =~= base_url@);
    while end > 0 && v[end - 1] == '/'
        invariant
            end <= v.len(),
            v@ == base_url@,
            unslashed_back(base_url@) == unslashed_back(base_url@.take(end as int)),
        decreases end,
    {
        assert(base_url@.take(end as int).drop_last() =~= base_url@.take(end - 1));
        end = end - 1;
    }
    proof {
        if end > 0 {
            assert(base_url@.take(end as int).last() == v@[end - 1]);
        }
        assert(v@.subrange(0, end as int) =~= base_url@.take(end as int));
    }
    let base = crate::text::text_between(&v, 0, end);
    joined(base.as_str(), "/models")
}

/// The ids that are texts among some items.
pub open spec fn model_ids(items: Seq<JsonTree>) -> Seq<Seq<char>>
    decreases items.len(),
{
    if items.len() == 0 {
        Seq::empty()
    } else {
        match items.last().at("id"@).as_text() {
            Some(id) => model_ids(items.drop_last()).push(id),
            None => model_ids(items.drop_last()),
        }
    }
}

/// The models that the answer of a provider names.
pub fn models_in(body: &Json) -> (r: Vec<String>)
    ensures
        text_seq(r@) == model_ids(items_at(body@, "data"@)),
{
    let none: Vec<Json> = Vec::new();
    let items = items_of(body, "data", &none);
    let ghost all = trees(items@);
    let mut out: Vec<String> = Vec::new();
    let mut i: usize = 0;
    proof {
        assert(all.take(0) =~= Seq::empty());
        assert(text_seq(out@) =~= Seq::empty());
    }
    while i < items.len()
        invariant
            i <= items.len(),
            all == trees(items@),
            text_seq(out@) == model_ids(all.take(i as int)),
        decreases items.len() - i,
    {
        proof {
            assert(all.take(i + 1).drop_last() =~= all.take(i as int));
            assert(all.take(i + 1).last() == items@[i as int]@);
        }
        if let Some(id) = items[i].str_at("id") {
            let s = id.to_owned();
            assert(text_seq(out@.push(s)) =~= text_seq(out@).push(s@));
            out.push(s);
        }
        i = i + 1;
    }
    assert(all.take(all.len() as int) =~= all);
    out
}

// Reading a billing answer.

/// What the paths of a billing configuration select from an answer.
#[derive(Debug, PartialEq)]
pub struct BillingValues {
    pub balance: Option<Json>,
    pub currency: Option<Json>,
    pub usage_5h: Option<Json>,
    pub usage_7d: Option<Json>,
    pub resets: Option<Json>,
    pub resets_7d: Option<Json>,
}

/// What a path selects, where there is one.
pub open spec fn selected(body: JsonTree, path: Option<Seq<char>>) -> Option<JsonTree> {
    match path {
        Some(p) => path_first(body, p),
        None => None,
    }
}

fn select(body: &Json, path: &Option<String>) -> (r: Option<Json>)
    requires
        body@.canonical(),
    ensures
        json_option(r) == selected(body@, text_view(*path)),
{
    match path {
        Some(p) => json_path(body, p.as_str()),
        None => None,
    }
}

/// What the paths of a billing configuration select from an answer.
pub fn billing_values(cfg: &BillingConfig, body: &Json) -> (r: BillingValues)
    requires
        body@.canonical(),
    ensures
        json_option(r.balance) == selected(body@, cfg@.paths.balance),
        json_option(r.currency) == selected(body@, cfg@.paths.currency),
        json_option(r.usage_5h) == selected(body@, cfg@.paths.usage_5h),
        json_option(r.usage_7d) == selected(body@, cfg@.paths.usage_7d),
        json_option(r.resets) == selected(body@, cfg@.paths.resets),
        json_option(r.resets_7d) == selected(body@, cfg@.paths.resets_7d),
{
    BillingValues {
        balance: select(body, &cfg.paths.balance),
        currency: select(body, &cfg.paths.currency),
        usage_5h: select(body, &cfg.paths.usage_5h),
        usage_7d: select(body, &cfg.paths.usage_7d),
        resets: select(body, &cfg.paths.resets),
        resets_7d: select(body, &cfg.paths.resets_7d),
    }
}

/// The parts of a billing answer, as they are shown.
#[derive(Debug, PartialEq)]
pub struct BillingParts {
    pub amount: Option<String>,
    pub currency: Option<String>,
    pub pct_5h: Option<u8>,
    pub pct_7d: Option<u8>,
    pub resets: Option<String>,
    pub resets_7d: Option<String>,
}

/// The beginning of an answer, on one line.
pub open spec fn snippet(text: Seq<char>) -> Seq<char> {
    let flat = collapsed(text);
    if flat.len() > 160 {
        first_chars(flat, 160) + "…"@
    } else {
        flat
    }
}

/// The beginning of an answer, on one line.
pub fn body_snippet(text: &str) -> (r: String)
    ensures
        r@ == snippet(text@),
{
    let flat = collapse(text);
    let n: usize = chars_of(flat.as_str()).len();
    let cut = take_chars(flat.as_str(), 160);
    if n > 160 {
        joined(cut.as_str(), "…")
    } else {
        cut
    }
}

/// Reads a billing answer.
pub fn billing_body(text: &str) -> (r: Result<Json, String>)
    ensures
        match parsed_value(text@) {
            Ok(t) => r is Ok && r->Ok_0@ == t && t.canonical(),
            Err(e) => r is Err && r->Err_0@ == "响应解析失败("@ + e + "):"@ + snippet(text@),
        },
{
    match parse(text) {
        Ok(j) => Ok(j),
        Err(e) => {
            let mut message = joined3("响应解析失败(", e.as_str(), "):");
            message.append(body_snippet(text).as_str());
            Err(message)
        },
    }
}

/// What a billing answer comes to, given its parts: a balance needs an amount, a
/// usage needs at least one share.
pub open spec fn snapshot_view(
    kind: BillingKind,
    parts: BillingParts,
    now: u64,
    text: Seq<char>,
) -> Result<SnapshotView, Seq<char>> {
    match kind {
        BillingKind::Balance => match text_view(parts.amount) {
            None => Err("余额路径未命中"@),
            Some(amount) => if amount.len() == 0 {
                Err("路径未命中,响应:"@ + snippet(text))
            } else {
                Ok(
                    SnapshotView::Balance {
                        fetched_at_ms: now,
                        amount,
                        currency: text_view(parts.currency),
                    },
                )
            },
        },
        BillingKind::Usage => if parts.pct_5h is None && parts.pct_7d is None {
            Err("路径未命中,响应:"@ + snippet(text))
        } else {
            Ok(
                SnapshotView::Usage {
                    fetched_at_ms: now,
                    pct_5h: parts.pct_5h,
                    pct_7d: parts.pct_7d,
                    resets: text_view(parts.resets),
                    resets_7d: text_view(parts.resets_7d),
                },
            )
        },
    }
}

/// What a billing answer comes to, given its parts.
pub fn billing_snapshot(kind: BillingKind, parts: BillingParts, now: u64, text: &str) -> (r: Result<
    BillingSnapshot,
    String,
>)
    ensures
        match snapshot_view(kind, parts, now, text@) {
            Ok(s) => r is Ok && r->Ok_0@ == s,
            Err(e) => r is Err && r->Err_0@ == e,
        },
{
    match kind {
        BillingKind::Balance => match parts.amount {
            None => Err("余额路径未命中".to_owned()),
            Some(amount) => if amount.as_str().is_empty() {
                Err(joined("路径未命中,响应:", body_snippet(text).as_str()))
            } else {
                Ok(
                    BillingSnapshot::Balance {
                        fetched_at_ms: now,
                        amount,
                        currency: parts.currency,
                    },
                )
            },
        },
        BillingKind::Usage => if parts.pct_5h.is_none() && parts.pct_7d.is_none() {
            Err(joined("路径未命中,响应:", body_snippet(text).as_str()))
        } else {
            Ok(
                BillingSnapshot::Usage {
                    fetched_at_ms: now,
                    pct_5h: parts.pct_5h,
                    pct_7d: parts.pct_7d,
                    resets: parts.resets,
                    resets_7d: parts.resets_7d,
                },
            )
        },
    }
}

/// The first entry of a catalog under an id.
pub open spec fn catalog_named(all: Seq<CatalogView>, id: Seq<char>) -> Option<CatalogView>
    decreases all.len(),
{
    if all.len() == 0 {
        None
    } else if all[0].id == id {
        Some(all[0])
    } else {
        catalog_named(all.drop_first(), id)
    }
}

/// Where a provider says what is left: what the settings say, else what is known
/// of it from the start.
pub open spec fn billing_of(h: HostView, id: Seq<char>, catalog: Seq<CatalogView>) -> Option<
    BillingView,
> {
    match provider_of(h.settings.providers, Some(id)).billing {
        Some(b) => Some(b),
        None => match catalog_named(catalog, id) {
            Some(e) => e.billing,
            None => None,
        },
    }
}

impl AppHost {
    /// Where a provider says what is left.
    pub fn billing_for(&self, provider_id: &str) -> (r: Result<BillingConfig, String>)
        requires
            self.wf(),
        ensures
            match billing_of(self@, provider_id@, known_catalog()) {
                Some(b) => r is Ok && r->Ok_0@ == b,
                None => r is Err && r->Err_0@ == "该 provider 未配置计费端点"@,
            },
    {
        let catalog = provider_catalog();
        let ghost all = catalog_views(catalog@);
        if let Some(b) = self.settings.provider(Some(provider_id)).billing {
            return Ok(b);
        }
        let mut i: usize = 0;
        assert(all.skip(0) =~= all);
        while i < catalog.len()
            invariant
                i <= catalog.len(),
                all == catalog_views(catalog@),
                all == known_catalog(),
                provider_of(self@.settings.providers, Some(provider_id@)).billing is None,
                catalog_named(all, provider_id@) == catalog_named(
                    all.skip(i as int),
                    provider_id@,
                ),
            decreases catalog.len() - i,
        {
            assert(all.skip(i as int)[0] == catalog@[i as int]@);
            assert(all.skip(i as int).drop_first() =~= all.skip(i + 1));
            if same(catalog[i].id.as_str(), provider_id) {
                return match &catalog[i].billing {
                    Some(b) => Ok(b.copy()),
                    None => Err("该 provider 未配置计费端点".to_owned()),
                };
            }
            i = i + 1;
        }
        Err("该 provider 未配置计费端点".to_owned())
    }
}

/// How a key is carried: as it is where that is asked for; as the dialect has it
/// otherwise. It is carried once.
pub proof fn law_key_is_carried(raw: bool, dialect: Seq<char>, key: Seq<char>)
    ensures
        raw ==> key_headers(raw, dialect, key) == seq![("Authorization"@, key)],
        !raw && dialect == "anthropic-messages"@ ==> key_headers(raw, dialect, key).contains(
            ("x-api-key"@, key),
        ) && key_headers(raw, dialect, key).contains(("anthropic-version"@, "2023-06-01"@))
            && key_headers(raw, dialect, key).len() == 2,
        !raw && dialect != "anthropic-messages"@ ==> key_headers(raw, dialect, key) == seq![
            ("Authorization"@, "Bearer "@ + key),
        ],
{
    let all = key_headers(raw, dialect, key);
    if !raw && dialect == "anthropic-messages"@ {
        assert(all[0] == ("x-api-key"@, key));
        assert(all[1] == ("anthropic-version"@, "2023-06-01"@));
    }
}

/// An address ends without slashes, and is the address without those.
pub proof fn law_address_ends_without_slash(s: Seq<char>)
    ensures
        unslashed_back(s).len() <= s.len(),
        unslashed_back(s) == s.take(unslashed_back(s).len() as int),
        unslashed_back(s).len() > 0 ==> unslashed_back(s).last() != '/',
        forall|i: int| unslashed_back(s).len() <= i < s.len() ==> s[i] == '/',
    decreases s.len(),
{
    if s.len() > 0 && s.last() == '/' {
        law_address_ends_without_slash(s.drop_last());
        let out = unslashed_back(s);
        assert(s.drop_last().take(out.len() as int) =~= s.take(out.len() as int));
        assert forall|i: int| out.len() <= i < s.len() implies s[i] == '/' by {
            if i < s.len() - 1 {
                assert(s.drop_last()[i] == s[i]);
            }
        }
    } else {
        assert(s.take(s.len() as int) =~= s);
    }
}

/// The models that an answer names are the ids of its items that are texts, in order.
pub proof fn law_models_are_the_ids(items: Seq<JsonTree>)
    ensures
        model_ids(items).len() == items.filter(|t: JsonTree| t.at("id"@) is Text).len(),
        forall|i: int|
            0 <= i < model_ids(items).len() ==> items.filter(|t: JsonTree| t.at("id"@) is Text)[i].at(
                "id"@,
            ) == JsonTree::Text(#[trigger] model_ids(items)[i]),
{
    lemma_model_ids(items, |t: JsonTree| t.at("id"@) is Text);
}

proof fn lemma_model_ids(items: Seq<JsonTree>, named: spec_fn(JsonTree) -> bool)
    requires
        forall|t: JsonTree| #[trigger] named(t) == (t.at("id"@) is Text),
    ensures
        model_ids(items).len() == items.filter(named).len(),
        forall|i: int|
            0 <= i < model_ids(items).len() ==> items.filter(named)[i].at("id"@) == JsonTree::Text(
                #[trigger] model_ids(items)[i],
            ),
    decreases items.len(),
{
    reveal(Seq::filter);
    if items.len() > 0 {
        lemma_model_ids(items.drop_last(), named);
        assert(named(items.last()) == (items.last().at("id"@) is Text));
    }
}

/// A balance is what was found, under the time it was fetched at; without an amount there
/// is none. A usage is what was found of its shares; without any there is none.
pub proof fn law_snapshot_is_what_was_found(parts: BillingParts, now: u64, text: Seq<char>)
    ensures
        snapshot_view(BillingKind::Balance, parts, now, text) is Ok <==> (text_view(parts.amount)
            matches Some(a) && a.len() > 0),
        snapshot_view(BillingKind::Balance, parts, now, text) matches Ok(s) ==> (s
            matches SnapshotView::Balance { fetched_at_ms, amount, currency } && fetched_at_ms == now
            && Some(amount) == text_view(parts.amount) && currency == text_view(parts.currency)),
        snapshot_view(BillingKind::Usage, parts, now, text) is Ok <==> parts.pct_5h is Some
            || parts.pct_7d is Some,
        snapshot_view(BillingKind::Usage, parts, now, text) matches Ok(s) ==> (s
            matches SnapshotView::Usage { fetched_at_ms, pct_5h, pct_7d, resets, resets_7d }
            && fetched_at_ms == now && pct_5h == parts.pct_5h && pct_7d == parts.pct_7d && resets
            == text_view(parts.resets) && resets_7d == text_view(parts.resets_7d)),
{
}

/// The beginning of an answer has no more than 161 characters; a short one is shown whole.
pub proof fn law_snippet_is_short(text: Seq<char>)
    ensures
        collapsed(text).len() <= 160 ==> snippet(text) == collapsed(text),
        collapsed(text).len() > 160 ==> snippet(text).len() == 161 && snippet(text).take(160)
            == collapsed(text).take(160),
{
    reveal_strlit("…");
    let flat = collapsed(text);
    if flat.len() > 160 {
        assert(snippet(text).take(160) =~= flat.take(160));
    }
}

/// What is set for a provider goes before what is known of it from the start, which
/// counts only under its own id.
pub proof fn law_set_billing_goes_first(h: HostView, id: Seq<char>, catalog: Seq<CatalogView>, i: int)
    requires
        0 <= i <= catalog.len(),
        i < catalog.len() ==> catalog[i].id == id,
        forall|k: int| 0 <= k < i ==> (#[trigger] catalog[k]).id != id,
    ensures
        provider_of(h.settings.providers, Some(id)).billing matches Some(b) ==> billing_of(
            h,
            id,
            catalog,
        ) == Some(b),
        provider_of(h.settings.providers, Some(id)).billing is None ==> billing_of(h, id, catalog)
            == if i < catalog.len() {
            catalog[i].billing
        } else {
            None
        },
    decreases i,
{
    if i > 0 {
        assert(catalog[0].id != id);
        let rest = catalog.drop_first();
        assert forall|k: int| 0 <= k < i - 1 implies (#[trigger] rest[k]).id != id by {
            assert(rest[k] == catalog[k + 1]);
        }
        law_set_billing_goes_first(h, id, rest, i - 1);
    }
}

} // verus!
