//! Sessions: the list of them, and where each comes from.
use vstd::prelude::*;
use vstd::string::*;

use crate::interact::text_view;
use crate::json::{
    Json, JsonTree, ascending, lemma_with_some, member, parse, parsed_value, read_ok, render,
    text_json, value_text,
};
use crate::proto::SessionSummary;
use crate::text::{contains, has_part, lines, lines_of, same, text_before};

verus! {

// The header of a session.

/// What a header says: the session that this one comes from, and how.
pub open spec fn header_from(t: JsonTree) -> (Option<Seq<char>>, Option<Seq<char>>) {
    (t.at("parentSessionId"@).as_text(), t.at("origin"@).as_text())
}

/// A header.
pub open spec fn header_tree(parent: Option<Seq<char>>, origin: Option<Seq<char>>) -> JsonTree {
    JsonTree::object().with_some(
        "origin"@,
        match origin {
            Some(o) => Some(JsonTree::Text(o)),
            None => None,
        },
    ).with_some(
        "parentSessionId"@,
        match parent {
            Some(p) => Some(JsonTree::Text(p)),
            None => None,
        },
    )
}

/// What the header of a session says.
#[derive(Debug, PartialEq)]
pub struct Header {
    pub parent: Option<String>,
    pub origin: Option<String>,
}

/// Reads a header; one that is no JSON says nothing.
pub fn read_session_header(text: &str) -> (r: Header)
    ensures
        (text_view(r.parent), text_view(r.origin)) == (match parsed_value(text@) {
            Ok(t) => header_from(t),
            Err(_) => (None, None),
        }),
{
    match parse(text) {
        Ok(v) => header_of(&v),
        Err(_) => Header { parent: None, origin: None },
    }
}

/// What a header says.
pub fn header_of(v: &Json) -> (r: Header)
    ensures
        (text_view(r.parent), text_view(r.origin)) == header_from(v@),
{
    let parent = match v.str_at("parentSessionId") {
        Some(s) => Some(s.to_owned()),
        None => None,
    };
    let origin = match v.str_at("origin") {
        Some(s) => Some(s.to_owned()),
        None => None,
    };
    Header { parent, origin }
}

proof fn lemma_header(parent: Option<Seq<char>>, origin: Option<Seq<char>>)
    ensures
        header_tree(parent, origin).canonical(),
        header_tree(parent, origin).plain_within(127),
        header_from(header_tree(parent, origin)) == (parent, origin),
{
    reveal_strlit("origin");
    reveal_strlit("parentSessionId");
    assert("origin"@.len() == 6 && "parentSessionId"@.len() == 15 && "origin"@[0] == 'o'
        && "parentSessionId"@[0] == 'p');
    reveal_with_fuel(text_before, 2);
    let o = match origin {
        Some(o) => Some(JsonTree::Text(o)),
        None => None,
    };
    let p = match parent {
        Some(p) => Some(JsonTree::Text(p)),
        None => None,
    };
    let t0 = JsonTree::object();
    let t1 = t0.with_some("origin"@, o);
    lemma_with_some(t0, "origin"@, o);
    lemma_with_some(t1, "parentSessionId"@, p);
    let t = header_tree(parent, origin);
    assert(t.get("origin"@) == o);
    assert(t.get("parentSessionId"@) == p);
    let s = t->Object_0;
    assert(s.len() <= 2);
    assert(ascending(s));
    assert forall|i: int| 0 <= i < s.len() implies (#[trigger] s[i]).1.canonical() by {}
    assert forall|i: int| 0 <= i < s.len() implies (#[trigger] s[i]).1.plain_within(126) by {}
}

/// Writes a header. It reads back as what it says.
pub fn write_session_header(parent: &Option<String>, origin: &Option<String>) -> (r: String)
    ensures
        r@ == value_text(header_tree(text_view(*parent), text_view(*origin))),
        parsed_value(r@) == read_ok(header_tree(text_view(*parent), text_view(*origin))),
        header_from(header_tree(text_view(*parent), text_view(*origin))) == (
            text_view(*parent),
            text_view(*origin),
        ),
{
    let doc = Json::object().with_some("origin", text_json(origin)).with_some(
        "parentSessionId",
        text_json(parent),
    );
    proof {
        lemma_header(text_view(*parent), text_view(*origin));
    }
    render(&doc)
}

// What the list takes out of a log.

/// The first of some texts that another stands in.
pub open spec fn first_with(all: Seq<Seq<char>>, part: Seq<char>) -> Option<Seq<char>>
    decreases all.len(),
{
    if all.len() == 0 {
        None
    } else if has_part(all[0], part) {
        Some(all[0])
    } else {
        first_with(all.drop_first(), part)
    }
}

/// The text of the first message of the user in the text of a log.
pub open spec fn log_title(text: Seq<char>) -> Option<Seq<char>> {
    match first_with(lines_of(text), "\"user/message\""@) {
        Some(line) => match parsed_value(line) {
            Ok(t) => t.at("data"@).at("content"@).as_text(),
            Err(_) => None,
        },
        None => None,
    }
}

/// What the list takes out of the text of a log: whether no turn has started,
/// and the text of the first message of the user.
pub fn derive_list_facts(text: &str) -> (r: (bool, Option<String>))
    ensures
        r.0 == !has_part(text@, "\"turn/start\""@),
        text_view(r.1) == log_title(text@),
{
    let blank = !contains(text, "\"turn/start\"");
    let all = lines(text);
    let ghost views = lines_of(text@);
    let mut i: usize = 0;
    assert(views.skip(0) =~= views);
    while i < all.len()
        invariant
            i <= all.len(),
            all@.map_values(|l: String| l@) == views,
            views == lines_of(text@),
            blank == !has_part(text@, "\"turn/start\""@),
            first_with(views, "\"user/message\""@) == first_with(
                views.skip(i as int),
                "\"user/message\""@,
            ),
        decreases all.len() - i,
    {
        let line = all[i].as_str();
        proof {
            assert(views[i as int] == all@[i as int]@);
            assert(views.skip(i as int)[0] == line@);
            assert(views.skip(i as int).drop_first() =~= views.skip(i + 1));
        }
        if contains(line, "\"user/message\"") {
            return (
                blank,
                match parse(line) {
                    Ok(v) => match member(&v, "data").str_at("content") {
                        Some(s) => Some(s.to_owned()),
                        None => None,
                    },
                    Err(_) => None,
                },
            );
        }
        i = i + 1;
    }
    (blank, None)
}

// The list.

/// A list with one more session, behind those that changed no earlier.
pub open spec fn placed(all: Seq<SessionSummary>, s: SessionSummary) -> Seq<SessionSummary>
    decreases all.len(),
{
    if all.len() == 0 || all.last().updated_at >= s.updated_at {
        all.push(s)
    } else {
        placed(all.drop_last(), s).push(all.last())
    }
}

/// Sessions with the last changed ones first; those that changed at the same
/// time stay in order.
pub open spec fn latest_first(all: Seq<SessionSummary>) -> Seq<SessionSummary>
    decreases all.len(),
{
    if all.len() == 0 {
        Seq::empty()
    } else {
        placed(latest_first(all.drop_last()), all.last())
    }
}

fn place(out: &mut Vec<SessionSummary>, s: SessionSummary)
    ensures
        final(out)@ == placed(old(out)@, s),
{
    let ghost all = out@;
    let mut k: usize = out.len();
    proof {
        assert(all.take(k as int) =~= all);
        assert(placed(all.take(k as int), s) + all.skip(k as int) =~= placed(all, s));
    }
    while k > 0 && out[k - 1].updated_at < s.updated_at
        invariant
            k <= out.len(),
            out@ == all,
            placed(all, s) == placed(all.take(k as int), s) + all.skip(k as int),
        decreases k,
    {
        proof {
            assert(all.take(k as int).last() == all[k - 1]);
            assert(all.take(k as int).drop_last() =~= all.take(k - 1));
            let head = placed(all.take(k - 1), s);
            assert(head.push(all[k - 1]) + all.skip(k as int) =~= head + all.skip(k - 1));
        }
        k = k - 1;
    }
    proof {
        if k > 0 {
            assert(all.take(k as int).last() == all[k - 1]);
        }
        assert(placed(all.take(k as int), s) == all.take(k as int).push(s));
        assert(all.take(k as int).push(s) + all.skip(k as int) =~= all.insert(k as int, s));
    }
    out.insert(k, s);
}

/// Orders sessions: the last changed ones first.
pub fn sort_sessions(items: Vec<SessionSummary>) -> (r: Vec<SessionSummary>)
    ensures
        r@ == latest_first(items@),
{
    let ghost all = items@;
    let mut rest = items;
    let mut out: Vec<SessionSummary> = Vec::new();
    let ghost mut i: int = 0;
    assert(all.take(0) =~= Seq::empty());
    while rest.len() > 0
        invariant
            0 <= i,
            i + rest@.len() == all.len(),
            rest@ == all.skip(i),
            out@ == latest_first(all.take(i)),
        decreases rest.len(),
    {
        assert(all.skip(i)[0] == all[i]);
        let s = rest.remove(0);
        proof {
            assert(all.skip(i).remove(0) =~= all.skip(i + 1));
            assert(all.take(i + 1).drop_last() =~= all.take(i));
            assert(all.take(i + 1).last() == s);
        }
        place(&mut out, s);
        proof {
            i = i + 1;
        }
    }
    assert(all.take(all.len() as int) =~= all);
    out
}

proof fn lemma_placed(all: Seq<SessionSummary>, s: SessionSummary)
    requires
        forall|i: int, j: int|
            0 <= i < j < all.len() ==> (#[trigger] all[i]).updated_at >= (
            #[trigger] all[j]).updated_at,
    ensures
        forall|i: int, j: int|
            0 <= i < j < placed(all, s).len() ==> (#[trigger] placed(all, s)[i]).updated_at >= (
            #[trigger] placed(all, s)[j]).updated_at,
        placed(all, s).to_multiset() == all.push(s).to_multiset(),
        placed(all, s).len() == all.len() + 1,
        forall|i: int|
            0 <= i < placed(all, s).len() ==> (#[trigger] placed(all, s)[i]).updated_at
                >= s.updated_at || (all.len() > 0 && placed(all, s)[i].updated_at
                >= all.last().updated_at),
    decreases all.len(),
{
    let out = placed(all, s);
    if all.len() == 0 || all.last().updated_at >= s.updated_at {
        assert forall|i: int, j: int| 0 <= i < j < out.len() implies (
        #[trigger] out[i]).updated_at >= (#[trigger] out[j]).updated_at by {
            if j == all.len() {
                if i < all.len() - 1 {
                    assert(all[i].updated_at >= all[all.len() - 1].updated_at);
                }
            }
        }
        assert forall|i: int| 0 <= i < out.len() implies (#[trigger] out[i]).updated_at
            >= s.updated_at || (all.len() > 0 && out[i].updated_at >= all.last().updated_at) by {
            if i < all.len() - 1 {
                assert(all[i].updated_at >= all[all.len() - 1].updated_at);
            }
        }
    } else {
        let rest = all.drop_last();
        assert forall|i: int, j: int| 0 <= i < j < rest.len() implies (
        #[trigger] rest[i]).updated_at >= (#[trigger] rest[j]).updated_at by {
            assert(rest[i] == all[i] && rest[j] == all[j]);
        }
        lemma_placed(rest, s);
        let head = placed(rest, s);
        assert forall|i: int| 0 <= i < head.len() implies (#[trigger] head[i]).updated_at
            >= all.last().updated_at by {
            if rest.len() > 0 {
                assert(all[rest.len() - 1].updated_at >= all[all.len() - 1].updated_at);
            }
        }
        assert forall|i: int, j: int| 0 <= i < j < out.len() implies (
        #[trigger] out[i]).updated_at >= (#[trigger] out[j]).updated_at by {
            if j < head.len() {
                assert(out[i] == head[i] && out[j] == head[j]);
            } else {
                assert(out[i] == head[i]);
            }
        }
        assert forall|i: int| 0 <= i < out.len() implies (#[trigger] out[i]).updated_at
            >= s.updated_at || (all.len() > 0 && out[i].updated_at >= all.last().updated_at) by {
            if i < head.len() {
                assert(out[i] == head[i]);
            }
        }
        vstd::seq_lib::to_multiset_insert(all, all.len() as int, s);
        vstd::seq_lib::to_multiset_insert(rest, rest.len() as int, s);
        vstd::seq_lib::to_multiset_insert(rest, rest.len() as int, all.last());
        vstd::seq_lib::to_multiset_insert(head, head.len() as int, all.last());
        assert(all.insert(all.len() as int, s) =~= all.push(s));
        assert(rest.insert(rest.len() as int, s) =~= rest.push(s));
        assert(rest.insert(rest.len() as int, all.last()) =~= all);
        assert(head.insert(head.len() as int, all.last()) =~= out);
        assert(out.to_multiset() =~= all.push(s).to_multiset());
    }
}

/// The ordered list has each session once, the last changed ones first.
pub proof fn law_list_is_ordered(all: Seq<SessionSummary>)
    ensures
        forall|i: int, j: int|
            0 <= i < j < latest_first(all).len() ==> (#[trigger] latest_first(all)[i]).updated_at
                >= (#[trigger] latest_first(all)[j]).updated_at,
        latest_first(all).to_multiset() == all.to_multiset(),
    decreases all.len(),
{
    if all.len() > 0 {
        let rest = all.drop_last();
        law_list_is_ordered(rest);
        lemma_placed(latest_first(rest), all.last());
        let head = latest_first(rest);
        vstd::seq_lib::to_multiset_insert(head, head.len() as int, all.last());
        vstd::seq_lib::to_multiset_insert(rest, rest.len() as int, all.last());
        assert(head.insert(head.len() as int, all.last()) =~= head.push(all.last()));
        assert(rest.insert(rest.len() as int, all.last()) =~= all);
        assert(latest_first(all).to_multiset() =~= all.to_multiset());
    } else {
        assert(latest_first(all) =~= all);
    }
}

/// A header says where a session comes from and how, by two members; what is written of
/// them is read back, whichever of them there are.
pub proof fn law_header_comes_back(parent: Option<Seq<char>>, origin: Option<Seq<char>>)
    ensures
        header_from(header_tree(parent, origin)) == (parent, origin),
        parent matches Some(p) ==> header_tree(parent, origin).at("parentSessionId"@)
            == JsonTree::Text(p),
        origin matches Some(o) ==> header_tree(parent, origin).at("origin"@) == JsonTree::Text(o),
{
    reveal_strlit("origin");
    reveal_strlit("parentSessionId");
    assert("origin"@.len() == 6 && "parentSessionId"@.len() == 15);
    let o = match origin {
        Some(o) => Some(JsonTree::Text(o)),
        None => None,
    };
    let p = match parent {
        Some(p) => Some(JsonTree::Text(p)),
        None => None,
    };
    let t0 = JsonTree::object();
    let t1 = t0.with_some("origin"@, o);
    lemma_with_some(t0, "origin"@, o);
    lemma_with_some(t1, "parentSessionId"@, p);
    let t = header_tree(parent, origin);
    assert(t.get("origin"@) == o);
    assert(t.get("parentSessionId"@) == p);
}

/// The title that a log gives is the content of its first line with a message of the
/// user: the first one in which the words stand, and no later one.
pub proof fn law_log_title_is_first_message(text: Seq<char>, i: int)
    requires
        0 <= i < lines_of(text).len(),
        has_part(lines_of(text)[i], "\"user/message\""@),
        forall|k: int| 0 <= k < i ==> !has_part(#[trigger] lines_of(text)[k], "\"user/message\""@),
    ensures
        log_title(text) == match parsed_value(lines_of(text)[i]) {
            Ok(t) => match t.at("data"@).at("content"@) {
                JsonTree::Text(s) => Some(s),
                _ => None,
            },
            Err(_) => None,
        },
{
    lemma_first_with_is(lines_of(text), "\"user/message\""@, i);
}

proof fn lemma_first_with_is(all: Seq<Seq<char>>, part: Seq<char>, i: int)
    requires
        0 <= i < all.len(),
        has_part(all[i], part),
        forall|k: int| 0 <= k < i ==> !has_part(#[trigger] all[k], part),
    ensures
        first_with(all, part) == Some(all[i]),
    decreases i,
{
    if i > 0 {
        assert(!has_part(all[0], part));
        let rest = all.drop_first();
        assert forall|k: int| 0 <= k < i - 1 implies !has_part(#[trigger] rest[k], part) by {
            assert(rest[k] == all[k + 1]);
        }
        lemma_first_with_is(rest, part, i - 1);
    }
}

/// Sessions that changed at one time stay in the order in which they were found.
pub proof fn law_ties_keep_their_order(all: Seq<SessionSummary>, t: u64)
    ensures
        latest_first(all).filter(|s: SessionSummary| s.updated_at == t) == all.filter(
            |s: SessionSummary| s.updated_at == t,
        ),
{
    lemma_ties(all, t, |s: SessionSummary| s.updated_at == t);
}

proof fn lemma_ties(all: Seq<SessionSummary>, t: u64, at: spec_fn(SessionSummary) -> bool)
    requires
        forall|s: SessionSummary| #[trigger] at(s) == (s.updated_at == t),
    ensures
        latest_first(all).filter(at) == all.filter(at),
    decreases all.len(),
{
    reveal(Seq::filter);
    if all.len() > 0 {
        let rest = all.drop_last();
        lemma_ties(rest, t, at);
        law_list_is_ordered(rest);
        lemma_placed_ties(latest_first(rest), all.last(), t, at);
    }
}

proof fn lemma_placed_ties(
    all: Seq<SessionSummary>,
    s: SessionSummary,
    t: u64,
    at: spec_fn(SessionSummary) -> bool,
)
    requires
        forall|s: SessionSummary| #[trigger] at(s) == (s.updated_at == t),
        forall|i: int, j: int|
            0 <= i < j < all.len() ==> (#[trigger] all[i]).updated_at >= (
            #[trigger] all[j]).updated_at,
    ensures
        placed(all, s).filter(at) == if s.updated_at == t {
            all.filter(at).push(s)
        } else {
            all.filter(at)
        },
    decreases all.len(),
{
    reveal(Seq::filter);
    if all.len() == 0 || all.last().updated_at >= s.updated_at {
        assert(all.push(s).drop_last() =~= all);
        assert(at(s) == (s.updated_at == t));
    } else {
        let rest = all.drop_last();
        assert forall|i: int, j: int| 0 <= i < j < rest.len() implies (
        #[trigger] rest[i]).updated_at >= (#[trigger] rest[j]).updated_at by {
            assert(rest[i] == all[i] && rest[j] == all[j]);
        }
        lemma_placed_ties(rest, s, t, at);
        let out = placed(rest, s).push(all.last());
        assert(out.drop_last() =~= placed(rest, s));
        assert(out.last() == all.last());
        assert(at(all.last()) == (all.last().updated_at == t));
        if s.updated_at == t && all.last().updated_at == t {
            assert(false);
        }
    }
}

} // verus!
