//! What users say of messages, each under a version that a change must name.
use vstd::prelude::*;
use vstd::string::*;
use vstd::utf8::encode_utf8;

use crate::ids::{is_hyphenated_uuid, timed_id};
use crate::interact::{str_view, text_view};
use crate::json::{
    Json, JsonTree, has_entry, int_tree, lemma_with, lemma_with_some, member, text_json, trees,
};
use crate::settings::copy_text;
use crate::text::{
    chars_of, lemma_position, lemma_position_at, lemma_position_none, position, same, trim, trimmed,
};

verus! {

/// What was said of a message.
#[derive(Debug, PartialEq)]
pub struct MessageFeedbackItem {
    pub message_id: String,
    /// `positive` or `negative`.
    pub rating: String,
    pub note: Option<String>,
    /// It changes with every change; a change must name the one before it.
    pub version: String,
    pub created_at: i64,
    pub updated_at: i64,
}

/// The model of [`MessageFeedbackItem`].
pub struct FeedbackView {
    pub message_id: Seq<char>,
    pub rating: Seq<char>,
    pub note: Option<Seq<char>>,
    pub version: Seq<char>,
    pub created_at: i64,
    pub updated_at: i64,
}

impl View for MessageFeedbackItem {
    type V = FeedbackView;

    open spec fn view(&self) -> FeedbackView {
        FeedbackView {
            message_id: self.message_id@,
            rating: self.rating@,
            note: text_view(self.note),
            version: self.version@,
            created_at: self.created_at,
            updated_at: self.updated_at,
        }
    }
}

impl MessageFeedbackItem {
    /// A second one that is the same as this one.
    pub fn copy(&self) -> (r: MessageFeedbackItem)
        ensures
            r == *self,
    {
        MessageFeedbackItem {
            message_id: self.message_id.clone(),
            rating: self.rating.clone(),
            note: copy_text(&self.note),
            version: self.version.clone(),
            created_at: self.created_at,
            updated_at: self.updated_at,
        }
    }
}

/// How what was said of a message stands in its file.
pub open spec fn feedback_tree(i: FeedbackView) -> JsonTree {
    JsonTree::object().with("messageId"@, JsonTree::Text(i.message_id)).with(
        "rating"@,
        JsonTree::Text(i.rating),
    ).with_some(
        "note"@,
        match i.note {
            Some(n) => Some(JsonTree::Text(n)),
            None => None,
        },
    ).with("version"@, JsonTree::Text(i.version)).with("createdAt"@, int_tree(i.created_at)).with(
        "updatedAt"@,
        int_tree(i.updated_at),
    )
}

/// What a value says of a message, where it says all that it must.
pub open spec fn feedback_from(t: JsonTree) -> Option<FeedbackView> {
    let id = t.at("messageId"@).as_text();
    let rating = t.at("rating"@).as_text();
    let version = t.at("version"@).as_text();
    let created = t.at("createdAt"@).as_int();
    let updated = t.at("updatedAt"@).as_int();
    if id is Some && rating is Some && version is Some && created is Some && updated is Some && (
    t.at("note"@) is Null || t.at("note"@) is Text) {
        Some(
            FeedbackView {
                message_id: id->0,
                rating: rating->0,
                note: t.at("note"@).as_text(),
                version: version->0,
                created_at: created->0,
                updated_at: updated->0,
            },
        )
    } else {
        None
    }
}

/// What an array says of messages, where each item says all that it must.
pub open spec fn feedback_list_from(t: JsonTree) -> Option<Seq<FeedbackView>> {
    match t {
        JsonTree::Array(items) => if forall|i: int|
            0 <= i < items.len() ==> feedback_from(#[trigger] items[i]) is Some {
            Some(items.map_values(|x: JsonTree| feedback_from(x)->0))
        } else {
            None
        },
        _ => None,
    }
}

impl MessageFeedbackItem {
    /// How it stands in its file.
    pub fn to_json(&self) -> (r: Json)
        ensures
            r@ == feedback_tree(self@),
    {
        Json::object().with("messageId", Json::text(self.message_id.as_str())).with(
            "rating",
            Json::text(self.rating.as_str()),
        ).with_some("note", text_json(&self.note)).with(
            "version",
            Json::text(self.version.as_str()),
        ).with("createdAt", Json::integer(self.created_at)).with(
            "updatedAt",
            Json::integer(self.updated_at),
        )
    }

    /// Reads it out of JSON.
    pub fn from_json(j: &Json) -> (r: Option<MessageFeedbackItem>)
        ensures
            match r {
                Some(v) => feedback_from(j@) == Some(v@),
                None => feedback_from(j@) is None,
            },
    {
        let note: Option<String> = match member(j, "note") {
            Json::Null => None,
            Json::Text(s) => Some(s),
            _ => {
                return None;
            },
        };
        match (
            j.str_at("messageId"),
            j.str_at("rating"),
            j.str_at("version"),
            j.i64_at("createdAt"),
            j.i64_at("updatedAt"),
        ) {
            (Some(id), Some(rating), Some(version), Some(created_at), Some(updated_at)) => Some(
                MessageFeedbackItem {
                    message_id: id.to_owned(),
                    rating: rating.to_owned(),
                    note,
                    version: version.to_owned(),
                    created_at,
                    updated_at,
                },
            ),
            _ => None,
        }
    }
}

/// All that was said in a session, as it stands in its file.
pub fn feedback_json(items: &Vec<MessageFeedbackItem>) -> (r: Json)
    ensures
        r@ == JsonTree::Array(feedback_views(items@).map_values(|i: FeedbackView| feedback_tree(i))),
{
    let ghost wanted = feedback_views(items@).map_values(|i: FeedbackView| feedback_tree(i));
    let mut out: Vec<Json> = Vec::new();
    let mut i: usize = 0;
    while i < items.len()
        invariant
            i <= items.len(),
            wanted == feedback_views(items@).map_values(|i: FeedbackView| feedback_tree(i)),
            trees(out@) == wanted.take(i as int),
        decreases items.len() - i,
    {
        let j = items[i].to_json();
        proof {
            assert(trees(out@.push(j)) =~= trees(out@).push(j@));
            assert(wanted.take(i + 1) =~= wanted.take(i as int).push(wanted[i as int]));
        }
        out.push(j);
        i = i + 1;
    }
    assert(wanted.take(wanted.len() as int) =~= wanted);
    Json::array(out)
}

/// All that was said in a session, where its file holds it.
pub fn read_feedback(j: &Json) -> (r: Option<Vec<MessageFeedbackItem>>)
    ensures
        match r {
            Some(v) => feedback_list_from(j@) == Some(feedback_views(v@)),
            None => feedback_list_from(j@) is None,
        },
{
    let items = match j.as_array() {
        Some(v) => v,
        None => {
            return None;
        },
    };
    let ghost all = trees(items@);
    let mut out: Vec<MessageFeedbackItem> = Vec::new();
    let mut i: usize = 0;
    while i < items.len()
        invariant
            i <= items.len(),
            all == trees(items@),
            j@ == JsonTree::Array(all),
            out@.len() == i,
            forall|k: int| 0 <= k < i ==> feedback_from(#[trigger] all[k]) == Some(out@[k]@),
        decreases items.len() - i,
    {
        assert(all[i as int] == items@[i as int]@);
        match MessageFeedbackItem::from_json(&items[i]) {
            Some(v) => {
                out.push(v);
            },
            None => {
                assert(feedback_from(j@->Array_0[i as int]) is None);
                return None;
            },
        }
        i = i + 1;
    }
    assert(all.map_values(|x: JsonTree| feedback_from(x)->0) =~= feedback_views(out@));
    Some(out)
}

/// What is written of messages is read back as it was.
pub proof fn law_feedback_round_trip(items: Seq<FeedbackView>)
    ensures
        feedback_list_from(
            JsonTree::Array(items.map_values(|i: FeedbackView| feedback_tree(i))),
        ) == Some(items),
{
    let all = items.map_values(|i: FeedbackView| feedback_tree(i));
    assert forall|k: int| 0 <= k < all.len() implies feedback_from(#[trigger] all[k]) == Some(
        items[k],
    ) by {
        lemma_feedback_item(items[k]);
    }
    assert(all.map_values(|x: JsonTree| feedback_from(x)->0) =~= items);
}

proof fn lemma_feedback_item(i: FeedbackView)
    ensures
        feedback_from(feedback_tree(i)) == Some(i),
{
    reveal_strlit("messageId");
    reveal_strlit("rating");
    reveal_strlit("note");
    reveal_strlit("version");
    reveal_strlit("createdAt");
    reveal_strlit("updatedAt");
    assert("messageId"@.len() == 9 && "rating"@.len() == 6 && "note"@.len() == 4 && "version"@.len()
        == 7 && "createdAt"@.len() == 9 && "updatedAt"@.len() == 9 && "messageId"@[0] == 'm'
        && "createdAt"@[0] == 'c' && "updatedAt"@[0] == 'u');
    let note = match i.note {
        Some(n) => Some(JsonTree::Text(n)),
        None => None,
    };
    let t0 = JsonTree::object();
    let t1 = t0.with("messageId"@, JsonTree::Text(i.message_id));
    let t2 = t1.with("rating"@, JsonTree::Text(i.rating));
    let t3 = t2.with_some("note"@, note);
    let t4 = t3.with("version"@, JsonTree::Text(i.version));
    let t5 = t4.with("createdAt"@, int_tree(i.created_at));
    let t6 = t5.with("updatedAt"@, int_tree(i.updated_at));
    lemma_with(t0, "messageId"@, JsonTree::Text(i.message_id));
    lemma_with(t1, "rating"@, JsonTree::Text(i.rating));
    lemma_with_some(t2, "note"@, note);
    lemma_with(t3, "version"@, JsonTree::Text(i.version));
    lemma_with(t4, "createdAt"@, int_tree(i.created_at));
    lemma_with(t5, "updatedAt"@, int_tree(i.updated_at));
    assert(t6 == feedback_tree(i));
    assert(t6.get("messageId"@) == Some(JsonTree::Text(i.message_id)));
    assert(t6.get("rating"@) == Some(JsonTree::Text(i.rating)));
    assert(t6.get("note"@) == note);
    assert(t6.get("version"@) == Some(JsonTree::Text(i.version)));
    assert(t6.get("createdAt"@) == Some(int_tree(i.created_at)));
    assert(t6.get("updatedAt"@) == Some(int_tree(i.updated_at)));
}

pub open spec fn feedback_views(v: Seq<MessageFeedbackItem>) -> Seq<FeedbackView> {
    v.map_values(|i: MessageFeedbackItem| i@)
}

/// The messages of which something was said.
pub open spec fn message_ids(v: Seq<FeedbackView>) -> Seq<Seq<char>> {
    v.map_values(|i: FeedbackView| i.message_id)
}

/// Where what users say is kept, and how long a note may be.
#[derive(Debug, PartialEq)]
pub struct MessageFeedbackStore {
    pub root: String,
    pub max_note_bytes: usize,
}

/// A note without the white space around it; none where nothing is left.
pub open spec fn kept_note(note: Option<Seq<char>>) -> Option<Seq<char>> {
    match note {
        Some(n) => if trimmed(n).len() == 0 {
            None
        } else {
            Some(trimmed(n))
        },
        None => None,
    }
}

/// What comes of saying something of a message: all that was said then, and
/// what was said of this message, or why it is refused. A message of which
/// something was said is changed by naming its version; one of which nothing
/// was said, by naming none.
pub open spec fn put_view(
    items: Seq<FeedbackView>,
    limit: usize,
    message_id: Seq<char>,
    rating: Seq<char>,
    note: Option<Seq<char>>,
    if_version: Option<Seq<char>>,
    fresh: Seq<char>,
    now: i64,
) -> Result<(Seq<FeedbackView>, FeedbackView), Seq<char>> {
    let kept = kept_note(note);
    if rating != "positive"@ && rating != "negative"@ {
        Err("rating 必须为 positive/negative"@)
    } else if kept is Some && encode_utf8(kept->0).len() as usize > limit {
        Err("note-too-large"@)
    } else {
        match position(message_ids(items), message_id) {
            Some(k) => if if_version == Some(items[k].version) {
                let changed = FeedbackView {
                    rating,
                    note: kept,
                    version: fresh,
                    updated_at: now,
                    ..items[k]
                };
                Ok((items.update(k, changed), changed))
            } else {
                Err("version-conflict"@)
            },
            None => if if_version is None {
                let made = FeedbackView {
                    message_id,
                    rating,
                    note: kept,
                    version: fresh,
                    created_at: now,
                    updated_at: now,
                };
                Ok((items.push(made), made))
            } else {
                Err("version-conflict"@)
            },
        }
    }
}

/// What comes of taking back what was said of a message.
pub open spec fn delete_view(
    items: Seq<FeedbackView>,
    message_id: Seq<char>,
    if_version: Seq<char>,
) -> Result<(Seq<FeedbackView>, FeedbackView), Seq<char>> {
    match position(message_ids(items), message_id) {
        Some(k) => if items[k].version == if_version {
            Ok((items.remove(k), items[k]))
        } else {
            Err("version-conflict"@)
        },
        None => Err("version-conflict"@),
    }
}

/// A text with hyphens for slashes.
pub open spec fn unslashed(s: Seq<char>) -> Seq<char> {
    s.map_values(
        |c: char|
            if c == '/' {
                '-'
            } else {
                c
            },
    )
}

fn find_item(items: &Vec<MessageFeedbackItem>, id: &str) -> (r: Option<usize>)
    ensures
        match r {
            Some(k) => position(message_ids(feedback_views(items@)), id@) == Some(k as int) && k
                < items.len(),
            None => position(message_ids(feedback_views(items@)), id@) is None,
        },
{
    let ghost ids = message_ids(feedback_views(items@));
    let mut i: usize = 0;
    while i < items.len()
        invariant
            i <= items.len(),
            ids == message_ids(feedback_views(items@)),
            forall|j: int| 0 <= j < i ==> ids[j] != id@,
        decreases items.len() - i,
    {
        assert(ids[i as int] == items@[i as int].message_id@);
        if same(items[i].message_id.as_str(), id) {
            proof {
                lemma_position_at(ids, id@, i as int);
            }
            return Some(i);
        }
        i = i + 1;
    }
    proof {
        lemma_position_none(ids, id@);
    }
    None
}

impl MessageFeedbackStore {
    /// A store under a directory; a note may have 8192 bytes.
    pub fn new(root: &str) -> (r: MessageFeedbackStore)
        ensures
            r.root@ == root@,
            r.max_note_bytes == 8192,
    {
        MessageFeedbackStore { root: root.to_owned(), max_note_bytes: 8192 }
    }

    /// The name of the file, under the directory, of a session.
    pub fn file_name(&self, session_id: &str) -> (r: String)
        ensures
            r@ == unslashed(session_id@) + ".json"@,
    {
        let v = chars_of(session_id);
        let ghost wanted = unslashed(session_id@);
        let mut name = String::new();
        let mut i: usize = 0;
        while i < v.len()
            invariant
                i <= v.len(),
                v@ == session_id@,
                wanted == unslashed(session_id@),
                name@ == wanted.take(i as int),
            decreases v.len() - i,
        {
            name.push(
                if v[i] == '/' {
                    '-'
                } else {
                    v[i]
                },
            );
            assert(wanted.take(i + 1) =~= wanted.take(i as int).push(wanted[i as int]));
            i = i + 1;
        }
        assert(wanted.take(wanted.len() as int) =~= wanted);
        name.append(".json");
        name
    }

    /// All that was said in a session, given what its file was found to hold:
    /// nothing where it could not be read.
    pub fn list(&self, stored: Option<Vec<MessageFeedbackItem>>) -> (r: Vec<MessageFeedbackItem>)
        ensures
            match stored {
                Some(v) => r == v,
                None => r@.len() == 0,
            },
    {
        match stored {
            Some(v) => v,
            None => Vec::new(),
        }
    }

    /// Says something of a message, under a given version.
    pub fn put_as(
        &self,
        items: &mut Vec<MessageFeedbackItem>,
        message_id: &str,
        rating: &str,
        note: Option<&str>,
        if_version: Option<&str>,
        fresh: String,
        now: i64,
    ) -> (r: Result<MessageFeedbackItem, String>)
        ensures
            match put_view(
                feedback_views(old(items)@),
                self.max_note_bytes,
                message_id@,
                rating@,
                str_view(note),
                str_view(if_version),
                fresh@,
                now,
            ) {
                Ok((after, item)) => r is Ok && r->Ok_0@ == item && feedback_views(final(items)@)
                    == after,
                Err(e) => r is Err && r->Err_0@ == e && final(items)@ == old(items)@,
            },
    {
        if !same(rating, "positive") && !same(rating, "negative") {
            return Err("rating 必须为 positive/negative".to_owned());
        }
        let kept: Option<String> = match note {
            Some(n) => {
                let t = trim(n);
                if t.as_str().is_empty() {
                    None
                } else {
                    Some(t)
                }
            },
            None => None,
        };
        if let Some(n) = &kept {
            if n.as_str().len() > self.max_note_bytes {
                return Err("note-too-large".to_owned());
            }
        }
        let ghost before = feedback_views(items@);
        match find_item(items, message_id) {
            Some(k) => {
                let matches_version = match if_version {
                    Some(v) => same(items[k].version.as_str(), v),
                    None => false,
                };
                if !matches_version {
                    return Err("version-conflict".to_owned());
                }
                let ghost first = items@;
                let was = items.remove(k);
                assert(was == first[k as int]);
                assert(was@ == before[k as int]);
                let it = MessageFeedbackItem {
                    message_id: was.message_id,
                    rating: rating.to_owned(),
                    note: kept,
                    version: fresh,
                    created_at: was.created_at,
                    updated_at: now,
                };
                let out = it.copy();
                items.insert(k, it);
                proof {
                    assert(feedback_views(items@) =~= before.update(k as int, out@));
                }
                Ok(out)
            },
            None => {
                if if_version.is_some() {
                    return Err("version-conflict".to_owned());
                }
                let it = MessageFeedbackItem {
                    message_id: message_id.to_owned(),
                    rating: rating.to_owned(),
                    note: kept,
                    version: fresh,
                    created_at: now,
                    updated_at: now,
                };
                let out = it.copy();
                items.push(it);
                proof {
                    assert(feedback_views(items@) =~= before.push(out@));
                }
                Ok(out)
            },
        }
    }

    /// Says something of a message, under a fresh version.
    pub fn put(
        &self,
        items: &mut Vec<MessageFeedbackItem>,
        message_id: &str,
        rating: &str,
        note: Option<&str>,
        if_version: Option<&str>,
        now: i64,
    ) -> (r: Result<MessageFeedbackItem, String>)
        ensures
            exists|fresh: Seq<char>|
                is_hyphenated_uuid(fresh) && match #[trigger] put_view(
                    feedback_views(old(items)@),
                    self.max_note_bytes,
                    message_id@,
                    rating@,
                    str_view(note),
                    str_view(if_version),
                    fresh,
                    now,
                ) {
                    Ok((after, item)) => r is Ok && r->Ok_0@ == item && feedback_views(
                        final(items)@,
                    ) == after,
                    Err(e) => r is Err && r->Err_0@ == e && final(items)@ == old(items)@,
                },
    {
        let fresh = timed_id();
        self.put_as(items, message_id, rating, note, if_version, fresh, now)
    }

    /// Takes back what was said of a message.
    pub fn delete(
        &self,
        items: &mut Vec<MessageFeedbackItem>,
        message_id: &str,
        if_version: &str,
    ) -> (r: Result<MessageFeedbackItem, String>)
        ensures
            match delete_view(feedback_views(old(items)@), message_id@, if_version@) {
                Ok((after, item)) => r is Ok && r->Ok_0@ == item && feedback_views(final(items)@)
                    == after,
                Err(e) => r is Err && r->Err_0@ == e && final(items)@ == old(items)@,
            },
    {
        let ghost before = feedback_views(items@);
        match find_item(items, message_id) {
            Some(k) => {
                if !same(items[k].version.as_str(), if_version) {
                    return Err("version-conflict".to_owned());
                }
                let gone = items.remove(k);
                proof {
                    assert(gone@ == before[k as int]);
                    assert(feedback_views(items@) =~= before.remove(k as int));
                }
                Ok(gone)
            },
            None => Err("version-conflict".to_owned()),
        }
    }
}

/// Of no message something is said twice.
pub open spec fn one_each(items: Seq<FeedbackView>) -> bool {
    forall|i: int, j: int|
        0 <= i < j < items.len() ==> (#[trigger] items[i]).message_id != (
        #[trigger] items[j]).message_id
}

/// Of no message something is said twice, whatever is said or taken back.
pub proof fn law_one_each(
    items: Seq<FeedbackView>,
    limit: usize,
    message_id: Seq<char>,
    rating: Seq<char>,
    note: Option<Seq<char>>,
    if_version: Option<Seq<char>>,
    fresh: Seq<char>,
    now: i64,
)
    requires
        one_each(items),
    ensures
        put_view(items, limit, message_id, rating, note, if_version, fresh, now) matches Ok((after, _))
            ==> one_each(after),
        delete_view(items, message_id, fresh) matches Ok((after, _)) ==> one_each(after),
{
    lemma_position(message_ids(items), message_id);
    assert forall|j: int| 0 <= j < items.len() implies message_ids(items)[j] == (
    #[trigger] items[j]).message_id by {}
    match put_view(items, limit, message_id, rating, note, if_version, fresh, now) {
        Ok((after, item)) => {
            assert forall|i: int, j: int| 0 <= i < j < after.len() implies (
            #[trigger] after[i]).message_id != (#[trigger] after[j]).message_id by {
                if position(message_ids(items), message_id) is None && j == items.len() {
                    assert(message_ids(items)[i] != message_id);
                } else {
                    assert(items[i].message_id != items[j].message_id);
                }
            }
        },
        Err(_) => {},
    }
    match delete_view(items, message_id, fresh) {
        Ok((after, item)) => {
            let k = position(message_ids(items), message_id)->0;
            assert forall|i: int, j: int| 0 <= i < j < after.len() implies (
            #[trigger] after[i]).message_id != (#[trigger] after[j]).message_id by {
                let i2 = if i < k {
                    i
                } else {
                    i + 1
                };
                let j2 = if j < k {
                    j
                } else {
                    j + 1
                };
                assert(after[i] == items[i2] && after[j] == items[j2]);
            }
        },
        Err(_) => {},
    }
}

/// A change that names a version that is no longer the current one is refused,
/// and so is one that names none where something was said.
pub proof fn law_stale_version_is_refused(
    items: Seq<FeedbackView>,
    limit: usize,
    message_id: Seq<char>,
    rating: Seq<char>,
    note: Option<Seq<char>>,
    if_version: Option<Seq<char>>,
    fresh: Seq<char>,
    now: i64,
    k: int,
)
    requires
        position(message_ids(items), message_id) == Some(k),
        if_version != Some(items[k].version),
    ensures
        put_view(items, limit, message_id, rating, note, if_version, fresh, now) is Err,
        if_version is Some ==> delete_view(items, message_id, if_version->0) is Err,
{
}

/// What is kept of what was said, after something was said of a message or refused.
pub open spec fn kept_after(
    items: Seq<FeedbackView>,
    said: Result<(Seq<FeedbackView>, FeedbackView), Seq<char>>,
) -> Seq<FeedbackView> {
    match said {
        Ok((after, item)) => after,
        Err(_) => items,
    }
}

/// Saying something of a message changes what is kept of that message and nothing else.
/// What is refused changes nothing. Where something was said of the message before, it
/// is replaced in its place, and keeps the time at which it was first said; else it
/// comes last. All others keep their place, and of no message something is said twice.
/// The version is the fresh one, so it is another one than before where the fresh one
/// is. What is kept is read back from its file as it is.
pub proof fn law_put_changes_one(
    items: Seq<FeedbackView>,
    limit: usize,
    message_id: Seq<char>,
    rating: Seq<char>,
    note: Option<Seq<char>>,
    if_version: Option<Seq<char>>,
    fresh: Seq<char>,
    now: i64,
)
    requires
        one_each(items),
    ensures
        ({
            let said = put_view(items, limit, message_id, rating, note, if_version, fresh, now);
            let kept = kept_after(items, said);
            let it = said->Ok_0.1;
            let place = position(message_ids(items), message_id);
            let k = place->0;
            &&& said is Err ==> kept == items
            &&& said is Ok ==> it.message_id == message_id && it.rating == rating && it.note
                == kept_note(note) && it.version == fresh && it.updated_at == now
            &&& said is Ok && place is Some ==> 0 <= k < items.len() && items[k].message_id
                == message_id && kept == items.update(k, it) && it.created_at == items[k].created_at
                && (fresh != items[k].version ==> it.version != items[k].version)
            &&& said is Ok && place is None ==> !message_ids(items).contains(message_id) && kept
                == items.push(it) && it.created_at == now
            &&& forall|i: int|
                0 <= i < items.len() && (#[trigger] items[i]).message_id != message_id ==> kept[i]
                    == items[i]
            &&& one_each(kept)
            &&& feedback_list_from(
                JsonTree::Array(kept.map_values(|i: FeedbackView| feedback_tree(i))),
            ) == Some(kept)
        }),
{
    let said = put_view(items, limit, message_id, rating, note, if_version, fresh, now);
    let kept = kept_after(items, said);
    let ids = message_ids(items);
    lemma_position(ids, message_id);
    assert forall|j: int| 0 <= j < items.len() implies ids[j] == (
    #[trigger] items[j]).message_id by {}
    law_one_each(items, limit, message_id, rating, note, if_version, fresh, now);
    law_feedback_round_trip(kept);
}

/// Taking back what was said of a message takes that and nothing else, and only under the
/// version that it has; else nothing changes.
pub proof fn law_delete_takes_one(
    items: Seq<FeedbackView>,
    message_id: Seq<char>,
    if_version: Seq<char>,
)
    requires
        one_each(items),
    ensures
        ({
            let r = delete_view(items, message_id, if_version);
            &&& r is Ok <==> exists|i: int|
                0 <= i < items.len() && (#[trigger] items[i]).message_id == message_id
                    && items[i].version == if_version
            &&& r matches Ok((after, gone)) ==> gone.message_id == message_id && items.contains(gone)
                && after.len() == items.len() - 1 && !message_ids(after).contains(message_id)
                && forall|x: FeedbackView|
                x.message_id != message_id && #[trigger] items.contains(x) ==> after.contains(x)
        }),
{
    let ids = message_ids(items);
    lemma_position(ids, message_id);
    assert forall|j: int| 0 <= j < items.len() implies ids[j] == (
    #[trigger] items[j]).message_id by {}
    match position(ids, message_id) {
        Some(k) => {
            assert(items[k].message_id == message_id);
            assert forall|i: int|
                0 <= i < items.len() && (#[trigger] items[i]).message_id
                    == message_id implies i == k by {
                assert(i == k || i < k || k < i);
            }
            let after = items.remove(k);
            assert(!message_ids(after).contains(message_id)) by {
                if message_ids(after).contains(message_id) {
                    let j = choose|j: int|
                        0 <= j < message_ids(after).len() && message_ids(after)[j] == message_id;
                    let m = if j < k {
                        j
                    } else {
                        j + 1
                    };
                    assert(items[m].message_id == message_id);
                }
            }
            assert forall|x: FeedbackView|
                x.message_id != message_id && #[trigger] items.contains(x) implies after.contains(
                x,
            ) by {
                let j = choose|j: int| 0 <= j < items.len() && items[j] == x;
                let m = if j < k {
                    j
                } else {
                    j - 1
                };
                assert(after[m] == x);
            }
        },
        None => {},
    }
}

/// A note is kept without the white space around it; a blank one is none.
pub proof fn law_note_is_kept_tidy(n: Seq<char>)
    ensures
        crate::text::is_blank(n) ==> kept_note(Some(n)) is None,
        !crate::text::is_blank(n) ==> kept_note(Some(n)) == Some(trimmed(n)),
        kept_note(None) is None,
{
    crate::text::law_trimmed_takes_white_space(n);
}

/// The name of the file that holds what was said is that of the session, with a hyphen for
/// each slash and all else as it is; so it has no slash.
pub proof fn law_file_is_named_by_session(s: Seq<char>, i: int)
    requires
        0 <= i < s.len(),
    ensures
        unslashed(s).len() == s.len(),
        unslashed(s)[i] != '/',
        s[i] != '/' ==> unslashed(s)[i] == s[i],
        s[i] == '/' ==> unslashed(s)[i] == '-',
{
}

/// What was said of a message, in the file: each thing under its own name, and read from
/// there.
pub proof fn law_feedback_members(i: FeedbackView, t: JsonTree, v: FeedbackView)
    ensures
        has_entry(feedback_tree(i), "messageId"@, JsonTree::Text(i.message_id)),
        has_entry(feedback_tree(i), "rating"@, JsonTree::Text(i.rating)),
        i.note matches Some(n) ==> has_entry(feedback_tree(i), "note"@, JsonTree::Text(n)),
        has_entry(feedback_tree(i), "version"@, JsonTree::Text(i.version)),
        has_entry(feedback_tree(i), "createdAt"@, int_tree(i.created_at)),
        has_entry(feedback_tree(i), "updatedAt"@, int_tree(i.updated_at)),
        feedback_from(t) == Some(v) ==> t.at("messageId"@) == JsonTree::Text(v.message_id) && t.at(
            "rating"@,
        ) == JsonTree::Text(v.rating) && t.at("version"@) == JsonTree::Text(v.version) && t.at(
            "createdAt"@,
        ).as_int() == Some(v.created_at) && t.at("updatedAt"@).as_int() == Some(v.updated_at) && (
        v.note matches Some(n) ==> t.at("note"@) == JsonTree::Text(n)) && (v.note is None ==> t.at(
            "note"@,
        ) is Null),
        feedback_from(t) is Some <==> t.at("messageId"@) is Text && t.at("rating"@) is Text && t.at(
            "version"@,
        ) is Text && t.at("createdAt"@).as_int() is Some && t.at("updatedAt"@).as_int() is Some
            && (t.at("note"@) is Null || t.at("note"@) is Text),
{
    let n = i.note is Some;
    let a = feedback_tree(i)->Object_0;
    assert(a[0].0 == "messageId"@ && a[1].0 == "rating"@);
    if n {
        assert(a[2].0 == "note"@ && a[3].0 == "version"@ && a[4].0 == "createdAt"@ && a[5].0
            == "updatedAt"@);
    } else {
        assert(a[2].0 == "version"@ && a[3].0 == "createdAt"@ && a[4].0 == "updatedAt"@);
    }
}

/// What is not taken back is refused for its version, and only for that.
pub proof fn law_refusals_are_conflicts(
    items: Seq<FeedbackView>,
    message_id: Seq<char>,
    if_version: Seq<char>,
)
    ensures
        delete_view(items, message_id, if_version) matches Err(e) ==> e == "version-conflict"@,
        !message_ids(items).contains(message_id) ==> delete_view(
            items,
            message_id,
            if_version,
        ) is Err,
{
    lemma_position(message_ids(items), message_id);
}

/// When something said of a message is taken: the rating is one of the two, the note is not
/// too long, and the version named is the one that is kept, or none where nothing is kept.
/// Each of the three has its own refusal, in this order.
pub proof fn law_what_is_said_is_taken(
    items: Seq<FeedbackView>,
    limit: usize,
    message_id: Seq<char>,
    rating: Seq<char>,
    note: Option<Seq<char>>,
    if_version: Option<Seq<char>>,
    fresh: Seq<char>,
    now: i64,
)
    requires
        one_each(items),
    ensures
        ({
            let said = put_view(items, limit, message_id, rating, note, if_version, fresh, now);
            let rated = rating == "positive"@ || rating == "negative"@;
            let short = kept_note(note) matches Some(n) ==> encode_utf8(n).len() as usize <= limit;
            let current = match if_version {
                Some(v) => exists|i: int|
                    0 <= i < items.len() && (#[trigger] items[i]).message_id == message_id
                        && items[i].version == v,
                None => forall|i: int|
                    0 <= i < items.len() ==> (#[trigger] items[i]).message_id != message_id,
            };
            &&& said is Ok <==> rated && short && current
            &&& rated && !short ==> said == Err::<(Seq<FeedbackView>, FeedbackView), Seq<char>>(
                "note-too-large"@,
            )
            &&& rated && short && !current ==> said == Err::<
                (Seq<FeedbackView>, FeedbackView),
                Seq<char>,
            >("version-conflict"@)
        }),
{
    let ids = message_ids(items);
    lemma_position(ids, message_id);
    assert forall|j: int| 0 <= j < items.len() implies ids[j] == (
    #[trigger] items[j]).message_id by {}
    match position(ids, message_id) {
        Some(k) => {
            assert(items[k].message_id == message_id);
            assert forall|i: int|
                0 <= i < items.len() && (#[trigger] items[i]).message_id
                    == message_id implies i == k by {
                assert(i == k || i < k || k < i);
            }
        },
        None => {},
    }
}

} // verus!
