//! JSON values as plain data.
//!
//! `Json` holds a value, `JsonTree` is its mathematical model. Reading text,
//! writing text and evaluating a JSONPath are done by `serde_json` and
//! `jsonpath_rust`; the functions that call them are the trusted items at the
//! end of this file.
use jsonpath_rust::JsonPath;
use vstd::prelude::*;
use vstd::string::*;

use crate::text::{same, text_before};

verus! {

/// A number: a natural number, a negative integer, or one that is no integer
/// and is carried through as it came.
#[derive(Debug, PartialEq)]
pub enum Num {
    Unsigned(u64),
    Negative(i64),
    Real(serde_json::Number),
}

/// A JSON value.
#[derive(Debug, PartialEq)]
pub enum Json {
    Null,
    Bool(bool),
    Number(Num),
    Text(String),
    Array(Vec<Json>),
    Object(Vec<(String, Json)>),
}

/// What a JSON value is: the model that the contracts speak of.
pub enum JsonTree {
    Null,
    Bool(bool),
    Number(Num),
    Text(Seq<char>),
    Array(Seq<JsonTree>),
    Object(Seq<(Seq<char>, JsonTree)>),
}

/// The value of the first entry under `key`.
pub open spec fn lookup(entries: Seq<(Seq<char>, JsonTree)>, key: Seq<char>) -> Option<JsonTree>
    decreases entries.len(),
{
    if entries.len() == 0 {
        None
    } else if entries[0].0 == key {
        Some(entries[0].1)
    } else {
        lookup(entries.drop_first(), key)
    }
}

/// Keys that grow strictly from entry to entry.
pub open spec fn ascending(entries: Seq<(Seq<char>, JsonTree)>) -> bool {
    forall|i: int, j: int|
        0 <= i < j < entries.len() ==> text_before(
            (#[trigger] entries[i]).0,
            (#[trigger] entries[j]).0,
        )
}

impl JsonTree {
    /// The object without entries.
    pub open spec fn object() -> JsonTree {
        JsonTree::Object(Seq::empty())
    }

    /// An object with one more entry at its end.
    pub open spec fn with(self, key: Seq<char>, value: JsonTree) -> JsonTree {
        match self {
            JsonTree::Object(entries) => JsonTree::Object(entries.push((key, value))),
            _ => self,
        }
    }

    /// The member under `key`, where the value is an object that has one.
    pub open spec fn get(self, key: Seq<char>) -> Option<JsonTree> {
        match self {
            JsonTree::Object(entries) => lookup(entries, key),
            _ => None,
        }
    }

    /// The member under `key`; `Null` where there is none.
    pub open spec fn at(self, key: Seq<char>) -> JsonTree {
        match self.get(key) {
            Some(t) => t,
            None => JsonTree::Null,
        }
    }

    /// The characters of a text value.
    pub open spec fn as_text(self) -> Option<Seq<char>> {
        match self {
            JsonTree::Text(s) => Some(s),
            _ => None,
        }
    }

    /// The number where it is a natural number.
    pub open spec fn as_nat(self) -> Option<u64> {
        match self {
            JsonTree::Number(Num::Unsigned(n)) => Some(n),
            _ => None,
        }
    }

    /// The truth value of a boolean.
    pub open spec fn as_truth(self) -> Option<bool> {
        match self {
            JsonTree::Bool(b) => Some(b),
            _ => None,
        }
    }

    /// The items of an array.
    pub open spec fn as_items(self) -> Option<Seq<JsonTree>> {
        match self {
            JsonTree::Array(s) => Some(s),
            _ => None,
        }
    }

    /// The entries of an object.
    pub open spec fn as_entries(self) -> Option<Seq<(Seq<char>, JsonTree)>> {
        match self {
            JsonTree::Object(s) => Some(s),
            _ => None,
        }
    }

    /// The one way of writing a value: the keys of each object ascend, and each
    /// number stands under the variant that its value calls for.
    pub open spec fn canonical(self) -> bool
        decreases self,
    {
        match self {
            JsonTree::Number(Num::Negative(n)) => n < 0,
            JsonTree::Number(Num::Real(n)) => number_integer(n) is None,
            JsonTree::Array(s) => forall|i: int| 0 <= i < s.len() ==> (#[trigger] s[i]).canonical(),
            JsonTree::Object(s) => {
                &&& ascending(s)
                &&& forall|i: int| 0 <= i < s.len() ==> (#[trigger] s[i]).1.canonical()
            },
            _ => true,
        }
    }

    /// No more than `n` arrays and objects lie inside one another, and no number
    /// is anything but an integer.
    pub open spec fn plain_within(self, n: nat) -> bool
        decreases self,
    {
        match self {
            JsonTree::Number(Num::Real(_)) => false,
            JsonTree::Array(s) => n > 0 && forall|i: int|
                0 <= i < s.len() ==> (#[trigger] s[i]).plain_within((n - 1) as nat),
            JsonTree::Object(s) => n > 0 && forall|i: int|
                0 <= i < s.len() ==> (#[trigger] s[i]).1.plain_within((n - 1) as nat),
            _ => true,
        }
    }
}

impl Json {
    /// The model of a value.
    pub open spec fn tree(self) -> JsonTree
        decreases self,
    {
        match self {
            Json::Null => JsonTree::Null,
            Json::Bool(b) => JsonTree::Bool(b),
            Json::Number(n) => JsonTree::Number(n),
            Json::Text(s) => JsonTree::Text(s@),
            Json::Array(v) => JsonTree::Array(
                Seq::new(
                    v@.len(),
                    |i: int|
                        if 0 <= i < v@.len() {
                            v@[i].tree()
                        } else {
                            JsonTree::Null
                        },
                ),
            ),
            Json::Object(v) => JsonTree::Object(
                Seq::new(
                    v@.len(),
                    |i: int|
                        if 0 <= i < v@.len() {
                            (v@[i].0@, v@[i].1.tree())
                        } else {
                            (Seq::empty(), JsonTree::Null)
                        },
                ),
            ),
        }
    }
}

impl View for Json {
    type V = JsonTree;

    open spec fn view(&self) -> JsonTree {
        self.tree()
    }
}

/// The models of a run of values.
pub open spec fn trees(v: Seq<Json>) -> Seq<JsonTree> {
    v.map_values(|j: Json| j@)
}

/// The models of a run of object entries.
pub open spec fn entry_trees(v: Seq<(String, Json)>) -> Seq<(Seq<char>, JsonTree)> {
    v.map_values(|e: (String, Json)| (e.0@, e.1@))
}

pub proof fn lemma_tree_of_array(v: Vec<Json>)
    ensures
        Json::Array(v)@ == JsonTree::Array(trees(v@)),
{
    assert(Json::Array(v)@->Array_0 =~= trees(v@));
}

pub proof fn lemma_tree_of_object(v: Vec<(String, Json)>)
    ensures
        Json::Object(v)@ == JsonTree::Object(entry_trees(v@)),
{
    assert(Json::Object(v)@->Object_0 =~= entry_trees(v@));
}

/// Looking up skips an entry with another key.
proof fn lemma_lookup_skip(entries: Seq<(Seq<char>, JsonTree)>, key: Seq<char>, i: int)
    requires
        0 <= i < entries.len(),
        entries[i].0 != key,
    ensures
        lookup(entries.skip(i), key) == lookup(entries.skip(i + 1), key),
{
    assert(entries.skip(i)[0] == entries[i]);
    assert(entries.skip(i).drop_first() =~= entries.skip(i + 1));
}

/// What an added entry changes: the looked-up value of its own key, where the
/// object had none.
pub proof fn lemma_lookup_push(
    entries: Seq<(Seq<char>, JsonTree)>,
    key: Seq<char>,
    value: JsonTree,
    wanted: Seq<char>,
)
    ensures
        lookup(entries.push((key, value)), wanted) == match lookup(entries, wanted) {
            Some(t) => Some(t),
            None => if key == wanted {
                Some(value)
            } else {
                None
            },
        },
    decreases entries.len(),
{
    reveal_with_fuel(lookup, 2);
    let more = entries.push((key, value));
    if entries.len() == 0 {
        assert(more.drop_first() =~= Seq::empty());
    } else {
        assert(more.drop_first() =~= entries.drop_first().push((key, value)));
        lemma_lookup_push(entries.drop_first(), key, value, wanted);
    }
}

impl JsonTree {
    /// The object with one more entry, where there is something to put in.
    pub open spec fn with_some(self, key: Seq<char>, value: Option<JsonTree>) -> JsonTree {
        match value {
            Some(v) => self.with(key, v),
            None => self,
        }
    }
}

/// What an added entry changes, for every key.
pub proof fn lemma_with(t: JsonTree, key: Seq<char>, value: JsonTree)
    requires
        t is Object,
    ensures
        t.with(key, value) is Object,
        forall|w: Seq<char>|
            #![trigger t.with(key, value).get(w)]
            t.with(key, value).get(w) == match t.get(w) {
                Some(v) => Some(v),
                None => if key == w {
                    Some(value)
                } else {
                    None
                },
            },
{
    assert forall|w: Seq<char>| #![trigger t.with(key, value).get(w)] t.with(key, value).get(w)
        == match t.get(w) {
        Some(v) => Some(v),
        None => if key == w {
            Some(value)
        } else {
            None
        },
    } by {
        lemma_lookup_push(t->Object_0, key, value, w);
    }
}

/// What an entry that may be added changes, for every key.
pub proof fn lemma_with_some(t: JsonTree, key: Seq<char>, value: Option<JsonTree>)
    requires
        t is Object,
    ensures
        t.with_some(key, value) is Object,
        forall|w: Seq<char>|
            #![trigger t.with_some(key, value).get(w)]
            t.with_some(key, value).get(w) == match t.get(w) {
                Some(v) => Some(v),
                None => if key == w {
                    value
                } else {
                    None
                },
            },
{
    if value is Some {
        lemma_with(t, key, value->0);
    }
}

impl Clone for Num {
    fn clone(&self) -> (r: Num)
        ensures
            r == *self,
    {
        match self {
            Num::Unsigned(n) => Num::Unsigned(*n),
            Num::Negative(n) => Num::Negative(*n),
            Num::Real(n) => Num::Real(n.clone()),
        }
    }
}

impl Clone for Json {
    fn clone(&self) -> (r: Json)
        ensures
            r@ == self@,
    {
        self.copy()
    }
}

impl Json {
    /// A text value.
    pub fn text(s: &str) -> (r: Json)
        ensures
            r@ == JsonTree::Text(s@),
    {
        Json::Text(s.to_owned())
    }

    /// A natural number.
    pub fn number(n: u64) -> (r: Json)
        ensures
            r@ == JsonTree::Number(Num::Unsigned(n)),
    {
        Json::Number(Num::Unsigned(n))
    }

    /// A text value, or `Null` where there is none.
    pub fn text_or_null(s: Option<&str>) -> (r: Json)
        ensures
            r@ == (match s {
                Some(t) => JsonTree::Text(t@),
                None => JsonTree::Null,
            }),
    {
        match s {
            Some(t) => Json::text(t),
            None => Json::Null,
        }
    }

    /// The object without entries.
    pub fn object() -> (r: Json)
        ensures
            r@ == JsonTree::object(),
    {
        let v: Vec<(String, Json)> = Vec::new();
        proof {
            lemma_tree_of_object(v);
            assert(entry_trees(v@) =~= Seq::empty());
        }
        Json::Object(v)
    }

    /// An array of values.
    pub fn array(v: Vec<Json>) -> (r: Json)
        ensures
            r@ == JsonTree::Array(trees(v@)),
    {
        proof {
            lemma_tree_of_array(v);
        }
        Json::Array(v)
    }

    /// The object with one more entry; a value that is no object stays as it is.
    pub fn with(self, key: &str, value: Json) -> (r: Json)
        ensures
            r@ == self@.with(key@, value@),
    {
        match self {
            Json::Object(mut v) => {
                proof {
                    lemma_tree_of_object(v);
                }
                let ghost before = v@;
                v.push((key.to_owned(), value));
                proof {
                    lemma_tree_of_object(v);
                    assert(entry_trees(v@) =~= entry_trees(before).push((key@, value@)));
                }
                Json::Object(v)
            },
            other => other,
        }
    }

    /// The object with one more entry, where there is something to put in.
    pub fn with_some(self, key: &str, value: Option<Json>) -> (r: Json)
        ensures
            r@ == self@.with_some(
                key@,
                match value {
                    Some(v) => Some(v@),
                    None => None,
                },
            ),
    {
        match value {
            Some(v) => self.with(key, v),
            None => self,
        }
    }

    /// The member under `key`, where the value is an object that has one.
    pub fn get(&self, key: &str) -> (r: Option<&Json>)
        ensures
            match r {
                Some(j) => self@.get(key@) == Some(j@),
                None => self@.get(key@) is None,
            },
            r matches Some(j) ==> decreases_to!(self => j),
    {
        match self {
            Json::Object(v) => {
                let ghost all = entry_trees(v@);
                proof {
                    lemma_tree_of_object(*v);
                    assert(all.skip(0) =~= all);
                }
                let mut i: usize = 0;
                while i < v.len()
                    invariant
                        i <= v.len(),
                        all == entry_trees(v@),
                        lookup(all, key@) == lookup(all.skip(i as int), key@),
                        *self == Json::Object(*v),
                        self@ == JsonTree::Object(all),
                    decreases v.len() - i,
                {
                    assert(all.skip(i as int)[0] == all[i as int]);
                    if same(v[i].0.as_str(), key) {
                        let hit = &v[i].1;
                        assert(decreases_to!(v@ => v@[i as int]));
                        return Some(hit);
                    }
                    proof {
                        lemma_lookup_skip(all, key@, i as int);
                    }
                    i = i + 1;
                }
                None
            },
            _ => None,
        }
    }

    /// The characters of a text value.
    pub fn as_str(&self) -> (r: Option<&str>)
        ensures
            match r {
                Some(s) => self@.as_text() == Some(s@),
                None => self@.as_text() is None,
            },
    {
        match self {
            Json::Text(s) => Some(s.as_str()),
            _ => None,
        }
    }

    /// The number where it is a natural number.
    pub fn as_u64(&self) -> (r: Option<u64>)
        ensures
            r == self@.as_nat(),
    {
        match self {
            Json::Number(Num::Unsigned(n)) => Some(*n),
            _ => None,
        }
    }

    /// The truth value of a boolean.
    pub fn as_bool(&self) -> (r: Option<bool>)
        ensures
            r == self@.as_truth(),
    {
        match self {
            Json::Bool(b) => Some(*b),
            _ => None,
        }
    }

    /// The items of an array.
    pub fn as_array(&self) -> (r: Option<&Vec<Json>>)
        ensures
            match r {
                Some(v) => self@.as_items() == Some(trees(v@)) && *self == Json::Array(*v),
                None => self@.as_items() is None,
            },
    {
        match self {
            Json::Array(v) => {
                proof {
                    lemma_tree_of_array(*v);
                }
                Some(v)
            },
            _ => None,
        }
    }

    /// The entries of an object.
    pub fn as_object(&self) -> (r: Option<&Vec<(String, Json)>>)
        ensures
            match r {
                Some(v) => self@.as_entries() == Some(entry_trees(v@)) && *self == Json::Object(*v),
                None => self@.as_entries() is None,
            },
    {
        match self {
            Json::Object(v) => {
                proof {
                    lemma_tree_of_object(*v);
                }
                Some(v)
            },
            _ => None,
        }
    }

    /// The text of the member under `key`, where there is one.
    pub fn str_at(&self, key: &str) -> (r: Option<&str>)
        ensures
            match r {
                Some(s) => self@.at(key@).as_text() == Some(s@),
                None => self@.at(key@).as_text() is None,
            },
    {
        match self.get(key) {
            Some(j) => j.as_str(),
            None => None,
        }
    }

    /// The natural number under `key`, where there is one.
    pub fn u64_at(&self, key: &str) -> (r: Option<u64>)
        ensures
            r == self@.at(key@).as_nat(),
    {
        match self.get(key) {
            Some(j) => j.as_u64(),
            None => None,
        }
    }

    /// The truth value under `key`, where there is one.
    pub fn bool_at(&self, key: &str) -> (r: Option<bool>)
        ensures
            r == self@.at(key@).as_truth(),
    {
        match self.get(key) {
            Some(j) => j.as_bool(),
            None => None,
        }
    }

    /// A second value that is the same as this one.
    #[verifier::loop_isolation(false)]
    pub fn copy(&self) -> (r: Json)
        ensures
            r@ == self@,
        decreases self,
    {
        match self {
            Json::Null => Json::Null,
            Json::Bool(b) => Json::Bool(*b),
            Json::Number(n) => Json::Number(n.clone()),
            Json::Text(s) => Json::Text(s.clone()),
            Json::Array(v) => {
                let mut out: Vec<Json> = Vec::new();
                let mut i: usize = 0;
                while i < v.len()
                    invariant
                        i <= v.len(),
                        *self == Json::Array(*v),
                        trees(out@) == trees(v@).take(i as int),
                    decreases v.len() - i,
                {
                    assert(decreases_to!(v@ => v@[i as int]));
                    let item = v[i].copy();
                    proof {
                        assert(trees(out@.push(item)) =~= trees(out@).push(item@));
                        assert(trees(v@).take(i + 1) =~= trees(v@).take(i as int).push(v@[i as int]@));
                    }
                    out.push(item);
                    i = i + 1;
                }
                proof {
                    assert(trees(v@).take(v@.len() as int) =~= trees(v@));
                    lemma_tree_of_array(*v);
                    lemma_tree_of_array(out);
                }
                Json::Array(out)
            },
            Json::Object(v) => {
                let mut out: Vec<(String, Json)> = Vec::new();
                let mut i: usize = 0;
                while i < v.len()
                    invariant
                        i <= v.len(),
                        *self == Json::Object(*v),
                        entry_trees(out@) == entry_trees(v@).take(i as int),
                    decreases v.len() - i,
                {
                    assert(decreases_to!(v@ => v@[i as int]));
                    let item = (v[i].0.clone(), v[i].1.copy());
                    proof {
                        assert(entry_trees(out@.push(item)) =~= entry_trees(out@).push((item.0@, item.1@)));
                        assert(entry_trees(v@).take(i + 1) =~= entry_trees(v@).take(i as int).push(
                            (v@[i as int].0@, v@[i as int].1@),
                        ));
                    }
                    out.push(item);
                    i = i + 1;
                }
                proof {
                    assert(entry_trees(v@).take(v@.len() as int) =~= entry_trees(v@));
                    lemma_tree_of_object(*v);
                    lemma_tree_of_object(out);
                }
                Json::Object(out)
            },
        }
    }

    /// Reads a value out of `serde_json`'s representation.
    #[verifier::loop_isolation(false)]
    pub fn from_value(v: serde_json::Value) -> (r: Json)
        ensures
            r@ == value_tree(v),
            r@.canonical(),
        decreases value_tree(v),
    {
        match open_value(v) {
            ValueParts::Null => Json::Null,
            ValueParts::Bool(b) => Json::Bool(b),
            ValueParts::Number(n) => Json::Number(num_from(n)),
            ValueParts::Text(s) => Json::Text(s),
            ValueParts::Array(items) => {
                let ghost whole = value_tree(v);
                let ghost all = items@;
                let mut rest = items;
                let mut out: Vec<Json> = Vec::new();
                while rest.len() > 0
                    invariant
                        whole == value_tree(v),
                        whole == JsonTree::Array(value_trees(all)),
                        rest@ == all.skip(out@.len() as int),
                        out@.len() + rest@.len() == all.len(),
                        forall|k: int|
                            0 <= k < out@.len() ==> (#[trigger] out@[k])@ == value_tree(all[k])
                                && out@[k]@.canonical(),
                    decreases rest.len(),
                {
                    let ghost k = out@.len() as int;
                    assert(all.skip(k)[0] == all[k]);
                    assert(value_trees(all)[k] == value_tree(all[k]));
                    assert(decreases_to!(whole->Array_0 => whole->Array_0[k]));
                    assert(decreases_to!(whole => whole->Array_0));
                    let first = rest.remove(0);
                    assert(first == all[k]);
                    assert(value_tree(first) == whole->Array_0[k]);
                    let item = Json::from_value(first);
                    assert(all.skip(k).remove(0) =~= all.skip(k + 1));
                    out.push(item);
                }
                proof {
                    lemma_tree_of_array(out);
                    assert(trees(out@) =~= value_trees(all));
                    let s = trees(out@);
                    assert forall|i: int| 0 <= i < s.len() implies (#[trigger] s[i]).canonical() by {
                        assert(s[i] == out@[i]@);
                    }
                }
                Json::Array(out)
            },
            ValueParts::Object(items) => {
                let ghost whole = value_tree(v);
                let ghost all = items@;
                let mut rest = items;
                let mut out: Vec<(String, Json)> = Vec::new();
                while rest.len() > 0
                    invariant
                        whole == value_tree(v),
                        whole == JsonTree::Object(value_entries(all)),
                        ascending(value_entries(all)),
                        rest@ == all.skip(out@.len() as int),
                        out@.len() + rest@.len() == all.len(),
                        forall|k: int|
                            0 <= k < out@.len() ==> (#[trigger] out@[k]).0@ == all[k].0@ && out@[k].1@
                                == value_tree(all[k].1) && out@[k].1@.canonical(),
                    decreases rest.len(),
                {
                    let ghost k = out@.len() as int;
                    assert(all.skip(k)[0] == all[k]);
                    assert(value_entries(all)[k] == (all[k].0@, value_tree(all[k].1)));
                    assert(decreases_to!(whole->Object_0 => whole->Object_0[k]));
                    assert(decreases_to!(whole->Object_0[k] => whole->Object_0[k].1));
                    assert(decreases_to!(whole => whole->Object_0));
                    let (key, first) = rest.remove(0);
                    assert(value_tree(first) == whole->Object_0[k].1);
                    let item = Json::from_value(first);
                    assert(all.skip(k).remove(0) =~= all.skip(k + 1));
                    out.push((key, item));
                }
                proof {
                    lemma_tree_of_object(out);
                    assert(entry_trees(out@) =~= value_entries(all));
                    let s = entry_trees(out@);
                    assert forall|i: int| 0 <= i < s.len() implies (#[trigger] s[i]).1.canonical() by {
                        assert(s[i].1 == out@[i].1@);
                    }
                }
                Json::Object(out)
            },
        }
    }

    /// Hands a value over in `serde_json`'s representation.
    #[verifier::loop_isolation(false)]
    pub fn to_value(&self) -> (r: serde_json::Value)
        requires
            self@.canonical(),
        ensures
            value_tree(r) == self@,
        decreases self,
    {
        match self {
            Json::Null => make_value(ValueParts::Null),
            Json::Bool(b) => make_value(ValueParts::Bool(*b)),
            Json::Number(n) => match n {
                Num::Unsigned(n) => make_value(ValueParts::Number(number_from_u64(*n))),
                Num::Negative(n) => make_value(ValueParts::Number(number_from_i64(*n))),
                Num::Real(n) => make_value(ValueParts::Number(n.clone())),
            },
            Json::Text(s) => make_value(ValueParts::Text(s.clone())),
            Json::Array(v) => {
                proof {
                    lemma_tree_of_array(*v);
                }
                let mut out: Vec<serde_json::Value> = Vec::new();
                let mut i: usize = 0;
                while i < v.len()
                    invariant
                        i <= v.len(),
                        *self == Json::Array(*v),
                        self@ == JsonTree::Array(trees(v@)),
                        self@.canonical(),
                        out@.len() == i,
                        forall|k: int| 0 <= k < i ==> value_tree(#[trigger] out@[k]) == trees(v@)[k],
                    decreases v.len() - i,
                {
                    assert(decreases_to!(v@ => v@[i as int]));
                    assert(self@->Array_0[i as int].canonical());
                    out.push(v[i].to_value());
                    i = i + 1;
                }
                proof {
                    assert(value_trees(out@) =~= trees(v@));
                }
                make_value(ValueParts::Array(out))
            },
            Json::Object(v) => {
                proof {
                    lemma_tree_of_object(*v);
                }
                let mut out: Vec<(String, serde_json::Value)> = Vec::new();
                let mut i: usize = 0;
                while i < v.len()
                    invariant
                        i <= v.len(),
                        *self == Json::Object(*v),
                        self@ == JsonTree::Object(entry_trees(v@)),
                        self@.canonical(),
                        out@.len() == i,
                        forall|k: int|
                            0 <= k < i ==> (#[trigger] out@[k]).0@ == entry_trees(v@)[k].0
                                && value_tree(out@[k].1) == entry_trees(v@)[k].1,
                    decreases v.len() - i,
                {
                    assert(decreases_to!(v@ => v@[i as int]));
                    assert(self@->Object_0[i as int].1.canonical());
                    out.push((v[i].0.clone(), v[i].1.to_value()));
                    i = i + 1;
                }
                proof {
                    assert(value_entries(out@) =~= entry_trees(v@));
                }
                make_value(ValueParts::Object(out))
            },
        }
    }
}

impl JsonTree {
    /// The number where it is an integer that an `i64` can hold.
    pub open spec fn as_int(self) -> Option<i64> {
        match self {
            JsonTree::Number(Num::Unsigned(n)) => if n <= i64::MAX {
                Some(n as i64)
            } else {
                None
            },
            JsonTree::Number(Num::Negative(n)) => Some(n),
            _ => None,
        }
    }
}

/// An integer as a value.
pub open spec fn int_tree(n: i64) -> JsonTree {
    if n >= 0 {
        JsonTree::Number(Num::Unsigned(n as u64))
    } else {
        JsonTree::Number(Num::Negative(n))
    }
}

impl Json {
    /// An integer as a value.
    pub fn integer(n: i64) -> (r: Json)
        ensures
            r@ == int_tree(n),
    {
        if n >= 0 {
            Json::Number(Num::Unsigned(n as u64))
        } else {
            Json::Number(Num::Negative(n))
        }
    }

    /// The number where it is an integer that an `i64` can hold.
    pub fn as_i64(&self) -> (r: Option<i64>)
        ensures
            r == self@.as_int(),
    {
        match self {
            Json::Number(Num::Unsigned(n)) => if *n <= 0x7fff_ffff_ffff_ffff {
                Some(*n as i64)
            } else {
                None
            },
            Json::Number(Num::Negative(n)) => Some(*n),
            _ => None,
        }
    }

    /// The integer under `key`, where there is one.
    pub fn i64_at(&self, key: &str) -> (r: Option<i64>)
        ensures
            r == self@.at(key@).as_int(),
    {
        match self.get(key) {
            Some(j) => j.as_i64(),
            None => None,
        }
    }

    /// Whether the value is an object.
    pub fn is_object(&self) -> (r: bool)
        ensures
            r == (self@ is Object),
    {
        match self {
            Json::Object(_) => true,
            _ => false,
        }
    }
}

/// The place of the first entry under a key; the number of entries where there
/// is none.
pub open spec fn entry_place(entries: Seq<(Seq<char>, JsonTree)>, key: Seq<char>) -> int
    decreases entries.len(),
{
    if entries.len() == 0 || entries[0].0 == key {
        0
    } else {
        1 + entry_place(entries.drop_first(), key)
    }
}

impl JsonTree {
    /// The object with a value under a key, in the place of what stood there;
    /// `Null` counts as the object without entries.
    pub open spec fn set(self, key: Seq<char>, value: JsonTree) -> JsonTree {
        match self {
            JsonTree::Object(entries) => {
                let k = entry_place(entries, key);
                if k < entries.len() {
                    JsonTree::Object(entries.update(k, (key, value)))
                } else {
                    JsonTree::Object(entries.push((key, value)))
                }
            },
            JsonTree::Null => JsonTree::object().with(key, value),
            _ => self,
        }
    }
}

proof fn lemma_entry_place(entries: Seq<(Seq<char>, JsonTree)>, key: Seq<char>, k: int)
    requires
        0 <= k <= entries.len(),
        k < entries.len() ==> entries[k].0 == key,
        forall|i: int| 0 <= i < k ==> (#[trigger] entries[i]).0 != key,
    ensures
        entry_place(entries, key) == k,
    decreases k,
{
    if k > 0 {
        assert(entries[0].0 != key);
        let rest = entries.drop_first();
        assert forall|i: int| 0 <= i < k - 1 implies (#[trigger] rest[i]).0 != key by {
            assert(rest[i] == entries[i + 1]);
        }
        lemma_entry_place(rest, key, k - 1);
    }
}

/// What is set is what is found under its key, and nothing else changes.
pub proof fn lemma_set(t: JsonTree, key: Seq<char>, value: JsonTree, wanted: Seq<char>)
    requires
        t is Object || t is Null,
    ensures
        t.set(key, value).get(wanted) == (if key == wanted {
            Some(value)
        } else {
            t.get(wanted)
        }),
{
    match t {
        JsonTree::Object(entries) => {
            lemma_set_entries(entries, key, value, wanted);
        },
        _ => {
            lemma_with(JsonTree::object(), key, value);
        },
    }
}

proof fn lemma_set_entries(
    entries: Seq<(Seq<char>, JsonTree)>,
    key: Seq<char>,
    value: JsonTree,
    wanted: Seq<char>,
)
    ensures
        0 <= entry_place(entries, key) <= entries.len(),
        lookup(
            if entry_place(entries, key) < entries.len() {
                entries.update(entry_place(entries, key), (key, value))
            } else {
                entries.push((key, value))
            },
            wanted,
        ) == (if key == wanted {
            Some(value)
        } else {
            lookup(entries, wanted)
        }),
    decreases entries.len(),
{
    reveal_with_fuel(lookup, 2);
    if entries.len() > 0 {
        let rest = entries.drop_first();
        let k = entry_place(entries, key);
        if entries[0].0 == key {
            assert(entries.update(0, (key, value)).drop_first() =~= rest);
        } else {
            lemma_set_entries(rest, key, value, wanted);
            if k < entries.len() {
                assert(entries.update(k, (key, value)).drop_first() =~= rest.update(
                    k - 1,
                    (key, value),
                ));
            } else {
                assert(entries.push((key, value)).drop_first() =~= rest.push((key, value)));
            }
        }
    } else {
        assert(entries.push((key, value)).drop_first() =~= Seq::empty());
    }
}

impl Json {
    /// The object with a value under a key, in the place of what stood there;
    /// `Null` becomes an object. No other value can take a member.
    pub fn set(self, key: &str, value: Json) -> (r: Json)
        requires
            self@ is Object || self@ is Null,
        ensures
            r@ == self@.set(key@, value@),
    {
        match self {
            Json::Object(v) => {
                let mut v = v;
                let ghost before = v@;
                let ghost all = entry_trees(v@);
                proof {
                    lemma_tree_of_object(v);
                }
                let mut i: usize = 0;
                while i < v.len() && !same(v[i].0.as_str(), key)
                    invariant
                        i <= v.len(),
                        v@ == before,
                        all == entry_trees(before),
                        forall|k: int| 0 <= k < i ==> (#[trigger] all[k]).0 != key@,
                    decreases v.len() - i,
                {
                    assert(all[i as int].0 == v@[i as int].0@);
                    i = i + 1;
                }
                proof {
                    if i < v.len() {
                        assert(all[i as int].0 == v@[i as int].0@);
                    }
                    lemma_entry_place(all, key@, i as int);
                }
                if i < v.len() {
                    let gone = v.remove(i);
                    v.insert(i, (key.to_owned(), value));
                    proof {
                        assert(entry_trees(v@) =~= all.update(i as int, (key@, value@)));
                    }
                } else {
                    v.push((key.to_owned(), value));
                    proof {
                        assert(entry_trees(v@) =~= all.push((key@, value@)));
                    }
                }
                proof {
                    lemma_tree_of_object(v);
                }
                Json::Object(v)
            },
            Json::Null => Json::object().with(key, value),
            other => other,
        }
    }
}

/// The member under a key; `Null` where there is none.
pub fn member(j: &Json, key: &str) -> (r: Json)
    ensures
        r@ == j@.at(key@),
{
    match j.get(key) {
        Some(v) => v.copy(),
        None => Json::Null,
    }
}

/// The text under a key, where there is one.
pub fn owned_text(j: &Json, key: &str) -> (r: Option<String>)
    ensures
        match r {
            Some(s) => j@.at(key@) == JsonTree::Text(s@),
            None => !(j@.at(key@) is Text),
        },
{
    match j.str_at(key) {
        Some(s) => Some(s.to_owned()),
        None => None,
    }
}

/// The model of a text that may be missing.
pub open spec fn text_option(s: Option<String>) -> Option<JsonTree> {
    match s {
        Some(s) => Some(JsonTree::Text(s@)),
        None => None,
    }
}

/// A text that may be missing, as a value.
pub fn text_json(s: &Option<String>) -> (r: Option<Json>)
    ensures
        json_option(r) == text_option(*s),
{
    match s {
        Some(s) => Some(Json::text(s.as_str())),
        None => None,
    }
}

/// The models of a run of texts.
pub open spec fn text_trees(v: Seq<String>) -> Seq<JsonTree> {
    v.map_values(|s: String| JsonTree::Text(s@))
}

/// A run of texts as an array.
pub fn texts_json(v: &Vec<String>) -> (r: Json)
    ensures
        r@ == JsonTree::Array(text_trees(v@)),
{
    let mut out: Vec<Json> = Vec::new();
    let mut i: usize = 0;
    while i < v.len()
        invariant
            i <= v.len(),
            trees(out@) == text_trees(v@).take(i as int),
        decreases v.len() - i,
    {
        let item = Json::text(v[i].as_str());
        proof {
            assert(trees(out@.push(item)) =~= trees(out@).push(item@));
            assert(text_trees(v@).take(i + 1) =~= text_trees(v@).take(i as int).push(item@));
        }
        out.push(item);
        i = i + 1;
    }
    assert(text_trees(v@).take(v@.len() as int) =~= text_trees(v@));
    Json::array(out)
}

/// The model of a value that may be missing.
pub open spec fn json_option(j: Option<Json>) -> Option<JsonTree> {
    match j {
        Some(j) => Some(j@),
        None => None,
    }
}

/// A second run of values that is the same as this one.
pub fn copy_all(v: &Vec<Json>) -> (r: Vec<Json>)
    ensures
        trees(r@) == trees(v@),
{
    let mut out: Vec<Json> = Vec::new();
    let mut i: usize = 0;
    while i < v.len()
        invariant
            i <= v.len(),
            trees(out@) == trees(v@).take(i as int),
        decreases v.len() - i,
    {
        let item = v[i].copy();
        proof {
            assert(trees(out@.push(item)) =~= trees(out@).push(item@));
            assert(trees(v@).take(i + 1) =~= trees(v@).take(i as int).push(v@[i as int]@));
        }
        out.push(item);
        i = i + 1;
    }
    assert(trees(v@).take(v@.len() as int) =~= trees(v@));
    out
}

/// A second optional value that is the same as this one.
pub fn copy_option(j: &Option<Json>) -> (r: Option<Json>)
    ensures
        json_option(r) == json_option(*j),
{
    match j {
        Some(j) => Some(j.copy()),
        None => None,
    }
}

/// The text under a key; empty where there is none.
pub open spec fn text_at(t: JsonTree, key: Seq<char>) -> Seq<char> {
    match t.at(key).as_text() {
        Some(s) => s,
        None => Seq::empty(),
    }
}

/// The items under a key; none where there is no array.
pub open spec fn items_at(t: JsonTree, key: Seq<char>) -> Seq<JsonTree> {
    match t.at(key).as_items() {
        Some(s) => s,
        None => Seq::empty(),
    }
}

/// The items under a key, as a list that is empty where there is no array.
pub fn items_of<'a>(j: &'a Json, key: &str, none: &'a Vec<Json>) -> (r: &'a Vec<Json>)
    requires
        none@.len() == 0,
    ensures
        trees(r@) == items_at(j@, key@),
{
    assert(trees(none@) =~= Seq::empty());
    match j.get(key) {
        Some(v) => match v.as_array() {
            Some(items) => items,
            None => none,
        },
        None => none,
    }
}

/// Whether the text under a key is the given one.
pub fn says(j: &Json, key: &str, what: &str) -> (r: bool)
    ensures
        r == (j@.at(key@).as_text() == Some(what@)),
{
    match j.str_at(key) {
        Some(s) => same(s, what),
        None => false,
    }
}

/// The text under a key; empty where there is none.
pub fn text_of(j: &Json, key: &str) -> (r: String)
    ensures
        r@ == text_at(j@, key@),
{
    match j.str_at(key) {
        Some(s) => s.to_owned(),
        None => String::new(),
    }
}

/// The number under a key; 0 where there is none.
pub open spec fn nat_at(t: JsonTree, key: Seq<char>) -> nat {
    match t.at(key).as_nat() {
        Some(n) => n as nat,
        None => 0,
    }
}

/// A text that reads as a value.
pub open spec fn read_ok(tree: JsonTree) -> Result<JsonTree, Seq<char>> {
    Ok(tree)
}

/// A text that does not read, with the message of the error.
pub open spec fn read_err(message: Seq<char>) -> Result<JsonTree, Seq<char>> {
    Err(message)
}

/// Reads JSON text; the error is the reader's own message.
pub fn parse(text: &str) -> (r: Result<Json, String>)
    ensures
        match r {
            Ok(j) => parsed_value(text@) == read_ok(j@) && j@.canonical(),
            Err(e) => parsed_value(text@) == read_err(e@),
        },
{
    match read_value(text) {
        Ok(v) => Ok(Json::from_value(v)),
        Err(e) => Err(e),
    }
}

/// Writes a value as compact JSON text. What it writes reads back as the same
/// value, unless the value is nested too deeply for the reader or holds a
/// number that is no integer.
pub fn render(j: &Json) -> (r: String)
    requires
        j@.canonical(),
    ensures
        r@ == value_text(j@),
        j@.plain_within(127) ==> parsed_value(r@) == read_ok(j@),
{
    write_value(&j.to_value())
}

/// The first value that a JSONPath selects; nothing where the path is malformed
/// or selects nothing.
pub fn json_path(root: &Json, path: &str) -> (r: Option<Json>)
    requires
        root@.canonical(),
    ensures
        match r {
            Some(j) => path_first(root@, path@) == Some(j@) && j@.canonical(),
            None => path_first(root@, path@) is None,
        },
{
    match query_first(&root.to_value(), path) {
        Some(v) => Some(Json::from_value(v)),
        None => None,
    }
}

// What `serde_json` and `jsonpath_rust` are trusted for.

#[verifier::external_type_specification]
#[verifier::external_body]
pub struct ExValue(serde_json::Value);

#[verifier::external_type_specification]
#[verifier::external_body]
pub struct ExNumber(serde_json::Number);

/// The value that a `serde_json::Value` holds.
pub uninterp spec fn value_tree(v: serde_json::Value) -> JsonTree;

/// The integer that a `serde_json::Number` holds, where it holds one.
pub uninterp spec fn number_integer(n: serde_json::Number) -> Option<int>;

/// What `serde_json::from_str` makes of a text: the value, or the message of
/// the error.
pub uninterp spec fn parsed_value(text: Seq<char>) -> Result<JsonTree, Seq<char>>;

/// The compact text that `serde_json` writes for a value.
pub uninterp spec fn value_text(tree: JsonTree) -> Seq<char>;

/// The first value that `jsonpath_rust` selects from a value by a path.
pub uninterp spec fn path_first(root: JsonTree, path: Seq<char>) -> Option<JsonTree>;

/// The variants of `serde_json::Value`.
pub enum ValueParts {
    Null,
    Bool(bool),
    Number(serde_json::Number),
    Text(String),
    Array(Vec<serde_json::Value>),
    Object(Vec<(String, serde_json::Value)>),
}

/// What a number of `serde_json` stands for.
pub open spec fn num_of(n: serde_json::Number) -> Num {
    match number_integer(n) {
        Some(i) => if i >= 0 {
            Num::Unsigned(i as u64)
        } else {
            Num::Negative(i as i64)
        },
        None => Num::Real(n),
    }
}

/// What a run of `serde_json` values holds.
pub open spec fn value_trees(v: Seq<serde_json::Value>) -> Seq<JsonTree> {
    v.map_values(|j: serde_json::Value| value_tree(j))
}

/// What a run of `serde_json` object entries holds.
pub open spec fn value_entries(v: Seq<(String, serde_json::Value)>) -> Seq<(Seq<char>, JsonTree)> {
    v.map_values(|e: (String, serde_json::Value)| (e.0@, value_tree(e.1)))
}

/// The value that the variants stand for.
pub open spec fn parts_tree(p: ValueParts) -> JsonTree {
    match p {
        ValueParts::Null => JsonTree::Null,
        ValueParts::Bool(b) => JsonTree::Bool(b),
        ValueParts::Number(n) => JsonTree::Number(num_of(n)),
        ValueParts::Text(s) => JsonTree::Text(s@),
        ValueParts::Array(v) => JsonTree::Array(value_trees(v@)),
        ValueParts::Object(v) => JsonTree::Object(value_entries(v@)),
    }
}

fn num_from(n: serde_json::Number) -> (r: Num)
    ensures
        r == num_of(n),
        JsonTree::Number(r).canonical(),
{
    match number_as_u64(&n) {
        Some(u) => Num::Unsigned(u),
        None => match number_as_i64(&n) {
            Some(i) => Num::Negative(i),
            None => Num::Real(n),
        },
    }
}

/// `serde_json::Number::clone`: the clone is the number.
pub assume_specification[ <serde_json::Number as Clone>::clone ](
    n: &serde_json::Number,
) -> (r: serde_json::Number)
    ensures
        r == *n,
;

/// `serde_json::Number::as_u64`: the integer of a number, where it is natural.
/// Every integer that a number holds lies between the least `i64` and the
/// greatest `u64`.
#[verifier::external_body]
fn number_as_u64(n: &serde_json::Number) -> (r: Option<u64>)
    ensures
        match r {
            Some(u) => number_integer(*n) == Some(u as int),
            None => number_integer(*n) matches Some(i) ==> i64::MIN <= i < 0,
        },
{
    n.as_u64()
}

/// `serde_json::Number::as_i64`: the integer of a number, where an `i64` can
/// hold it.
#[verifier::external_body]
fn number_as_i64(n: &serde_json::Number) -> (r: Option<i64>)
    ensures
        match r {
            Some(k) => number_integer(*n) == Some(k as int),
            None => number_integer(*n) matches Some(i) ==> i > i64::MAX,
        },
{
    n.as_i64()
}

/// `serde_json::Number::from::<u64>`: a number that holds the integer.
#[verifier::external_body]
fn number_from_u64(n: u64) -> (r: serde_json::Number)
    ensures
        number_integer(r) == Some(n as int),
{
    serde_json::Number::from(n)
}

/// `serde_json::Number::from::<i64>`: a number that holds the integer.
#[verifier::external_body]
fn number_from_i64(n: i64) -> (r: serde_json::Number)
    ensures
        number_integer(r) == Some(n as int),
{
    serde_json::Number::from(n)
}

/// Takes a `serde_json::Value` apart: each variant with its fields. A
/// `serde_json::Map` hands its entries out in the order of their keys, each key
/// once.
#[verifier::external_body]
fn open_value(v: serde_json::Value) -> (r: ValueParts)
    ensures
        value_tree(v) == parts_tree(r),
        r matches ValueParts::Object(entries) ==> ascending(value_entries(entries@)),
{
    match v {
        serde_json::Value::Null => ValueParts::Null,
        serde_json::Value::Bool(b) => ValueParts::Bool(b),
        serde_json::Value::Number(n) => ValueParts::Number(n),
        serde_json::Value::String(s) => ValueParts::Text(s),
        serde_json::Value::Array(items) => ValueParts::Array(items),
        serde_json::Value::Object(map) => ValueParts::Object(map.into_iter().collect()),
    }
}

/// Puts a `serde_json::Value` together out of a variant and its fields. Entries
/// whose keys ascend are in the order in which a `serde_json::Map` keeps them.
#[verifier::external_body]
fn make_value(p: ValueParts) -> (r: serde_json::Value)
    requires
        p matches ValueParts::Object(entries) ==> ascending(value_entries(entries@)),
    ensures
        value_tree(r) == parts_tree(p),
{
    match p {
        ValueParts::Null => serde_json::Value::Null,
        ValueParts::Bool(b) => serde_json::Value::Bool(b),
        ValueParts::Number(n) => serde_json::Value::Number(n),
        ValueParts::Text(s) => serde_json::Value::String(s),
        ValueParts::Array(items) => serde_json::Value::Array(items),
        ValueParts::Object(entries) => serde_json::Value::Object(entries.into_iter().collect()),
    }
}

/// `serde_json::from_str` at `serde_json::Value`: the named result of reading
/// the text, or the named message of its error.
#[verifier::external_body]
fn read_value(text: &str) -> (r: Result<serde_json::Value, String>)
    ensures
        match r {
            Ok(v) => parsed_value(text@) == read_ok(value_tree(v)),
            Err(e) => parsed_value(text@) == read_err(e@),
        },
{
    serde_json::from_str::<serde_json::Value>(text).map_err(|e| e.to_string())
}

/// `serde_json::Value::to_string`: the named compact text of the value. Reading
/// it gives the value back, as far as the reader's limit of nested arrays and
/// objects goes; of numbers that are no integers nothing is claimed.
#[verifier::external_body]
fn write_value(v: &serde_json::Value) -> (r: String)
    ensures
        r@ == value_text(value_tree(*v)),
        value_tree(*v).plain_within(127) ==> parsed_value(r@) == read_ok(value_tree(*v)),
{
    v.to_string()
}

/// `jsonpath_rust::JsonPath::query`: the first of the values that the path
/// selects, under the name of that result; nothing where the path does not
/// parse.
#[verifier::external_body]
fn query_first(root: &serde_json::Value, path: &str) -> (r: Option<serde_json::Value>)
    ensures
        match r {
            Some(v) => path_first(value_tree(*root), path@) == Some(value_tree(v)),
            None => path_first(value_tree(*root), path@) is None,
        },
{
    root.query(path).ok().and_then(|hits| hits.into_iter().next().cloned())
}

/// Whether an object has a member with a value.
pub open spec fn has_entry(t: JsonTree, key: Seq<char>, value: JsonTree) -> bool {
    t is Object && t->Object_0.contains((key, value))
}

/// A member that is added is there, and what was there stays.
pub proof fn lemma_entry(t: JsonTree, key: Seq<char>, value: JsonTree)
    requires
        t is Object,
    ensures
        t.with(key, value) is Object,
        has_entry(t.with(key, value), key, value),
        forall|k: Seq<char>, v: JsonTree| #[trigger]
            has_entry(t, k, v) ==> has_entry(t.with(key, value), k, v),
        t.with(key, value)->Object_0.len() == t->Object_0.len() + 1,
{
    let a = t->Object_0;
    let b = t.with(key, value)->Object_0;
    assert(b.last() == (key, value));
    assert forall|k: Seq<char>, v: JsonTree| #[trigger] has_entry(t, k, v) implies has_entry(
        t.with(key, value),
        k,
        v,
    ) by {
        let i = choose|i: int| 0 <= i < a.len() && a[i] == (k, v);
        assert(b[i] == (k, v));
    }
}

/// The same of a member that may be missing.
pub proof fn lemma_entry_some(t: JsonTree, key: Seq<char>, value: Option<JsonTree>)
    requires
        t is Object,
    ensures
        t.with_some(key, value) is Object,
        value matches Some(v) ==> has_entry(t.with_some(key, value), key, v),
        forall|k: Seq<char>, v: JsonTree| #[trigger]
            has_entry(t, k, v) ==> has_entry(t.with_some(key, value), k, v),
        t.with_some(key, value)->Object_0.len() == t->Object_0.len() + (if value is Some {
            1int
        } else {
            0
        }),
{
    if value is Some {
        lemma_entry(t, key, value->0);
    }
}

/// A run of texts, and one of values, is written item by item, in order.
pub proof fn law_runs_are_written_in_order(texts: Seq<String>, values: Seq<Json>, i: int)
    ensures
        text_trees(texts).len() == texts.len(),
        trees(values).len() == values.len(),
        0 <= i < texts.len() ==> text_trees(texts)[i] == JsonTree::Text(texts[i]@),
        0 <= i < values.len() ==> trees(values)[i] == values[i]@,
{
}

/// One for a thing that is there, and nothing for one that is not.
pub open spec fn flag(there: bool) -> int {
    if there {
        1
    } else {
        0
    }
}

/// The member under a key is that of the first entry with it; there is none exactly where
/// no entry has it.
pub proof fn law_first_entry_counts(entries: Seq<(Seq<char>, JsonTree)>, key: Seq<char>, i: int)
    ensures
        0 <= i < entries.len() && entries[i].0 == key && (forall|j: int|
            0 <= j < i ==> (#[trigger] entries[j]).0 != key) ==> JsonTree::Object(entries).get(key)
            == Some(entries[i].1),
        JsonTree::Object(entries).get(key) is None <==> forall|j: int|
            0 <= j < entries.len() ==> (#[trigger] entries[j]).0 != key,
    decreases entries.len(),
{
    if entries.len() > 0 && entries[0].0 != key {
        let rest = entries.drop_first();
        law_first_entry_counts(rest, key, i - 1);
        assert forall|j: int| 0 <= j < rest.len() implies (#[trigger] rest[j]).0 == entries[j
            + 1].0 by {}
        if forall|j: int| 0 <= j < rest.len() ==> (#[trigger] rest[j]).0 != key {
            assert forall|j: int| 0 <= j < entries.len() implies (#[trigger] entries[j]).0
                != key by {
                if j > 0 {
                    assert(rest[j - 1].0 == entries[j].0);
                }
            }
        }
    }
}

/// The integer of a number is the number itself, as far as it fits; a whole number that is
/// written is read as it was.
pub proof fn law_numbers_are_read_as_written(n: i64, u: u64, t: JsonTree)
    ensures
        int_tree(n).as_int() == Some(n),
        JsonTree::Number(Num::Unsigned(u)).as_nat() == Some(u),
        JsonTree::Number(Num::Unsigned(u)).as_int() is Some <==> u <= 0x7fff_ffff_ffff_ffff,
        t.as_nat() matches Some(k) ==> t == JsonTree::Number(Num::Unsigned(k)),
        t.as_int() matches Some(k) ==> (t matches JsonTree::Number(Num::Unsigned(w)) ==> w == k)
            && (t matches JsonTree::Number(Num::Negative(w)) ==> w == k),
        !(t is Number) ==> t.as_int() is None && t.as_nat() is None,
{
}

} // verus!
