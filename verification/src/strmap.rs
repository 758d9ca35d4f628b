//! A map under text keys.
use vstd::prelude::*;

use crate::text::same;

verus! {

/// A map under text keys: an entry for each key, in the order in which the keys
/// came in.
#[derive(Debug, PartialEq)]
pub struct StrMap<V> {
    pub entries: Vec<(String, V)>,
}

/// The place of a key among entries; their number where it has none.
pub open spec fn key_place<V>(entries: Seq<(String, V)>, key: Seq<char>) -> int
    decreases entries.len(),
{
    if entries.len() == 0 {
        0
    } else if entries[0].0@ == key {
        0
    } else {
        1 + key_place(entries.drop_first(), key)
    }
}

/// The map that entries stand for.
pub open spec fn map_of<V>(entries: Seq<(String, V)>) -> Map<Seq<char>, V> {
    Map::new(
        |k: Seq<char>| key_place(entries, k) < entries.len(),
        |k: Seq<char>| entries[key_place(entries, k)].1,
    )
}

pub proof fn lemma_key_place<V>(entries: Seq<(String, V)>, key: Seq<char>)
    ensures
        0 <= key_place(entries, key) <= entries.len(),
        key_place(entries, key) < entries.len() ==> entries[key_place(entries, key)].0@ == key,
        forall|i: int| 0 <= i < key_place(entries, key) ==> (#[trigger] entries[i]).0@ != key,
    decreases entries.len(),
{
    if entries.len() > 0 && entries[0].0@ != key {
        let rest = entries.drop_first();
        lemma_key_place(rest, key);
        assert forall|i: int| 0 <= i < key_place(entries, key) implies (#[trigger] entries[i]).0@
            != key by {
            if i > 0 {
                assert(rest[i - 1] == entries[i]);
            }
        }
    }
}

proof fn lemma_key_place_is<V>(entries: Seq<(String, V)>, key: Seq<char>, k: int)
    requires
        0 <= k <= entries.len(),
        k < entries.len() ==> entries[k].0@ == key,
        forall|i: int| 0 <= i < k ==> (#[trigger] entries[i]).0@ != key,
    ensures
        key_place(entries, key) == k,
{
    lemma_key_place(entries, key);
    let p = key_place(entries, key);
    if p < k {
        assert(entries[p].0@ != key);
    } else if k < p {
        assert(entries[k].0@ != key);
    }
}

impl<V> StrMap<V> {
    /// No key comes twice.
    pub open spec fn wf(self) -> bool {
        forall|i: int, j: int|
            0 <= i < j < self.entries@.len() ==> (#[trigger] self.entries@[i]).0@ != (
            #[trigger] self.entries@[j]).0@
    }
}

impl<V> View for StrMap<V> {
    type V = Map<Seq<char>, V>;

    open spec fn view(&self) -> Map<Seq<char>, V> {
        map_of(self.entries@)
    }
}

impl<V> StrMap<V> {
    /// A map without entries.
    pub fn new() -> (r: StrMap<V>)
        ensures
            r.wf(),
            r@ == Map::<Seq<char>, V>::empty(),
    {
        let r = StrMap { entries: Vec::new() };
        assert(r@ =~= Map::<Seq<char>, V>::empty());
        r
    }

    fn find(&self, key: &str) -> (r: usize)
        ensures
            r == key_place(self.entries@, key@),
            r <= self.entries.len(),
    {
        let mut i: usize = 0;
        while i < self.entries.len()
            invariant
                i <= self.entries.len(),
                forall|k: int| 0 <= k < i ==> (#[trigger] self.entries@[k]).0@ != key@,
            decreases self.entries.len() - i,
        {
            if same(self.entries[i].0.as_str(), key) {
                proof {
                    lemma_key_place_is(self.entries@, key@, i as int);
                }
                return i;
            }
            i = i + 1;
        }
        proof {
            lemma_key_place_is(self.entries@, key@, i as int);
        }
        i
    }

    /// What stands under a key.
    pub fn get(&self, key: &str) -> (r: Option<&V>)
        ensures
            match r {
                Some(v) => self@.dom().contains(key@) && self@[key@] == *v,
                None => !self@.dom().contains(key@),
            },
    {
        let i: usize = self.find(key);
        if i < self.entries.len() {
            Some(&self.entries[i].1)
        } else {
            None
        }
    }

    /// Whether there are no entries.
    pub fn is_empty(&self) -> (r: bool)
        ensures
            r == (self.entries@.len() == 0),
            r ==> self@ == Map::<Seq<char>, V>::empty(),
    {
        assert(self.entries@.len() == 0 ==> self@ =~= Map::<Seq<char>, V>::empty());
        self.entries.len() == 0
    }

    /// Whether something stands under a key.
    pub fn contains(&self, key: &str) -> (r: bool)
        ensures
            r == self@.dom().contains(key@),
    {
        self.find(key) < self.entries.len()
    }

    /// Puts a value under a key, in the place of what stood there.
    pub fn insert(&mut self, key: String, value: V)
        requires
            old(self).wf(),
        ensures
            final(self).wf(),
            final(self)@ == old(self)@.insert(key@, value),
    {
        let i: usize = self.find(key.as_str());
        let ghost before = self.entries@;
        proof {
            lemma_key_place(before, key@);
        }
        if i < self.entries.len() {
            let gone = self.entries.remove(i);
            self.entries.insert(i, (key, value));
            proof {
                assert(self.entries@ =~= before.update(i as int, (key, value)));
                assert forall|k: Seq<char>| key_place(self.entries@, k) == key_place(before, k) by {
                    lemma_key_place(before, k);
                    lemma_key_place_is(self.entries@, k, key_place(before, k));
                }
            }
        } else {
            self.entries.push((key, value));
            proof {
                assert forall|k: Seq<char>| key_place(self.entries@, k) == (if k == key@ {
                    before.len() as int
                } else {
                    key_place(before, k) + if key_place(before, k) == before.len() {
                        1int
                    } else {
                        0int
                    }
                }) by {
                    lemma_key_place(before, k);
                    let p = key_place(before, k);
                    if k == key@ {
                        lemma_key_place_is(self.entries@, k, before.len() as int);
                    } else if p == before.len() {
                        lemma_key_place_is(self.entries@, k, p + 1);
                    } else {
                        lemma_key_place_is(self.entries@, k, p);
                    }
                }
            }
        }
        proof {
            assert(self@ =~= old(self)@.insert(key@, value)) by {
                assert forall|k: Seq<char>| self@.dom().contains(k) == old(self)@.insert(
                    key@,
                    value,
                ).dom().contains(k) by {
                    lemma_key_place(before, k);
                }
                assert forall|k: Seq<char>| self@.dom().contains(k) implies self@[k] == old(
                    self,
                )@.insert(key@, value)[k] by {
                    lemma_key_place(before, k);
                    if k != key@ && i < before.len() {
                        assert(key_place(before, k) != i);
                    }
                }
            }
        }
    }

    /// Takes out what stands under a key.
    pub fn remove(&mut self, key: &str) -> (r: Option<V>)
        requires
            old(self).wf(),
        ensures
            final(self).wf(),
            final(self)@ == old(self)@.remove(key@),
            match r {
                Some(v) => old(self)@.dom().contains(key@) && old(self)@[key@] == v,
                None => !old(self)@.dom().contains(key@) && final(self)@ == old(self)@,
            },
    {
        let i: usize = self.find(key);
        let ghost before = self.entries@;
        proof {
            lemma_key_place(before, key@);
        }
        if i < self.entries.len() {
            let (k0, value) = self.entries.remove(i);
            proof {
                let after = self.entries@;
                assert(after =~= before.remove(i as int));
                assert forall|k: Seq<char>| key_place(after, k) == (if k == key@ {
                    after.len() as int
                } else if key_place(before, k) > i {
                    key_place(before, k) - 1
                } else {
                    key_place(before, k)
                }) by {
                    lemma_key_place(before, k);
                    let p = key_place(before, k);
                    if k == key@ {
                        assert forall|j: int| 0 <= j < after.len() implies (#[trigger] after[j]).0@
                            != key@ by {
                            if j < i {
                                assert(before[j].0@ != key@);
                            } else {
                                assert(after[j] == before[j + 1]);
                                assert(before[i as int].0@ != before[j + 1].0@);
                            }
                        }
                        lemma_key_place_is(after, k, after.len() as int);
                    } else if p > i {
                        assert forall|j: int| 0 <= j < p - 1 implies (#[trigger] after[j]).0@ != k by {
                            if j < i {
                                assert(before[j].0@ != k);
                            } else {
                                assert(before[j + 1].0@ != k);
                            }
                        }
                        lemma_key_place_is(after, k, p - 1);
                    } else {
                        assert(p < i);
                        lemma_key_place_is(after, k, p);
                    }
                }
                assert(self@ =~= old(self)@.remove(key@)) by {
                    assert forall|k: Seq<char>| #[trigger] self@.dom().contains(k) == old(self)@.remove(
                        key@,
                    ).dom().contains(k) by {
                        lemma_key_place(before, k);
                    }
                    assert forall|k: Seq<char>| #[trigger] self@.dom().contains(k) implies self@[k] == old(
                        self,
                    )@.remove(key@)[k] by {
                        lemma_key_place(before, k);
                    }
                }
                assert(self.wf()) by {
                    assert forall|a: int, b: int| 0 <= a < b < after.len() implies (
                    #[trigger] after[a]).0@ != (#[trigger] after[b]).0@ by {
                        let a2 = if a < i {
                            a
                        } else {
                            a + 1
                        };
                        let b2 = if b < i {
                            b
                        } else {
                            b + 1
                        };
                        assert(after[a] == before[a2] && after[b] == before[b2]);
                    }
                }
            }
            Some(value)
        } else {
            assert(self@ =~= old(self)@.remove(key@));
            None
        }
    }
}

/// The texts of a run, as a set.
pub open spec fn id_set(v: Seq<String>) -> Set<Seq<char>> {
    Set::new(|k: Seq<char>| exists|i: int| 0 <= i < v.len() && (#[trigger] v[i])@ == k)
}

impl<V> StrMap<V> {
    /// The keys.
    pub fn keys(&self) -> (r: Vec<String>)
        ensures
            id_set(r@) == self@.dom(),
            r@.len() == self.entries@.len(),
            forall|i: int| 0 <= i < r@.len() ==> (#[trigger] r@[i]) == self.entries@[i].0,
    {
        let mut out: Vec<String> = Vec::new();
        let mut i: usize = 0;
        while i < self.entries.len()
            invariant
                i <= self.entries.len(),
                out@.len() == i,
                forall|k: int| 0 <= k < i ==> (#[trigger] out@[k]) == self.entries@[k].0,
            decreases self.entries.len() - i,
        {
            out.push(self.entries[i].0.clone());
            i = i + 1;
        }
        proof {
            let all = self.entries@;
            assert forall|k: Seq<char>| id_set(out@).contains(k) == self@.dom().contains(k) by {
                lemma_key_place(all, k);
                let p = key_place(all, k);
                if p < all.len() {
                    assert(out@[p]@ == k);
                }
                if id_set(out@).contains(k) {
                    let j = choose|j: int| 0 <= j < out@.len() && (#[trigger] out@[j])@ == k;
                    if p == all.len() {
                        assert(all[j].0@ != k);
                    }
                }
            }
            assert(id_set(out@) =~= self@.dom());
        }
        out
    }

    /// Takes out what stands under some keys.
    pub fn remove_all(&mut self, ids: &Vec<String>)
        requires
            old(self).wf(),
        ensures
            final(self).wf(),
            final(self)@ == old(self)@.remove_keys(id_set(ids@)),
    {
        let ghost start = self@;
        let mut i: usize = 0;
        assert(self@ =~= start.remove_keys(id_set(ids@.take(0))));
        while i < ids.len()
            invariant
                i <= ids.len(),
                self.wf(),
                self@ == start.remove_keys(id_set(ids@.take(i as int))),
            decreases ids.len() - i,
        {
            let gone = self.remove(ids[i].as_str());
            proof {
                let head = ids@.take(i as int);
                let more = ids@.take(i + 1);
                let id = ids@[i as int]@;
                assert forall|k: Seq<char>| id_set(more).contains(k) == (id_set(head).contains(k)
                    || k == id) by {
                    if id_set(head).contains(k) {
                        let j = choose|j: int| 0 <= j < head.len() && (#[trigger] head[j])@ == k;
                        assert(more[j]@ == k);
                    }
                    if k == id {
                        assert(more[i as int]@ == k);
                    }
                    if id_set(more).contains(k) && k != id {
                        let j = choose|j: int| 0 <= j < more.len() && (#[trigger] more[j])@ == k;
                        assert(head[j]@ == k);
                    }
                }
                assert(self@ =~= start.remove_keys(id_set(more)));
            }
            i = i + 1;
        }
        assert(ids@.take(ids@.len() as int) =~= ids@);
    }
}

/// Entries stand for the map that has each key with what its first entry holds.
pub proof fn law_first_entry_stands<V>(entries: Seq<(String, V)>, key: Seq<char>, k: int)
    ensures
        map_of(entries).dom().contains(key) <==> exists|i: int|
            0 <= i < entries.len() && (#[trigger] entries[i]).0@ == key,
        0 <= k < entries.len() && entries[k].0@ == key && (forall|i: int|
            0 <= i < k ==> (#[trigger] entries[i]).0@ != key) ==> map_of(entries)[key]
            == entries[k].1,
{
    lemma_key_place(entries, key);
    let p = key_place(entries, key);
    if p < entries.len() {
        assert(entries[p].0@ == key);
    }
    if 0 <= k < entries.len() && entries[k].0@ == key && (forall|i: int|
        0 <= i < k ==> (#[trigger] entries[i]).0@ != key) {
        assert(entries[p].0@ == key);
    }
}

} // verus!
