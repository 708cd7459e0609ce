//! A map from texts to small values, in the order in which the texts came in.

use crate::text;
use vstd::prelude::*;

verus! {

/// No key stands in the list twice.
pub open spec fn keys_distinct<V>(entries: Seq<(Seq<char>, V)>) -> bool {
    forall|i: int, j: int| 0 <= i < j < entries.len() ==> entries[i].0 != entries[j].0
}

/// The place of a key among the entries, or their number where it is not there.
pub open spec fn place<V>(entries: Seq<(Seq<char>, V)>, key: Seq<char>) -> int
    decreases entries.len(),
{
    if entries.len() == 0 {
        0
    } else if entries[0].0 == key {
        0
    } else {
        1 + place(entries.drop_first(), key)
    }
}

/// Whether a key is among the entries.
pub open spec fn has_key<V>(entries: Seq<(Seq<char>, V)>, key: Seq<char>) -> bool {
    place(entries, key) < entries.len()
}

/// The value of a key among the entries.
pub open spec fn value_of<V>(entries: Seq<(Seq<char>, V)>, key: Seq<char>) -> Option<V> {
    if has_key(entries, key) {
        Some(entries[place(entries, key)].1)
    } else {
        None
    }
}

/// The value of a key in a map.
pub open spec fn find<V>(m: Map<Seq<char>, V>, key: Seq<char>) -> Option<V> {
    if m.contains_key(key) {
        Some(m[key])
    } else {
        None
    }
}

/// What setting and taking out a key do to the other keys.
pub proof fn lemma_find<V>(m: Map<Seq<char>, V>, key: Seq<char>, value: V)
    ensures
        forall|k: Seq<char>| #[trigger]
            find(m.insert(key, value), k) == (if k == key {
                Some(value)
            } else {
                find(m, k)
            }),
        forall|k: Seq<char>| #[trigger]
            find(m.remove(key), k) == (if k == key {
                None
            } else {
                find(m, k)
            }),
{
}

/// The entries as a map.
pub open spec fn map_of<V>(entries: Seq<(Seq<char>, V)>) -> Map<Seq<char>, V> {
    Map::new(
        |key: Seq<char>| has_key(entries, key),
        |key: Seq<char>| entries[place(entries, key)].1,
    )
}

/// The entries after a key is set: in its place where it is there, else at the end.
pub open spec fn with_entry<V>(entries: Seq<(Seq<char>, V)>, key: Seq<char>, value: V) -> Seq<
    (Seq<char>, V),
> {
    if has_key(entries, key) {
        entries.update(place(entries, key), (key, value))
    } else {
        entries.push((key, value))
    }
}

/// The entries without a key.
pub open spec fn without_entry<V>(entries: Seq<(Seq<char>, V)>, key: Seq<char>) -> Seq<
    (Seq<char>, V),
> {
    if has_key(entries, key) {
        entries.remove(place(entries, key))
    } else {
        entries
    }
}

/// What the place of a key is.
pub proof fn lemma_place<V>(entries: Seq<(Seq<char>, V)>, key: Seq<char>)
    ensures
        0 <= place(entries, key) <= entries.len(),
        has_key(entries, key) ==> entries[place(entries, key)].0 == key,
        forall|i: int| 0 <= i < place(entries, key) ==> (#[trigger] entries[i]).0 != key,
    decreases entries.len(),
{
    if entries.len() > 0 && entries[0].0 != key {
        let rest = entries.drop_first();
        lemma_place(rest, key);
        assert forall|i: int| 0 <= i < place(entries, key) implies (#[trigger] entries[i]).0
            != key by {
            if i > 0 {
                assert(rest[i - 1] == entries[i]);
            }
        }
    }
}

/// The first entry of a key is its place.
pub proof fn lemma_place_is<V>(entries: Seq<(Seq<char>, V)>, key: Seq<char>, i: int)
    requires
        0 <= i < entries.len(),
        entries[i].0 == key,
        forall|j: int| 0 <= j < i ==> (#[trigger] entries[j]).0 != key,
    ensures
        place(entries, key) == i,
{
    lemma_place(entries, key);
    let p = place(entries, key);
    if p < i {
        assert(entries[p].0 != key);
    }
    if p > i {
        assert(entries[i].0 != key);
    }
}

/// Setting and taking out an entry do to the map what they say.
pub proof fn lemma_entries_as_map<V>(entries: Seq<(Seq<char>, V)>, key: Seq<char>, value: V)
    requires
        keys_distinct(entries),
    ensures
        keys_distinct(with_entry(entries, key, value)),
        keys_distinct(without_entry(entries, key)),
        map_of(with_entry(entries, key, value)) == map_of(entries).insert(key, value),
        map_of(without_entry(entries, key)) == map_of(entries).remove(key),
{
    let p = place(entries, key);
    let set = with_entry(entries, key, value);
    let cut = without_entry(entries, key);
    lemma_place(entries, key);
    assert forall|k: Seq<char>| true implies #[trigger] value_of(set, k) == (if k == key {
        Some(value)
    } else {
        value_of(entries, k)
    }) && value_of(cut, k) == (if k == key {
        None
    } else {
        value_of(entries, k)
    }) by {
        lemma_place(entries, k);
        lemma_place(set, k);
        lemma_place(cut, k);
        let q = place(entries, k);
        if k == key {
            if has_key(entries, key) {
                lemma_place_is(set, key, p);
            } else {
                assert(set[entries.len() as int].0 == key);
                lemma_place_is(set, key, entries.len() as int);
            }
            let c = place(cut, k);
            if c < cut.len() {
                if has_key(entries, key) {
                    if c < p {
                        assert(cut[c] == entries[c]);
                    } else {
                        assert(cut[c] == entries[c + 1]);
                    }
                }
            }
        } else if has_key(entries, k) {
            assert(set[q].0 == k);
            lemma_place_is(set, k, q);
            if has_key(entries, key) {
                if q < p {
                    assert(cut[q] == entries[q]);
                    lemma_place_is(cut, k, q);
                } else {
                    assert(cut[q - 1] == entries[q]);
                    assert forall|j: int| 0 <= j < q - 1 implies (#[trigger] cut[j]).0 != k by {
                        if j < p {
                            assert(cut[j] == entries[j]);
                        } else {
                            assert(cut[j] == entries[j + 1]);
                        }
                    }
                    lemma_place_is(cut, k, q - 1);
                }
            }
        } else {
            let s = place(set, k);
            if s < set.len() {
                assert(set[s].0 == k);
                if s < entries.len() {
                    assert(entries[s].0 == set[s].0);
                }
            }
            let c = place(cut, k);
            if c < cut.len() {
                if has_key(entries, key) && c >= p {
                    assert(cut[c] == entries[c + 1]);
                } else {
                    assert(cut[c] == entries[c]);
                }
            }
        }
    }
    assert(map_of(set) =~= map_of(entries).insert(key, value)) by {
        assert forall|k: Seq<char>| map_of(set).contains_key(k) == map_of(entries).insert(
            key,
            value,
        ).contains_key(k) by {
            assert(value_of(set, k) is Some == has_key(set, k));
        }
        assert forall|k: Seq<char>| map_of(set).contains_key(k) implies map_of(set)[k] == map_of(
            entries,
        ).insert(key, value)[k] by {
            assert(value_of(set, k) == Some(map_of(set)[k]));
        }
    }
    assert(map_of(cut) =~= map_of(entries).remove(key)) by {
        assert forall|k: Seq<char>| map_of(cut).contains_key(k) == map_of(entries).remove(
            key,
        ).contains_key(k) by {
            assert(value_of(set, k) is Some == has_key(set, k));
            assert(value_of(cut, k) is Some == has_key(cut, k));
        }
        assert forall|k: Seq<char>| map_of(cut).contains_key(k) implies map_of(cut)[k] == map_of(
            entries,
        ).remove(key)[k] by {
            assert(value_of(set, k) is Some == has_key(set, k));
            assert(value_of(cut, k) == Some(map_of(cut)[k]));
        }
    }
    assert forall|i: int, j: int| 0 <= i < j < set.len() implies set[i].0 != set[j].0 by {
        if j == entries.len() {
            assert(entries[i].0 != key);
        }
    }
}

/// A map from texts to values that can be copied.
#[derive(Debug)]
pub struct TextMap<V> {
    items: Vec<(String, V)>,
}

impl<V> View for TextMap<V> {
    type V = Map<Seq<char>, V>;

    open spec fn view(&self) -> Map<Seq<char>, V> {
        map_of(self.entries())
    }
}

/// What pairs of a key and a value stand for.
spec fn pair_views<V>(items: Seq<(String, V)>) -> Seq<(Seq<char>, V)> {
    items.map_values(|item: (String, V)| (item.0@, item.1))
}

impl<V> TextMap<V> {
    /// The entries in the order in which they came in.
    pub closed spec fn entries(&self) -> Seq<(Seq<char>, V)> {
        pair_views(self.items@)
    }

    /// No key stands twice.
    #[verifier::type_invariant]
    pub open spec fn wf(&self) -> bool {
        keys_distinct(self.entries())
    }
}

impl<V: Copy> TextMap<V> {
    pub fn new() -> (m: Self)
        ensures
            m.entries() == Seq::<(Seq<char>, V)>::empty(),
    {
        let items: Vec<(String, V)> = Vec::new();
        assert(pair_views(items@) =~= Seq::empty());
        TextMap { items }
    }

    fn position(&self, key: &str) -> (i: usize)
        ensures
            i == place(self.entries(), key@),
            i <= self.items@.len(),
    {
        let mut i: usize = 0;
        while i < self.items.len()
            invariant
                i <= self.items@.len(),
                forall|j: int| 0 <= j < i ==> (#[trigger] self.entries()[j]).0 != key@,
            decreases self.items@.len() - i,
        {
            if text::same_text(self.items[i].0.as_str(), key) {
                assert(self.entries()[i as int].0 == key@);
                proof {
                    lemma_place_is(self.entries(), key@, i as int);
                }
                return i;
            }
            assert(self.entries()[i as int].0 == self.items@[i as int].0@);
            i += 1;
        }
        proof {
            lemma_place(self.entries(), key@);
            let p = place(self.entries(), key@);
            if p < self.entries().len() {
                assert(self.entries()[p].0 != key@);
            }
        }
        i
    }

    pub fn get(&self, key: &str) -> (r: Option<V>)
        ensures
            r == value_of(self.entries(), key@),
            r == find(self@, key@),
    {
        let i: usize = self.position(key);
        if i < self.items.len() {
            Some(self.items[i].1)
        } else {
            None
        }
    }

    /// Sets the value of a key.
    pub fn insert(&mut self, key: &str, value: V)
        ensures
            final(self).entries() == with_entry(old(self).entries(), key@, value),
            final(self)@ == old(self)@.insert(key@, value),
    {
        proof {
            use_type_invariant(&*self);
            lemma_entries_as_map(self.entries(), key@, value);
            lemma_place(self.entries(), key@);
        }
        let i: usize = self.position(key);
        let mut items: Vec<(String, V)> = Vec::new();
        std::mem::swap(&mut items, &mut self.items);
        if i < items.len() {
            items.set(i, (key.to_owned(), value));
        } else {
            items.push((key.to_owned(), value));
        }
        assert(pair_views(items@) =~= with_entry(old(self).entries(), key@, value));
        self.items = items;
    }

    /// Takes a key out.
    pub fn remove(&mut self, key: &str)
        ensures
            final(self).entries() == without_entry(old(self).entries(), key@),
            final(self)@ == old(self)@.remove(key@),
    {
        proof {
            use_type_invariant(&*self);
        }
        let i: usize = self.position(key);
        if i < self.items.len() {
            proof {
                lemma_entries_as_map(self.entries(), key@, self.items@[i as int].1);
            }
            let mut items: Vec<(String, V)> = Vec::new();
            std::mem::swap(&mut items, &mut self.items);
            let _gone = items.remove(i);
            assert(pair_views(items@) =~= old(self).entries().remove(i as int));
            self.items = items;
        } else {
            assert(self@ =~= old(self)@.remove(key@));
        }
    }

    /// A map with the same entries.
    pub fn copy(&self) -> (m: Self)
        ensures
            m.entries() == self.entries(),
    {
        let mut items: Vec<(String, V)> = Vec::new();
        let mut i: usize = 0;
        while i < self.items.len()
            invariant
                i <= self.items@.len(),
                items@.len() == i,
                forall|j: int|
                    0 <= j < i ==> (#[trigger] items@[j]).0@ == self.items@[j].0@ && items@[j].1
                        == self.items@[j].1,
            decreases self.items@.len() - i,
        {
            items.push((self.items[i].0.clone(), self.items[i].1));
            i += 1;
        }
        proof {
            use_type_invariant(self);
        }
        assert(pair_views(items@) =~= self.entries());
        TextMap { items }
    }

    pub fn clear(&mut self)
        ensures
            final(self).entries() == Seq::<(Seq<char>, V)>::empty(),
    {
        let items: Vec<(String, V)> = Vec::new();
        assert(pair_views(items@) =~= Seq::empty());
        self.items = items;
    }

    pub fn len(&self) -> (n: usize)
        ensures
            n == self.entries().len(),
    {
        self.items.len()
    }

    /// The key at place `i`.
    pub fn key(&self, i: usize) -> (key: &str)
        requires
            i < self.entries().len(),
        ensures
            key@ == self.entries()[i as int].0,
    {
        self.items[i].0.as_str()
    }

    /// The value at place `i`.
    pub fn value(&self, i: usize) -> (v: V)
        requires
            i < self.entries().len(),
        ensures
            v == self.entries()[i as int].1,
    {
        self.items[i].1
    }
}

/// Setting a key keeps the keys that are there and their order, and puts a new one last; taking a
/// key out keeps the other entries and their order.
pub proof fn law_entries_keep_their_order<V>(
    entries: Seq<(Seq<char>, V)>,
    key: Seq<char>,
    value: V,
    i: int,
)
    requires
        keys_distinct(entries),
        0 <= i < entries.len(),
    ensures
        ({
            let set = with_entry(entries, key, value);
            &&& set[i] == (if entries[i].0 == key {
                (key, value)
            } else {
                entries[i]
            })
            &&& (exists|j: int| 0 <= j < entries.len() && #[trigger] entries[j].0 == key)
                ==> set.len() == entries.len()
            &&& (forall|j: int| 0 <= j < entries.len() ==> #[trigger] entries[j].0 != key)
                ==> set.len() == entries.len() + 1 && set.last() == (key, value)
        }),
        without_entry(entries, key) == entries.filter(|e: (Seq<char>, V)| e.0 != key),
{
    lemma_place(entries, key);
    let p = place(entries, key);
    if entries[i].0 == key {
        if p < i {
            assert(entries[p].0 != entries[i].0);
        }
    }
    lemma_without_is_filter(entries, key, p);
}

proof fn lemma_without_is_filter<V>(entries: Seq<(Seq<char>, V)>, key: Seq<char>, p: int)
    requires
        keys_distinct(entries),
        0 <= p,
        p < entries.len() ==> entries[p].0 == key,
        p >= entries.len() ==> forall|j: int| 0 <= j < entries.len() ==> #[trigger] entries[j].0
            != key,
    ensures
        entries.filter(|e: (Seq<char>, V)| e.0 != key) == (if p < entries.len() {
            entries.remove(p)
        } else {
            entries
        }),
    decreases entries.len(),
{
    reveal(Seq::filter);
    if entries.len() > 0 {
        let rest = entries.drop_last();
        let last = entries.len() - 1;
        assert(entries.last() == entries[last]);
        if p == last {
            assert forall|j: int| 0 <= j < rest.len() implies #[trigger] rest[j].0 != key by {
                assert(rest[j] == entries[j]);
                assert(entries[j].0 != entries[last].0);
            }
            lemma_without_is_filter(rest, key, p);
            assert(entries.remove(p) =~= rest);
        } else if p < last {
            assert(entries[p].0 != entries[last].0);
            lemma_without_is_filter(rest, key, p);
            assert(entries.remove(p) =~= rest.remove(p).push(entries.last()));
        } else {
            assert forall|j: int| 0 <= j < rest.len() implies #[trigger] rest[j].0 != key by {
                assert(rest[j] == entries[j]);
            }
            lemma_without_is_filter(rest, key, p);
            assert(entries =~= rest.push(entries.last()));
        }
    }
}

} // verus!
