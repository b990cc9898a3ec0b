//! A small map from text keys to values that remembers the order in which
//! its keys were first inserted.

use vstd::prelude::*;

verus! {

/// The keys of a sequence of pairs.
pub open spec fn keys_of<V>(entries: Seq<(Seq<char>, V)>) -> Seq<Seq<char>> {
    entries.map_values(|entry: (Seq<char>, V)| entry.0)
}

/// A sequence of pairs after `value` was stored under `key`: in place of
/// the pair with that key where there is one, else behind all others.
pub open spec fn assoc_put<V>(entries: Seq<(Seq<char>, V)>, key: Seq<char>, value: V) -> Seq<
    (Seq<char>, V),
> {
    if keys_of(entries).contains(key) {
        entries.update(keys_of(entries).index_of(key), (key, value))
    } else {
        entries.push((key, value))
    }
}

/// The pairs that are left when the first `count` of `keys` and `values`
/// are stored one after another, starting from nothing.
pub open spec fn assoc_fold<V>(keys: Seq<Seq<char>>, values: Seq<V>, count: nat) -> Seq<
    (Seq<char>, V),
>
    decreases count,
{
    if count == 0 {
        Seq::empty()
    } else {
        assoc_put(
            assoc_fold(keys, values, (count - 1) as nat),
            keys[count - 1],
            values[count - 1],
        )
    }
}

/// The value stored under `key` in a sequence of pairs, where there is
/// one.
pub open spec fn assoc_get<V>(entries: Seq<(Seq<char>, V)>, key: Seq<char>) -> Option<V> {
    if keys_of(entries).contains(key) {
        Some(entries[keys_of(entries).index_of(key)].1)
    } else {
        None
    }
}

/// Looking a key up among texts gives the text of what looking it up
/// among the strings gives.
pub proof fn lemma_text_get(entries: Seq<(Seq<char>, String)>, key: Seq<char>)
    ensures
        assoc_get(text_entries(entries), key) == match assoc_get(entries, key) {
            Some(s) => Some(s@),
            None => None,
        },
{
    assert(keys_of(text_entries(entries)) =~= keys_of(entries));
}

/// After a value was stored under a key, the keys are that key and those
/// that there were before.
pub proof fn lemma_put_keys<V>(entries: Seq<(Seq<char>, V)>, key: Seq<char>, value: V, other: Seq<char>)
    ensures
        keys_of(assoc_put(entries, key, value)).contains(other) <==> (other == key || keys_of(
            entries,
        ).contains(other)),
{
    let keys = keys_of(entries);
    let after = assoc_put(entries, key, value);
    if keys.contains(key) {
        let at = keys.index_of(key);
        assert(keys_of(after) =~= keys);
    } else {
        assert(keys_of(after) =~= keys.push(key));
        if other == key {
            assert(keys_of(after)[keys.len() as int] == other);
        }
        if keys.contains(other) {
            let at = keys.index_of(other);
            assert(keys_of(after)[at] == other);
        }
    }
}

/// Every value among the pairs that storing leaves is one of the values
/// that were stored.
pub proof fn lemma_fold_values<V>(keys: Seq<Seq<char>>, values: Seq<V>, count: nat, index: int)
    requires
        count <= keys.len(),
        count <= values.len(),
        0 <= index < assoc_fold(keys, values, count).len(),
    ensures
        exists|j: int| 0 <= j < count && assoc_fold(keys, values, count)[index].1 == values[j],
    decreases count,
{
    if count > 0 {
        let earlier = assoc_fold(keys, values, (count - 1) as nat);
        let key = keys[count - 1];
        let value = values[count - 1];
        let after = assoc_put(earlier, key, value);
        if keys_of(earlier).contains(key) && keys_of(earlier).index_of(key) == index {
            assert(after[index].1 == values[count - 1]);
        } else if !keys_of(earlier).contains(key) && index == earlier.len() {
            assert(after[index].1 == values[count - 1]);
        } else {
            assert(after[index] == earlier[index]);
            lemma_fold_values(keys, values, (count - 1) as nat, index);
            let j = choose|j: int| 0 <= j < count - 1 && earlier[index].1 == values[j];
            assert(0 <= j < count && after[index].1 == values[j]);
        }
    }
}

/// The pairs of keys and values, index by index.
pub open spec fn zipped<V>(keys: Seq<Seq<char>>, values: Seq<V>, count: nat) -> Seq<
    (Seq<char>, V),
> {
    Seq::new(count, |i: int| (keys[i], values[i]))
}

/// Where no key occurs twice, storing values under keys one after another
/// leaves the pairs of keys and values in their order.
pub proof fn lemma_fold_zip<V>(keys: Seq<Seq<char>>, values: Seq<V>, count: nat)
    requires
        keys.no_duplicates(),
        count <= keys.len(),
        count <= values.len(),
    ensures
        assoc_fold(keys, values, count) == zipped(keys, values, count),
    decreases count,
{
    if count == 0 {
        assert(assoc_fold(keys, values, count) =~= zipped(keys, values, count));
    } else {
        let last = (count - 1) as nat;
        lemma_fold_zip(keys, values, last);
        let earlier = zipped(keys, values, last);
        let key = keys[last as int];
        if keys_of(earlier).contains(key) {
            let at = keys_of(earlier).index_of(key);
            assert(keys_of(earlier)[at] == key);
            assert(keys[at] == keys[last as int]);
        }
        assert(earlier.push((key, values[last as int])) =~= zipped(keys, values, count));
    }
}

/// Where no key occurs twice, the value found under the key of a pair is
/// the value of that pair.
pub proof fn lemma_get_at<V>(entries: Seq<(Seq<char>, V)>, index: int)
    requires
        keys_of(entries).no_duplicates(),
        0 <= index < entries.len(),
    ensures
        assoc_get(entries, entries[index].0) == Some(entries[index].1),
{
    let keys = keys_of(entries);
    assert(keys[index] == entries[index].0);
    let found = keys.index_of(entries[index].0);
    assert(keys[found] == keys[index]);
}

/// Storing leaves no more pairs than values were stored.
pub proof fn lemma_fold_len<V>(keys: Seq<Seq<char>>, values: Seq<V>, count: nat)
    ensures
        assoc_fold(keys, values, count).len() <= count,
    decreases count,
{
    if count > 0 {
        lemma_fold_len(keys, values, (count - 1) as nat);
    }
}

/// Pairs with the text of each value in place of the value.
pub open spec fn text_entries(entries: Seq<(Seq<char>, String)>) -> Seq<(Seq<char>, Seq<char>)> {
    entries.map_values(|entry: (Seq<char>, String)| (entry.0, entry.1@))
}

/// Storing a string and then taking texts gives what storing its text
/// among the texts gives.
pub proof fn lemma_text_put(entries: Seq<(Seq<char>, String)>, key: Seq<char>, value: String)
    ensures
        text_entries(assoc_put(entries, key, value)) == assoc_put(
            text_entries(entries),
            key,
            value@,
        ),
{
    assert(keys_of(text_entries(entries)) =~= keys_of(entries));
    assert(text_entries(assoc_put(entries, key, value)) =~= assoc_put(
        text_entries(entries),
        key,
        value@,
    ));
}

/// Storing strings one after another and then taking texts gives what
/// storing their texts gives.
pub proof fn lemma_text_fold(keys: Seq<Seq<char>>, values: Seq<String>, count: nat)
    requires
        count <= keys.len(),
        count <= values.len(),
    ensures
        text_entries(assoc_fold(keys, values, count)) == assoc_fold(
            keys,
            values.map_values(|s: String| s@),
            count,
        ),
    decreases count,
{
    if count == 0 {
        assert(text_entries(assoc_fold(keys, values, count)) =~= Seq::empty());
    } else {
        lemma_text_fold(keys, values, (count - 1) as nat);
        lemma_text_put(
            assoc_fold(keys, values, (count - 1) as nat),
            keys[count - 1],
            values[count - 1],
        );
    }
}

/// Pairs with `change` applied to each value.
pub open spec fn map_entries<V, W>(entries: Seq<(Seq<char>, V)>, change: spec_fn(V) -> W) -> Seq<
    (Seq<char>, W),
> {
    entries.map_values(|entry: (Seq<char>, V)| (entry.0, change(entry.1)))
}

/// Storing a value and then changing all values gives what storing the
/// changed value among the changed ones gives.
pub proof fn lemma_map_put<V, W>(
    entries: Seq<(Seq<char>, V)>,
    change: spec_fn(V) -> W,
    key: Seq<char>,
    value: V,
)
    ensures
        map_entries(assoc_put(entries, key, value), change) == assoc_put(
            map_entries(entries, change),
            key,
            change(value),
        ),
{
    assert(keys_of(map_entries(entries, change)) =~= keys_of(entries));
    assert(map_entries(assoc_put(entries, key, value), change) =~= assoc_put(
        map_entries(entries, change),
        key,
        change(value),
    ));
}

/// The items of a vector in reverse order.
pub fn reversed<T>(items: Vec<T>) -> (turned: Vec<T>)
    ensures
        turned@ == items@.reverse(),
{
    let mut items = items;
    let ghost whole = items@;
    let mut turned: Vec<T> = Vec::new();
    while items.len() > 0
        invariant
            items@.len() <= whole.len(),
            items@ == whole.take(items@.len() as int),
            turned@.len() == whole.len() - items@.len(),
            forall|i: int| 0 <= i < turned@.len() ==> turned@[i] == whole[whole.len() - 1 - i],
        decreases items@.len(),
    {
        let item = items.pop().unwrap();
        turned.push(item);
    }
    assert(turned@ =~= whole.reverse());
    turned
}

/// A map keyed by text. Every key occurs once; iteration by index follows
/// the order of first insertion.
#[derive(Debug, PartialEq)]
pub struct Table<V> {
    entries: Vec<(String, V)>,
}

impl<V> Table<V> {
    /// The keys, in order of first insertion.
    pub closed spec fn keys(&self) -> Seq<Seq<char>> {
        Seq::new(self.entries@.len(), |i: int| self.entries@[i].0@)
    }

    /// The values, each at the index of its key.
    pub closed spec fn values(&self) -> Seq<V> {
        Seq::new(self.entries@.len(), |i: int| self.entries@[i].1)
    }

    #[verifier::type_invariant]
    spec fn distinct(&self) -> bool {
        forall|i: int, j: int|
            0 <= i < j < self.entries@.len() ==> self.entries@[i].0@ != self.entries@[j].0@
    }

    /// Keys and values pair up and no key occurs twice.
    pub open spec fn wf(&self) -> bool {
        &&& self.keys().len() == self.values().len()
        &&& self.keys().no_duplicates()
    }

    /// Keys and values as pairs, in order of first insertion.
    pub open spec fn entries(&self) -> Seq<(Seq<char>, V)> {
        Seq::new(self.keys().len(), |i: int| (self.keys()[i], self.values()[i]))
    }

    /// Whether `key` is present.
    pub open spec fn has(&self, key: Seq<char>) -> bool {
        self.keys().contains(key)
    }

    /// The value stored under `key`, which must be present.
    pub open spec fn at(&self, key: Seq<char>) -> V {
        self.values()[self.keys().index_of(key)]
    }

    /// States that a table in hand is well formed.
    pub fn check(&self)
        ensures
            self.wf(),
    {
        proof {
            use_type_invariant(self);
        }
    }

    /// An empty table.
    pub fn new() -> (table: Self)
        ensures
            table.keys() == Seq::<Seq<char>>::empty(),
            table.values() == Seq::<V>::empty(),
            table.wf(),
    {
        let table = Table { entries: Vec::new() };
        assert(table.keys() =~= Seq::<Seq<char>>::empty());
        assert(table.values() =~= Seq::<V>::empty());
        table
    }

    /// Number of keys.
    pub fn len(&self) -> (count: usize)
        ensures
            count == self.keys().len(),
            count == self.values().len(),
    {
        self.entries.len()
    }

    /// The key at `index`.
    pub fn key(&self, index: usize) -> (key: &String)
        requires
            index < self.keys().len(),
        ensures
            key@ == self.keys()[index as int],
    {
        &self.entries[index].0
    }

    /// The value at `index`.
    pub fn value(&self, index: usize) -> (value: &V)
        requires
            index < self.values().len(),
        ensures
            *value == self.values()[index as int],
    {
        &self.entries[index].1
    }

    /// Index of `key`, where it is present.
    pub fn find(&self, key: &str) -> (found: Option<usize>)
        ensures
            match found {
                Some(index) => index < self.keys().len() && self.keys()[index as int] == key@
                    && self.keys().index_of(key@) == index,
                None => !self.has(key@),
            },
    {
        proof {
            use_type_invariant(self);
        }
        let wanted: String = key.to_owned();
        let mut i: usize = 0;
        while i < self.entries.len()
            invariant
                i <= self.entries@.len(),
                wanted@ == key@,
                self.distinct(),
                forall|j: int| 0 <= j < i ==> self.entries@[j].0@ != key@,
            decreases self.entries@.len() - i,
        {
            if self.entries[i].0 == wanted {
                proof {
                    let keys = self.keys();
                    assert(keys[i as int] == key@);
                    assert(keys.contains(key@));
                    let first = keys.index_of(key@);
                    assert(0 <= first < keys.len() && keys[first] == key@);
                    assert(self.entries@[first].0@ == self.entries@[i as int].0@);
                    if first < i {
                        assert(self.entries@[first].0@ != self.entries@[i as int].0@);
                    }
                    if i < first {
                        assert(self.entries@[i as int].0@ != self.entries@[first].0@);
                    }
                    assert(first == i as int);
                }
                return Some(i);
            }
            i = i + 1;
        }
        assert(!self.keys().contains(key@));
        None
    }

    /// The value stored under `key`, where it is present.
    pub fn get(&self, key: &str) -> (found: Option<&V>)
        ensures
            match found {
                Some(value) => self.has(key@) && *value == self.at(key@) && assoc_get(
                    self.entries(),
                    key@,
                ) == Some(*value),
                None => !self.has(key@) && assoc_get(self.entries(), key@) is None,
            },
    {
        assert(keys_of(self.entries()) =~= self.keys());
        match self.find(key) {
            Some(index) => Some(&self.entries[index].1),
            None => None,
        }
    }

    /// Gives the pairs out, in order of first insertion.
    pub fn into_entries(self) -> (pairs: Vec<(String, V)>)
        ensures
            pairs@.len() == self.keys().len(),
            forall|i: int|
                0 <= i < pairs@.len() ==> (#[trigger] pairs@[i]).0@ == self.keys()[i] && pairs@[i].1
                    == self.values()[i],
    {
        self.entries
    }

    /// Whether `key` is present.
    pub fn contains_key(&self, key: &str) -> (present: bool)
        ensures
            present == self.has(key@),
    {
        self.find(key).is_some()
    }

    /// Stores `value` under `key`: in place of the value that the key had,
    /// or, for a new key, behind all others.
    pub fn insert(&mut self, key: String, value: V)
        ensures
            final(self).wf(),
            old(self).has(key@) ==> {
                &&& final(self).keys() == old(self).keys()
                &&& final(self).values() == old(self).values().update(
                    old(self).keys().index_of(key@),
                    value,
                )
            },
            !old(self).has(key@) ==> {
                &&& final(self).keys() == old(self).keys().push(key@)
                &&& final(self).values() == old(self).values().push(value)
            },
            final(self).entries() == assoc_put(old(self).entries(), key@, value),
    {
        proof {
            use_type_invariant(&*self);
        }
        let found = self.find(key.as_str());
        let mut taken = Table { entries: Vec::new() };
        core::mem::swap(self, &mut taken);
        let mut entries = taken.entries;
        match found {
            Some(index) => {
                entries.set(index, (key, value));
            },
            None => {
                assert forall|j: int| 0 <= j < entries@.len() implies entries@[j].0@ != key@ by {
                    assert(old(self).keys()[j] == entries@[j].0@);
                }
                entries.push((key, value));
            },
        }
        *self = Table { entries };
        proof {
            assert(keys_of(old(self).entries()) =~= old(self).keys());
            if found is Some {
                assert(self.keys() =~= old(self).keys());
                assert(self.values() =~= old(self).values().update(found.unwrap() as int, value));
            } else {
                assert(self.keys() =~= old(self).keys().push(key@));
                assert(self.values() =~= old(self).values().push(value));
            }
            assert(self.entries() =~= assoc_put(old(self).entries(), key@, value));
        }
        assert(self.keys().no_duplicates());
    }
}

impl<V> Default for Table<V> {
    /// An empty table.
    fn default() -> (table: Self)
        ensures
            table.keys() == Seq::<Seq<char>>::empty(),
            table.values() == Seq::<V>::empty(),
    {
        Table::new()
    }
}

impl<V: Clone> Clone for Table<V> {
    /// A table with the same keys in the same order, and a clone of each
    /// value.
    fn clone(&self) -> (copy: Self)
        ensures
            copy.keys() == self.keys(),
            copy.values().len() == self.values().len(),
            forall|i: int|
                0 <= i < self.values().len() ==> cloned(
                    #[trigger] self.values()[i],
                    copy.values()[i],
                ),
    {
        let mut copy: Table<V> = Table::new();
        let mut i: usize = 0;
        self.check();
        while i < self.len()
            invariant
                i <= self.keys().len(),
                self.wf(),
                copy.keys() == self.keys().take(i as int),
                copy.values().len() == i,
                forall|j: int|
                    0 <= j < i ==> cloned(#[trigger] self.values()[j], copy.values()[j]),
            decreases self.keys().len() - i,
        {
            let key: String = self.key(i).clone();
            let value: V = self.value(i).clone();
            proof {
                let keys = self.keys();
                if copy.has(key@) {
                    let j = copy.keys().index_of(key@);
                    assert(copy.keys()[j] == key@);
                    assert(keys[j] == keys[i as int]);
                }
            }
            copy.insert(key, value);
            i = i + 1;
            assert(copy.keys() =~= self.keys().take(i as int));
        }
        assert(self.keys().take(i as int) =~= self.keys());
        copy
    }
}

/// The table that is left when `values` are stored under `keys` one after
/// another.
pub fn table_of<V>(keys: Vec<String>, values: Vec<V>) -> (table: Table<V>)
    requires
        keys@.len() == values@.len(),
    ensures
        table.entries() == assoc_fold(
            keys@.map_values(|s: String| s@),
            values@,
            keys@.len(),
        ),
        table.wf(),
{
    let ghost names = keys@.map_values(|s: String| s@);
    let ghost items = values@;
    let ghost count = keys@.len();
    let mut keys = reversed(keys);
    let mut values = reversed(values);
    let mut table: Table<V> = Table::new();
    assert(table.entries() =~= assoc_fold(names, items, 0));
    while keys.len() > 0
        invariant
            keys@.len() == values@.len(),
            keys@.len() <= count,
            names.len() == count,
            items.len() == count,
            forall|i: int| 0 <= i < keys@.len() ==> (#[trigger] keys@[i])@ == names[count - 1 - i],
            forall|i: int| 0 <= i < values@.len() ==> values@[i] == items[count - 1 - i],
            table.entries() == assoc_fold(names, items, (count - keys@.len()) as nat),
        decreases keys@.len(),
    {
        let key: String = keys.pop().unwrap();
        let value: V = values.pop().unwrap();
        table.insert(key, value);
    }
    table.check();
    table
}

} // verus!
