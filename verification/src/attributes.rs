// SPDX-License-Identifier: AGPL-3.0-or-later
//! The attribute bag of a note: text keys, each with one JSON value.

use vstd::prelude::*;

verus! {

/// `serde_json::Value`: a JSON value of any shape. The library stores such
/// values and hands them back; it never looks inside one.
#[verifier::external_type_specification]
#[verifier::external_body]
pub struct ExJsonValue(serde_json::Value);

/// A mapping from text keys to JSON values. No key occurs twice; the order
/// of the entries carries no meaning.
#[derive(Debug)]
pub struct Attributes {
    entries: Vec<(String, serde_json::Value)>,
}

/// The keys of `entries` are pairwise different.
pub open spec fn keys_distinct(entries: Seq<(String, serde_json::Value)>) -> bool {
    forall|i: int, j: int|
        0 <= i < entries.len() && 0 <= j < entries.len() && i != j
            ==> (#[trigger] entries[i]).0@ != (#[trigger] entries[j]).0@
}

/// `key` is the key of some entry.
pub open spec fn has_key(entries: Seq<(String, serde_json::Value)>, key: Seq<char>) -> bool {
    exists|i: int| 0 <= i < entries.len() && (#[trigger] entries[i]).0@ == key
}

/// The mapping that a list of entries with distinct keys stands for.
pub open spec fn mapping_of(entries: Seq<(String, serde_json::Value)>) -> Map<
    Seq<char>,
    serde_json::Value,
> {
    Map::new(
        |key: Seq<char>| has_key(entries, key),
        |key: Seq<char>|
            entries[choose|i: int| 0 <= i < entries.len() && (#[trigger] entries[i]).0@ == key].1,
    )
}

impl View for Attributes {
    type V = Map<Seq<char>, serde_json::Value>;

    closed spec fn view(&self) -> Map<Seq<char>, serde_json::Value> {
        mapping_of(self.entries@)
    }
}

/// `Clone::clone` of `serde_json::Value`: the copy equals the value it was
/// made from.
#[verifier::external_body]
fn clone_value(value: &serde_json::Value) -> (copy: serde_json::Value)
    ensures
        copy == *value,
{
    value.clone()
}

impl Clone for Attributes {
    fn clone(&self) -> (copy: Attributes)
        ensures
            copy@ == self@,
    {
        proof {
            use_type_invariant(self);
        }
        let mut entries: Vec<(String, serde_json::Value)> = Vec::new();
        let mut i: usize = 0;
        while i < self.entries.len()
            invariant
                i <= self.entries.len(),
                entries@ == self.entries@.take(i as int),
            decreases self.entries.len() - i,
        {
            let key = self.entries[i].0.clone();
            let value = clone_value(&self.entries[i].1);
            entries.push((key, value));
            assert(entries@ =~= self.entries@.take(i + 1));
            i += 1;
        }
        assert(entries@ =~= self.entries@);
        Attributes { entries }
    }
}

impl Attributes {
    #[verifier::type_invariant]
    spec fn inv(self) -> bool {
        keys_distinct(self.entries@)
    }

    /// The empty bag.
    pub fn new() -> (bag: Attributes)
        ensures
            bag@ == Map::<Seq<char>, serde_json::Value>::empty(),
    {
        let bag = Attributes { entries: Vec::new() };
        assert(bag@ =~= Map::<Seq<char>, serde_json::Value>::empty());
        bag
    }

    /// Whether the bag holds no entry.
    pub fn is_empty(&self) -> (empty: bool)
        ensures
            empty == (self@ == Map::<Seq<char>, serde_json::Value>::empty()),
    {
        let empty = self.entries.len() == 0;
        proof {
            if empty {
                assert(self@ =~= Map::<Seq<char>, serde_json::Value>::empty());
            } else {
                assert(has_key(self.entries@, self.entries@[0].0@));
                assert(self@.contains_key(self.entries@[0].0@));
            }
        }
        empty
    }

    /// The value stored under `key`, if there is one.
    pub fn get(&self, key: &str) -> (found: Option<&serde_json::Value>)
        ensures
            match found {
                Some(value) => self@.contains_key(key@) && self@[key@] == *value,
                None => !self@.contains_key(key@),
            },
    {
        proof {
            use_type_invariant(self);
        }
        let wanted = key.to_owned();
        let mut i: usize = 0;
        while i < self.entries.len()
            invariant
                i <= self.entries.len(),
                wanted@ == key@,
                keys_distinct(self.entries@),
                forall|j: int| 0 <= j < i ==> (#[trigger] self.entries@[j]).0@ != key@,
            decreases self.entries.len() - i,
        {
            if self.entries[i].0 == wanted {
                assert(has_key(self.entries@, key@));
                return Some(&self.entries[i].1);
            }
            i += 1;
        }
        None
    }

    /// Stores `value` under `key` and returns the value that stood there
    /// before, if any.
    pub fn insert(&mut self, key: String, value: serde_json::Value) -> (previous: Option<
        serde_json::Value,
    >)
        ensures
            final(self)@ == old(self)@.insert(key@, value),
            match previous {
                Some(before) => old(self)@.contains_key(key@) && old(self)@[key@] == before,
                None => !old(self)@.contains_key(key@),
            },
    {
        proof {
            use_type_invariant(&*self);
        }
        let mut entries: Vec<(String, serde_json::Value)> = Vec::new();
        core::mem::swap(&mut self.entries, &mut entries);
        let mut i: usize = 0;
        while i < entries.len()
            invariant
                i <= entries.len(),
                entries@ == old(self).entries@,
                keys_distinct(entries@),
                forall|j: int| 0 <= j < i ==> (#[trigger] entries@[j]).0@ != key@,
            decreases entries.len() - i,
        {
            if entries[i].0 == key {
                let replaced = entries.remove(i);
                entries.insert(i, (key, value));
                proof {
                    assert(entries@ =~= old(self).entries@.update(i as int, (key, value)));
                    lemma_update_value(old(self).entries@, i as int, key, value);
                }
                self.entries = entries;
                return Some(replaced.1);
            }
            i += 1;
        }
        entries.push((key, value));
        proof {
            lemma_push_entry(old(self).entries@, key, value);
        }
        self.entries = entries;
        None
    }

    /// The entries of the bag, one per key, in no particular order.
    pub fn entries(&self) -> (list: &Vec<(String, serde_json::Value)>)
        ensures
            keys_distinct(list@),
            mapping_of(list@) == self@,
    {
        proof {
            use_type_invariant(self);
        }
        &self.entries
    }
}

/// With distinct keys, the mapping gives each entry's value under its key.
pub proof fn lemma_mapping_of_entry(entries: Seq<(String, serde_json::Value)>, i: int)
    requires
        keys_distinct(entries),
        0 <= i < entries.len(),
    ensures
        mapping_of(entries).contains_key(entries[i].0@),
        mapping_of(entries)[entries[i].0@] == entries[i].1,
{
    let key = entries[i].0@;
    assert(has_key(entries, key));
    let c = choose|c: int| 0 <= c < entries.len() && (#[trigger] entries[c]).0@ == key;
    assert(c == i);
}

proof fn lemma_update_value(
    entries: Seq<(String, serde_json::Value)>,
    i: int,
    key: String,
    value: serde_json::Value,
)
    requires
        keys_distinct(entries),
        0 <= i < entries.len(),
        entries[i].0@ == key@,
    ensures
        keys_distinct(entries.update(i, (key, value))),
        mapping_of(entries.update(i, (key, value))) == mapping_of(entries).insert(key@, value),
        mapping_of(entries)[key@] == entries[i].1,
{
    let after = entries.update(i, (key, value));
    assert(keys_distinct(after)) by {
        assert forall|a: int, b: int|
            0 <= a < after.len() && 0 <= b < after.len() && a != b implies (#[trigger] after[a]).0@
            != (#[trigger] after[b]).0@ by {
            assert(after[a].0@ == entries[a].0@);
            assert(after[b].0@ == entries[b].0@);
        }
    }
    lemma_mapping_of_entry(entries, i);
    let lhs = mapping_of(after);
    let rhs = mapping_of(entries).insert(key@, value);
    assert forall|k: Seq<char>| lhs.contains_key(k) <==> rhs.contains_key(k) by {
        if has_key(after, k) {
            let c = choose|c: int| 0 <= c < after.len() && (#[trigger] after[c]).0@ == k;
            assert(entries[c].0@ == k);
        }
        if has_key(entries, k) {
            let c = choose|c: int| 0 <= c < entries.len() && (#[trigger] entries[c]).0@ == k;
            assert(after[c].0@ == k);
        }
    }
    assert forall|k: Seq<char>| lhs.contains_key(k) implies lhs[k] == rhs[k] by {
        let c = choose|c: int| 0 <= c < after.len() && (#[trigger] after[c]).0@ == k;
        lemma_mapping_of_entry(after, c);
        if c == i {
        } else {
            assert(entries[c].0@ == k);
            lemma_mapping_of_entry(entries, c);
        }
    }
    assert(lhs =~= rhs);
}

proof fn lemma_push_entry(
    entries: Seq<(String, serde_json::Value)>,
    key: String,
    value: serde_json::Value,
)
    requires
        keys_distinct(entries),
        forall|j: int| 0 <= j < entries.len() ==> (#[trigger] entries[j]).0@ != key@,
    ensures
        keys_distinct(entries.push((key, value))),
        mapping_of(entries.push((key, value))) == mapping_of(entries).insert(key@, value),
        !mapping_of(entries).contains_key(key@),
{
    let after = entries.push((key, value));
    assert(keys_distinct(after)) by {
        assert forall|a: int, b: int|
            0 <= a < after.len() && 0 <= b < after.len() && a != b implies (#[trigger] after[a]).0@
            != (#[trigger] after[b]).0@ by {
            if a < entries.len() {
                assert(after[a] == entries[a]);
            }
            if b < entries.len() {
                assert(after[b] == entries[b]);
            }
        }
    }
    let lhs = mapping_of(after);
    let rhs = mapping_of(entries).insert(key@, value);
    assert forall|k: Seq<char>| lhs.contains_key(k) <==> rhs.contains_key(k) by {
        if has_key(after, k) {
            let c = choose|c: int| 0 <= c < after.len() && (#[trigger] after[c]).0@ == k;
            if c < entries.len() {
                assert(entries[c].0@ == k);
            }
        }
        if has_key(entries, k) {
            let c = choose|c: int| 0 <= c < entries.len() && (#[trigger] entries[c]).0@ == k;
            assert(after[c].0@ == k);
        }
        if k == key@ {
            assert(after[entries.len() as int].0@ == k);
        }
    }
    assert forall|k: Seq<char>| lhs.contains_key(k) implies lhs[k] == rhs[k] by {
        let c = choose|c: int| 0 <= c < after.len() && (#[trigger] after[c]).0@ == k;
        lemma_mapping_of_entry(after, c);
        if c < entries.len() {
            assert(entries[c].0@ == k);
            lemma_mapping_of_entry(entries, c);
        }
    }
    assert(lhs =~= rhs);
}

} // verus!
