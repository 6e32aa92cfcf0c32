//! Short texts and collections that are keyed by them.

use smol_str::SmolStr;
use std::sync::Arc;
use vstd::std_specs::cmp::PartialEqSpec;
use vstd::prelude::*;

verus! {

/// The immutable string type of the `smol_str` crate, opaque here: all that is known of a value
/// is the text that [`smol_str_text`] gives.
#[verifier::external_type_specification]
#[verifier::external_body]
pub struct ExSmolStr(SmolStr);

/// The characters that a [`SmolStr`] holds, in order.
pub uninterp spec fn smol_str_text(s: SmolStr) -> Seq<char>;

/// Calls [`SmolStr::new`], which copies the given text: the new string holds exactly those
/// characters.
#[verifier::external_body]
pub(crate) fn smol_str_new(text: &str) -> (s: SmolStr)
    ensures
        smol_str_text(s) == text@,
{
    SmolStr::new(text)
}

/// Calls `SmolStr`'s `Clone::clone`: the copy holds the same characters.
#[verifier::external_body]
pub(crate) fn smol_str_clone(s: &SmolStr) -> (copy: SmolStr)
    ensures
        smol_str_text(copy) == smol_str_text(*s),
{
    s.clone()
}

/// Calls `SmolStr`'s `PartialEq::eq`, which compares the characters, however either side stores
/// them.
#[verifier::external_body]
pub(crate) fn smol_str_eq(a: &SmolStr, b: &SmolStr) -> (same: bool)
    ensures
        same == (smol_str_text(*a) == smol_str_text(*b)),
{
    a == b
}

/// A value that is identified by a text.
pub trait TextKey: Sized {
    /// The text that identifies the value.
    spec fn text(&self) -> Seq<char>;

    /// Whether two values are identified by the same text.
    fn same_text(&self, other: &Self) -> (same: bool)
        ensures
            same == (self.text() == other.text()),
    ;

    /// A value that is identified by the same text.
    fn copy(&self) -> (copy: Self)
        ensures
            copy.text() == self.text(),
    ;
}

impl TextKey for SmolStr {
    open spec fn text(&self) -> Seq<char> {
        smol_str_text(*self)
    }

    fn same_text(&self, other: &Self) -> (same: bool) {
        smol_str_eq(self, other)
    }

    fn copy(&self) -> (copy: Self) {
        smol_str_clone(self)
    }
}

/// A value whose copies are equal to it.
pub trait Duplicate: Sized {
    /// An equal value.
    fn duplicate(&self) -> (copy: Self)
        ensures
            copy == *self,
    ;
}

impl<T> Duplicate for Arc<T> {
    fn duplicate(&self) -> (copy: Self) {
        self.clone()
    }
}

impl<A: Duplicate, B: Duplicate> Duplicate for (A, B) {
    fn duplicate(&self) -> (copy: Self) {
        (self.0.duplicate(), self.1.duplicate())
    }
}

/// The texts of a sequence of keys, in order.
pub open spec fn texts<K: TextKey>(keys: Seq<K>) -> Seq<Seq<char>> {
    keys.map_values(|k: K| k.text())
}

/// The texts of a sequence of references to keys, in order.
pub open spec fn ref_texts<K: TextKey>(keys: Seq<&K>) -> Seq<Seq<char>> {
    keys.map_values(|k: &K| k.text())
}

/// The texts of the keys of a sequence of pairs, in order.
pub open spec fn pair_texts<K: TextKey, V>(pairs: Seq<(K, V)>) -> Seq<Seq<char>> {
    pairs.map_values(|p: (K, V)| p.0.text())
}

/// The elements of a concatenation are those of either part.
pub proof fn lemma_to_set_of_sum<T>(left: Seq<T>, right: Seq<T>)
    ensures
        (left + right).to_set() == left.to_set().union(right.to_set()),
{
    assert forall|x: T| (left + right).contains(x) <==> left.contains(x) || right.contains(x) by {
        if left.contains(x) {
            let i = choose|i: int| 0 <= i < left.len() && left[i] == x;
            assert((left + right)[i] == x);
        }
        if right.contains(x) {
            let i = choose|i: int| 0 <= i < right.len() && right[i] == x;
            assert((left + right)[left.len() + i] == x);
        }
    }
    assert((left + right).to_set() =~= left.to_set().union(right.to_set()));
}

/// The map that comes of inserting the pairs one after the other: of two pairs with the same
/// key text, the later one stands.
pub open spec fn collected<K: TextKey, V>(pairs: Seq<(K, V)>) -> Map<Seq<char>, V>
    decreases pairs.len(),
{
    if pairs.len() == 0 {
        Map::empty()
    } else {
        collected(pairs.drop_last()).insert(pairs.last().0.text(), pairs.last().1)
    }
}

/// The key texts of the pairs in the order of their first occurrence, each of them once.
pub open spec fn first_occurrences<K: TextKey, V>(pairs: Seq<(K, V)>) -> Seq<Seq<char>>
    decreases pairs.len(),
{
    if pairs.len() == 0 {
        Seq::empty()
    } else {
        let before = first_occurrences(pairs.drop_last());
        if before.contains(pairs.last().0.text()) {
            before
        } else {
            before.push(pairs.last().0.text())
        }
    }
}

/// One pair more is one insertion more.
pub proof fn lemma_collected_push<K: TextKey, V>(pairs: Seq<(K, V)>, pair: (K, V))
    ensures
        collected(pairs.push(pair)) == collected(pairs).insert(pair.0.text(), pair.1),
{
    assert(pairs.push(pair).drop_last() =~= pairs);
}

/// The keys of the collected map are the key texts of the pairs.
pub proof fn lemma_collected_dom<K: TextKey, V>(pairs: Seq<(K, V)>)
    ensures
        collected(pairs).dom() == pair_texts(pairs).to_set(),
    decreases pairs.len(),
{
    let keys = pair_texts(pairs);
    if pairs.len() > 0 {
        let init = pairs.drop_last();
        lemma_collected_dom(init);
        assert(pair_texts(init) =~= keys.drop_last());
        assert(keys.last() == pairs.last().0.text());
        assert forall|k: Seq<char>| keys.contains(k) <==> keys.drop_last().contains(k) || k
            == keys.last() by {
            if keys.contains(k) && k != keys.last() {
                let j = choose|j: int| 0 <= j < keys.len() && keys[j] == k;
                assert(keys.drop_last()[j] == k);
            }
            if keys.drop_last().contains(k) {
                let j = choose|j: int| 0 <= j < init.len() && keys.drop_last()[j] == k;
                assert(keys[j] == k);
            }
            assert(keys[keys.len() - 1] == keys.last());
        }
    }
    assert(collected(pairs).dom() =~= keys.to_set());
}

/// What comes of inserting pairs depends on their key texts and values alone.
proof fn lemma_collected_congruent<K: TextKey, V>(left: Seq<(K, V)>, right: Seq<(K, V)>)
    requires
        left.len() == right.len(),
        forall|i: int|
            #![trigger left[i]]
            0 <= i < left.len() ==> left[i].0.text() == right[i].0.text() && left[i].1
                == right[i].1,
    ensures
        collected(left) == collected(right),
    decreases left.len(),
{
    if left.len() > 0 {
        assert(left.last() == left[left.len() - 1]);
        assert forall|i: int| #![trigger left.drop_last()[i]] 0 <= i < left.len() - 1 implies
            left.drop_last()[i].0.text() == right.drop_last()[i].0.text() && left.drop_last()[i].1
            == right.drop_last()[i].1 by {
            assert(left[i] == left.drop_last()[i]);
        }
        lemma_collected_congruent(left.drop_last(), right.drop_last());
    }
}

/// Where no key text occurs twice, every pair stands in the collected map, and nothing else does.
proof fn lemma_collected_of_distinct<K: TextKey, V>(pairs: Seq<(K, V)>)
    requires
        pair_texts(pairs).no_duplicates(),
    ensures
        forall|i: int|
            #![trigger pairs[i]]
            0 <= i < pairs.len() ==> collected(pairs).contains_key(pairs[i].0.text())
                && collected(pairs)[pairs[i].0.text()] == pairs[i].1,
        forall|k: Seq<char>| #[trigger]
            collected(pairs).contains_key(k) ==> pair_texts(pairs).contains(k),
        collected(pairs).dom() =~= pair_texts(pairs).to_set(),
    decreases pairs.len(),
{
    if pairs.len() > 0 {
        let init = pairs.drop_last();
        let keys = pair_texts(pairs);
        assert(pair_texts(init) =~= keys.drop_last());
        lemma_collected_of_distinct(init);
        assert(keys[pairs.len() - 1] == pairs.last().0.text());
        assert forall|i: int| #![trigger pairs[i]] 0 <= i < pairs.len() implies collected(
            pairs,
        ).contains_key(pairs[i].0.text()) && collected(pairs)[pairs[i].0.text()] == pairs[i].1 by {
            if i < pairs.len() - 1 {
                assert(init[i] == pairs[i]);
                assert(keys[i] == pairs[i].0.text());
            }
        }
        assert forall|k: Seq<char>| #[trigger]
            collected(pairs).contains_key(k) implies keys.contains(k) by {
            if k != pairs.last().0.text() {
                let j = choose|j: int| 0 <= j < init.len() && pair_texts(init)[j] == k;
                assert(keys[j] == k);
            } else {
                assert(keys[pairs.len() - 1] == k);
            }
        }
        assert forall|k: Seq<char>| keys.contains(k) implies collected(pairs).contains_key(k) by {
            let j = choose|j: int| 0 <= j < keys.len() && keys[j] == k;
            assert(pairs[j].0.text() == k);
        }
    }
}

/// Replacing the value of one of several pairs with distinct keys inserts the new value under
/// that pair's key.
proof fn lemma_collected_of_update<K: TextKey, V>(pairs: Seq<(K, V)>, i: int, value: V)
    requires
        pair_texts(pairs).no_duplicates(),
        0 <= i < pairs.len(),
    ensures
        pair_texts(pairs.update(i, (pairs[i].0, value))) == pair_texts(pairs),
        collected(pairs.update(i, (pairs[i].0, value))) == collected(pairs).insert(
            pairs[i].0.text(),
            value,
        ),
{
    let updated = pairs.update(i, (pairs[i].0, value));
    let key = pairs[i].0.text();
    assert(pair_texts(updated) =~= pair_texts(pairs));
    lemma_collected_of_distinct(pairs);
    lemma_collected_of_distinct(updated);
    assert(updated[i] == (pairs[i].0, value));
    let expected = collected(pairs).insert(key, value);
    assert(collected(updated).dom() =~= expected.dom());
    assert forall|k: Seq<char>| collected(updated).contains_key(k) implies collected(updated)[k]
        == expected[k] by {
        let j = choose|j: int| 0 <= j < pairs.len() && pair_texts(pairs)[j] == k;
        assert(pairs[j].0.text() == k && updated[j].0.text() == k);
        if k == key {
            assert(pair_texts(pairs)[i] == pair_texts(pairs)[j]);
            assert(i == j);
        } else {
            assert(updated[j] == pairs[j]);
        }
    }
    assert(collected(updated) =~= expected);
}

/// A map from texts to values that keeps its entries in the order in which their keys were first
/// inserted. No two entries have the same key text.
#[derive(Debug)]
pub struct TextMap<K: TextKey, V> {
    entries: Vec<(K, V)>,
}

impl<K: TextKey, V> TextMap<K, V> {
    /// The entries, in order.
    pub closed spec fn entry_seq(&self) -> Seq<(K, V)> {
        self.entries@
    }

    /// The key texts, in the order of the entries.
    pub open spec fn keys(&self) -> Seq<Seq<char>> {
        pair_texts(self.entry_seq())
    }

    /// No two entries have the same key text. Every map that is built has this.
    #[verifier::type_invariant]
    pub open spec fn distinct_keys(self) -> bool {
        self.keys().no_duplicates()
    }

    /// The keys of the map are the texts of its entries, and each entry holds the value under its
    /// key.
    pub proof fn lemma_entries(&self)
        requires
            self.distinct_keys(),
        ensures
            self.keys().to_set() == self@.dom(),
            forall|i: int|
                #![trigger self.entry_seq()[i]]
                0 <= i < self.entry_seq().len() ==> self@.contains_key(
                    self.entry_seq()[i].0.text(),
                ) && self@[self.entry_seq()[i].0.text()] == self.entry_seq()[i].1,
            forall|k: Seq<char>| #[trigger]
                self@.contains_key(k) ==> exists|i: int|
                    0 <= i < self.entry_seq().len() && (#[trigger] self.entry_seq()[i]).0.text()
                        == k,
    {
        lemma_collected_of_distinct(self.entry_seq());
        assert forall|k: Seq<char>| #[trigger] self@.contains_key(k) implies exists|i: int|
            0 <= i < self.entry_seq().len() && (#[trigger] self.entry_seq()[i]).0.text() == k by {
            let i = choose|i: int| 0 <= i < self.keys().len() && self.keys()[i] == k;
            assert(self.entry_seq()[i].0.text() == k);
        }
    }

    /// The position of the entry with the key text of `key`, if there is one.
    fn position(entries: &Vec<(K, V)>, key: &K) -> (r: Option<usize>)
        ensures
            match r {
                Some(i) => i < entries@.len() && entries@[i as int].0.text() == key.text(),
                None => forall|i: int|
                    0 <= i < entries@.len() ==> (#[trigger] entries@[i]).0.text() != key.text(),
            },
    {
        let mut i: usize = 0;
        while i < entries.len()
            invariant
                i <= entries.len(),
                forall|j: int| 0 <= j < i ==> (#[trigger] entries@[j]).0.text() != key.text(),
            decreases entries.len() - i,
        {
            if entries[i].0.same_text(key) {
                return Some(i);
            }
            i += 1;
        }
        None
    }

    /// The map that comes of inserting the pairs one after the other: of two pairs with the same
    /// key text, the later one's value stands, in the place of the first one.
    pub fn from_pairs(pairs: Vec<(K, V)>) -> (map: Self)
        ensures
            map@ == collected(pairs@),
            map.keys() == first_occurrences(pairs@),
    {
        let mut entries: Vec<(K, V)> = Vec::new();
        let ghost all = pairs@;
        assert(pair_texts(entries@) =~= first_occurrences(all.take(0)));
        for pair in it: pairs
            invariant
                it.seq() == all,
                pair_texts(entries@).no_duplicates(),
                collected(entries@) == collected(all.take(it.index() as int)),
                pair_texts(entries@) == first_occurrences(all.take(it.index() as int)),
        {
            let ghost n = it.index() as int;
            let ghost before = entries@;
            let ghost key = pair.0.text();
            assert(all.take(n + 1).drop_last() =~= all.take(n));
            assert(all.take(n + 1).last() == pair);
            let found = Self::position(&entries, &pair.0);
            match found {
                Some(i) => {
                    let (_, value) = pair;
                    proof {
                        lemma_collected_of_update(before, i as int, value);
                        assert(pair_texts(before)[i as int] == key);
                    }
                    entries[i].1 = value;
                    assert(entries@ =~= before.update(i as int, (before[i as int].0, value)));
                },
                None => {
                    entries.push(pair);
                    proof {
                        assert(entries@.drop_last() =~= before);
                        assert(pair_texts(entries@) =~= pair_texts(before).push(key));
                        assert forall|j: int| 0 <= j < before.len() implies pair_texts(before)[j]
                            != key by {
                            assert(before[j].0.text() != key);
                        }
                        assert(!pair_texts(before).contains(key));
                    }
                },
            }
        }
        assert(all.take(all.len() as int) =~= all);
        TextMap { entries }
    }

    /// The entries, in order: one for each key of the map.
    pub fn entries(&self) -> (entries: &Vec<(K, V)>)
        ensures
            entries@ == self.entry_seq(),
            self.keys().no_duplicates(),
            self.keys().to_set() == self@.dom(),
            forall|i: int|
                #![trigger self.entry_seq()[i]]
                0 <= i < self.entry_seq().len() ==> self@.contains_key(
                    self.entry_seq()[i].0.text(),
                ) && self@[self.entry_seq()[i].0.text()] == self.entry_seq()[i].1,
    {
        proof {
            use_type_invariant(self);
            lemma_collected_of_distinct(self.entries@);
        }
        &self.entries
    }

    /// The value under the key text of `key`, if there is one.
    pub fn get(&self, key: &K) -> (value: Option<&V>)
        ensures
            match value {
                Some(v) => self@.contains_key(key.text()) && *v == self@[key.text()],
                None => !self@.contains_key(key.text()),
            },
    {
        let entries = self.entries();
        match Self::position(entries, key) {
            Some(i) => Some(&entries[i].1),
            None => {
                proof {
                    if self@.contains_key(key.text()) {
                        assert(self.keys().to_set().contains(key.text()));
                        let j = choose|j: int|
                            0 <= j < self.keys().len() && self.keys()[j] == key.text();
                        assert(entries@[j].0.text() == key.text());
                    }
                }
                None
            },
        }
    }

    /// Whether there is no entry.
    pub fn is_empty(&self) -> (empty: bool)
        ensures
            empty == self@.dom().is_empty(),
    {
        let entries = self.entries();
        proof {
            if entries@.len() > 0 {
                assert(self@.dom().contains(self.entry_seq()[0].0.text()));
            } else {
                assert(self@.dom() =~= Set::empty());
            }
        }
        entries.len() == 0
    }

    /// The number of entries.
    pub fn len(&self) -> (n: usize)
        ensures
            n == self.keys().len(),
            n == self@.len(),
    {
        let entries = self.entries();
        proof {
            self.keys().unique_seq_to_set();
        }
        entries.len()
    }
}

impl<K: TextKey, V> Default for TextMap<K, V> {
    /// The map without entries.
    fn default() -> (map: Self)
        ensures
            map.entry_seq() == Seq::<(K, V)>::empty(),
            map@ == Map::<Seq<char>, V>::empty(),
    {
        TextMap { entries: Vec::new() }
    }
}

impl<K: TextKey, V: Duplicate> Clone for TextMap<K, V> {
    fn clone(&self) -> (map: Self)
        ensures
            map.keys() == self.keys(),
            map@ == self@,
    {
        let from = self.entries();
        let mut entries: Vec<(K, V)> = Vec::new();
        let mut i: usize = 0;
        while i < from.len()
            invariant
                i <= from.len(),
                entries.len() == i,
                forall|j: int|
                    #![trigger entries@[j]]
                    0 <= j < i ==> entries@[j].0.text() == from@[j].0.text() && entries@[j].1
                        == from@[j].1,
            decreases from.len() - i,
        {
            entries.push((from[i].0.copy(), from[i].1.duplicate()));
            i += 1;
        }
        proof {
            assert(pair_texts(entries@) =~= pair_texts(from@));
            lemma_collected_congruent(entries@, from@);
        }
        TextMap { entries }
    }
}

impl<K: TextKey, V: PartialEq> PartialEq for TextMap<K, V> {
    fn eq(&self, other: &Self) -> (same: bool) {
        let left = self.entries();
        let right = other.entries();
        let mut i: usize = 0;
        while i < left.len()
            invariant
                i <= left.len(),
                left@ == self.entry_seq(),
                forall|j: int|
                    #![trigger left@[j]]
                    0 <= j < i ==> other@.contains_key(left@[j].0.text()) && (V::obeys_eq_spec()
                        ==> left@[j].1.eq_spec(&other@[left@[j].0.text()])),
                forall|j: int|
                    #![trigger self.entry_seq()[j]]
                    0 <= j < self.entry_seq().len() ==> self@.contains_key(
                        self.entry_seq()[j].0.text(),
                    ) && self@[self.entry_seq()[j].0.text()] == self.entry_seq()[j].1,
            decreases left.len() - i,
        {
            assert(self.entry_seq()[i as int] == left@[i as int]);
            match other.get(&left[i].0) {
                Some(value) => {
                    if left[i].1 != *value {
                        return false;
                    }
                },
                None => {
                    return false;
                },
            }
            i += 1;
        }
        let mut i: usize = 0;
        while i < right.len()
            invariant
                i <= right.len(),
                right@ == other.entry_seq(),
                forall|j: int|
                    #![trigger right@[j]]
                    0 <= j < i ==> self@.contains_key(right@[j].0.text()),
                forall|j: int|
                    #![trigger other.entry_seq()[j]]
                    0 <= j < other.entry_seq().len() ==> other@.contains_key(
                        other.entry_seq()[j].0.text(),
                    ),
            decreases right.len() - i,
        {
            assert(other.entry_seq()[i as int] == right@[i as int]);
            if self.get(&right[i].0).is_none() {
                return false;
            }
            i += 1;
        }
        proof {
            assert forall|k: Seq<char>| self@.contains_key(k) <==> other@.contains_key(k) by {
                if self@.contains_key(k) {
                    assert(self.keys().to_set().contains(k));
                    let j = choose|j: int| 0 <= j < self.keys().len() && self.keys()[j] == k;
                    assert(left@[j].0.text() == k);
                }
                if other@.contains_key(k) {
                    assert(other.keys().to_set().contains(k));
                    let j = choose|j: int| 0 <= j < other.keys().len() && other.keys()[j] == k;
                    assert(right@[j].0.text() == k);
                }
            }
            assert(self@.dom() =~= other@.dom());
            if V::obeys_eq_spec() {
                assert forall|k: Seq<char>| #[trigger]
                    self@.contains_key(k) implies self@[k].eq_spec(&other@[k]) by {
                    assert(self.keys().to_set().contains(k));
                    let j = choose|j: int| 0 <= j < self.keys().len() && self.keys()[j] == k;
                    assert(left@[j].0.text() == k);
                }
            }
        }
        true
    }
}

impl<K: TextKey, V: PartialEq> vstd::std_specs::cmp::PartialEqSpecImpl for TextMap<K, V> {
    open spec fn obeys_eq_spec() -> bool {
        V::obeys_eq_spec()
    }

    open spec fn eq_spec(&self, other: &Self) -> bool {
        &&& self@.dom() == other@.dom()
        &&& forall|k: Seq<char>| #[trigger]
            self@.contains_key(k) ==> self@[k].eq_spec(&other@[k])
    }
}

impl<K: TextKey, V: Eq> Eq for TextMap<K, V> {

}

impl<K: TextKey, V> View for TextMap<K, V> {
    type V = Map<Seq<char>, V>;

    open spec fn view(&self) -> Map<Seq<char>, V> {
        collected(self.entry_seq())
    }
}

} // verus!
