//! What holds of maps that are keyed by texts, and of identifiers.

use vstd::prelude::*;
use vstd::std_specs::cmp::PartialEqSpec;

use crate::policy_id::PolicyID;
use crate::text;
use crate::text::{Duplicate, TextKey, TextMap};

verus! {

/// The pair at position `i` has the given key text, and no later pair has it.
pub open spec fn last_at<K: TextKey, V>(pairs: Seq<(K, V)>, key: Seq<char>, i: int) -> bool {
    &&& 0 <= i < pairs.len()
    &&& pairs[i].0.text() == key
    &&& forall|j: int| i < j < pairs.len() ==> (#[trigger] pairs[j]).0.text() != key
}

/// Of the pairs that have the given key text, the last one has the given value.
pub open spec fn last_value<K: TextKey, V>(pairs: Seq<(K, V)>, key: Seq<char>, value: V) -> bool {
    exists|i: int| #[trigger] last_at(pairs, key, i) && pairs[i].1 == value
}

/// The map has the key texts of the pairs, and under each of them the value of the last pair that
/// has it.
pub open spec fn holds_the_last<K: TextKey, V>(map: Map<Seq<char>, V>, pairs: Seq<(K, V)>) -> bool {
    forall|key: Seq<char>|
        #![trigger map.contains_key(key)]
        {
            &&& map.contains_key(key) <==> exists|i: int| #[trigger] last_at(pairs, key, i)
            &&& forall|i: int| #[trigger] last_at(pairs, key, i) ==> map[key] == pairs[i].1
        }
}

/// Inserting pairs one after the other leaves the last value under each key text.
pub proof fn lemma_collected<K: TextKey, V>(pairs: Seq<(K, V)>)
    ensures
        holds_the_last(text::collected(pairs), pairs),
    decreases pairs.len(),
{
    let map = text::collected(pairs);
    if pairs.len() > 0 {
        let init = pairs.drop_last();
        let before = text::collected(init);
        lemma_collected(init);
        let n = pairs.len() - 1;
        assert forall|key: Seq<char>| #![trigger map.contains_key(key)]
            {
                &&& map.contains_key(key) <==> exists|i: int| #[trigger] last_at(pairs, key, i)
                &&& forall|i: int| #[trigger] last_at(pairs, key, i) ==> map[key] == pairs[i].1
            } by {
            assert(before.contains_key(key) == before.contains_key(key));
            if pairs[n].0.text() == key {
                assert(last_at(pairs, key, n));
                assert forall|i: int| #[trigger] last_at(pairs, key, i) implies i == n by {}
            } else {
                assert forall|i: int| #[trigger] last_at(pairs, key, i) <==> last_at(
                    init,
                    key,
                    i,
                ) by {
                    if last_at(init, key, i) {
                        assert(init[i] == pairs[i]);
                        assert forall|j: int| i < j < pairs.len() implies (
                        #[trigger] pairs[j]).0.text() != key by {
                            if j < n {
                                assert(init[j] == pairs[j]);
                            }
                        }
                    }
                    if last_at(pairs, key, i) {
                        assert(init[i] == pairs[i]);
                        assert forall|j: int| i < j < init.len() implies (
                        #[trigger] init[j]).0.text() != key by {
                            assert(init[j] == pairs[j]);
                        }
                    }
                }
                if before.contains_key(key) {
                    let i = choose|i: int| #[trigger] last_at(init, key, i);
                    assert(last_at(pairs, key, i));
                }
                assert forall|i: int| #[trigger] last_at(pairs, key, i) implies map[key]
                    == pairs[i].1 by {
                    assert(last_at(init, key, i));
                }
                if exists|i: int| #[trigger] last_at(pairs, key, i) {
                    let i = choose|i: int| #[trigger] last_at(pairs, key, i);
                    assert(last_at(init, key, i));
                }
            }
        }
    }
}

/// If some pair has a key text, then one of them is the last.
proof fn lemma_some_pair_is_last<K: TextKey, V>(pairs: Seq<(K, V)>, i: int) -> (last: int)
    requires
        0 <= i < pairs.len(),
    ensures
        last_at(pairs, pairs[i].0.text(), last),
    decreases pairs.len() - i,
{
    let key = pairs[i].0.text();
    if exists|j: int| i < j < pairs.len() && (#[trigger] pairs[j]).0.text() == key {
        let j = choose|j: int| i < j < pairs.len() && (#[trigger] pairs[j]).0.text() == key;
        lemma_some_pair_is_last(pairs, j)
    } else {
        i
    }
}

/// A map that is made of pairs gives for a key the value of the last pair with that key, and
/// nothing if there is none.
pub proof fn map_gives_the_last_pair<K: TextKey, V>(
    pairs: Vec<(K, V)>,
    map: TextMap<K, V>,
    key: &K,
    value: Option<&V>,
)
    requires
        call_ensures(TextMap::<K, V>::from_pairs, (pairs,), map),
        call_ensures(TextMap::<K, V>::get, (&map, key), value),
    ensures
        match value {
            Some(v) => last_value(pairs@, key.text(), *v),
            None => forall|i: int|
                0 <= i < pairs@.len() ==> (#[trigger] pairs@[i]).0.text() != key.text(),
        },
{
    lemma_collected(pairs@);
    if value is None {
        assert forall|i: int| 0 <= i < pairs@.len() implies (#[trigger] pairs@[i]).0.text()
            != key.text() by {
            if pairs@[i].0.text() == key.text() {
                let last = lemma_some_pair_is_last(pairs@, i);
                assert(last_at(pairs@, key.text(), last));
            }
        }
    }
}

/// The contents of a map that is made of pairs are the last value for each key.
pub proof fn map_holds_the_last_pairs<K: TextKey, V>(pairs: Vec<(K, V)>, map: TextMap<K, V>)
    requires
        call_ensures(TextMap::<K, V>::from_pairs, (pairs,), map),
    ensures
        holds_the_last(map@, pairs@),
{
    lemma_collected(pairs@);
}

/// The key texts in the order of their first occurrence: which they are, that none occurs twice,
/// and that each of them occurs among the pairs before any later one does.
pub proof fn lemma_first_occurrences<K: TextKey, V>(pairs: Seq<(K, V)>)
    ensures
        text::first_occurrences(pairs).no_duplicates(),
        forall|key: Seq<char>| #[trigger]
            text::first_occurrences(pairs).contains(key) <==> exists|p: int|
                0 <= p < pairs.len() && (#[trigger] pairs[p]).0.text() == key,
        forall|i: int, j: int|
            0 <= i < j < text::first_occurrences(pairs).len() ==> #[trigger] comes_first(
                pairs,
                text::first_occurrences(pairs)[i],
                text::first_occurrences(pairs)[j],
            ),
    decreases pairs.len(),
{
    let keys = text::first_occurrences(pairs);
    if pairs.len() > 0 {
        let init = pairs.drop_last();
        let before = text::first_occurrences(init);
        let last = pairs.last().0.text();
        lemma_first_occurrences(init);
        assert forall|key: Seq<char>| #[trigger] keys.contains(key) <==> exists|p: int|
            0 <= p < pairs.len() && (#[trigger] pairs[p]).0.text() == key by {
            if keys.contains(key) {
                if before.contains(key) {
                    let p = choose|p: int| 0 <= p < init.len() && (#[trigger] init[p]).0.text()
                        == key;
                    assert(pairs[p].0.text() == key);
                } else {
                    let i = choose|i: int| 0 <= i < keys.len() && keys[i] == key;
                    if i < before.len() {
                        assert(before[i] == key);
                    }
                    assert(pairs[pairs.len() - 1].0.text() == key);
                }
            }
            if exists|p: int| 0 <= p < pairs.len() && (#[trigger] pairs[p]).0.text() == key {
                let p = choose|p: int| 0 <= p < pairs.len() && (#[trigger] pairs[p]).0.text()
                    == key;
                if p < pairs.len() - 1 {
                    assert(init[p].0.text() == key);
                    assert(before.contains(key));
                }
                if before.contains(key) {
                    let i = choose|i: int| 0 <= i < before.len() && before[i] == key;
                    assert(keys[i] == key);
                } else {
                    assert(keys[keys.len() - 1] == key);
                }
            }
        }
        assert forall|i: int, j: int| 0 <= i < j < keys.len() implies #[trigger] comes_first(
            pairs,
            keys[i],
            keys[j],
        ) by {
            assert(keys[i] == before[i]);
            if j < before.len() {
                assert(keys[j] == before[j]);
                assert(comes_first(init, before[i], before[j]));
                let p = choose|p: int| #[trigger] before_any(init, before[i], before[j], p);
                assert(init[p] == pairs[p]);
                assert forall|q: int| 0 <= q <= p implies (#[trigger] pairs[q]).0.text()
                    != keys[j] by {
                    assert(init[q] == pairs[q]);
                }
                assert(before_any(pairs, keys[i], keys[j], p));
            } else {
                assert(before.contains(before[i]));
                let p = choose|p: int| 0 <= p < init.len() && (#[trigger] init[p]).0.text()
                    == before[i];
                assert(init[p] == pairs[p]);
                assert forall|q: int| 0 <= q <= p implies (#[trigger] pairs[q]).0.text()
                    != keys[j] by {
                    assert(init[q] == pairs[q]);
                    if init[q].0.text() == last {
                        assert(before.contains(last));
                    }
                }
                assert(before_any(pairs, keys[i], keys[j], p));
            }
        }
    }
}

/// The pair at position `p` has the first key text, and no pair up to there has the second one.
pub open spec fn before_any<K: TextKey, V>(
    pairs: Seq<(K, V)>,
    first: Seq<char>,
    second: Seq<char>,
    p: int,
) -> bool {
    &&& 0 <= p < pairs.len()
    &&& pairs[p].0.text() == first
    &&& forall|q: int| 0 <= q <= p ==> (#[trigger] pairs[q]).0.text() != second
}

/// The first key text occurs among the pairs before the second one does.
pub open spec fn comes_first<K: TextKey, V>(
    pairs: Seq<(K, V)>,
    first: Seq<char>,
    second: Seq<char>,
) -> bool {
    exists|p: int| #[trigger] before_any(pairs, first, second, p)
}

/// A map that is made of pairs lists each key text of the pairs once, in the order in which they
/// first occur, with the value of the last pair that has it.
pub proof fn map_lists_each_key_once<K: TextKey, V>(
    pairs: Vec<(K, V)>,
    map: TextMap<K, V>,
    entries: &Vec<(K, V)>,
)
    requires
        call_ensures(TextMap::<K, V>::from_pairs, (pairs,), map),
        call_ensures(TextMap::<K, V>::entries, (&map,), entries),
    ensures
        forall|p: int|
            #![trigger pairs@[p]]
            0 <= p < pairs@.len() ==> exists|i: int|
                0 <= i < entries@.len() && (#[trigger] entries@[i]).0.text() == pairs@[p].0.text(),
        forall|i: int|
            0 <= i < entries@.len() ==> last_value(
                pairs@,
                (#[trigger] entries@[i]).0.text(),
                entries@[i].1,
            ),
        forall|i: int, j: int|
            #![trigger entries@[i], entries@[j]]
            0 <= i < j < entries@.len() ==> entries@[i].0.text() != entries@[j].0.text()
                && comes_first(pairs@, entries@[i].0.text(), entries@[j].0.text()),
{
    lemma_collected(pairs@);
    lemma_first_occurrences(pairs@);
    let keys = map.keys();
    assert forall|i: int| 0 <= i < entries@.len() implies #[trigger] keys[i]
        == entries@[i].0.text() by {}
    assert forall|p: int| #![trigger pairs@[p]] 0 <= p < pairs@.len() implies exists|i: int|
        0 <= i < entries@.len() && (#[trigger] entries@[i]).0.text() == pairs@[p].0.text() by {
        assert(keys.contains(pairs@[p].0.text()));
        let i = choose|i: int| 0 <= i < keys.len() && keys[i] == pairs@[p].0.text();
        assert(entries@[i].0.text() == keys[i]);
    }
    assert forall|i: int| 0 <= i < entries@.len() implies last_value(
        pairs@,
        (#[trigger] entries@[i]).0.text(),
        entries@[i].1,
    ) by {
        assert(map.entry_seq()[i] == entries@[i]);
        assert(map@.contains_key(entries@[i].0.text()));
        let p = choose|p: int| #[trigger] last_at(pairs@, entries@[i].0.text(), p);
        assert(entries@[i].1 == pairs@[p].1);
    }
    assert forall|i: int, j: int| #![trigger entries@[i], entries@[j]]
        0 <= i < j < entries@.len() implies entries@[i].0.text() != entries@[j].0.text()
        && comes_first(pairs@, entries@[i].0.text(), entries@[j].0.text()) by {
        assert(keys[i] == entries@[i].0.text() && keys[j] == entries@[j].0.text());
        assert(comes_first(pairs@, keys[i], keys[j]));
    }
}

/// A map gives a value for a key if and only if it lists the key with that value.
pub proof fn map_gives_what_it_lists<K: TextKey, V>(
    map: TextMap<K, V>,
    entries: &Vec<(K, V)>,
    key: &K,
    value: Option<&V>,
)
    requires
        call_ensures(TextMap::<K, V>::entries, (&map,), entries),
        call_ensures(TextMap::<K, V>::get, (&map, key), value),
    ensures
        forall|i: int|
            0 <= i < entries@.len() && (#[trigger] entries@[i]).0.text() == key.text() ==> value
                == Some(&entries@[i].1),
        value is Some ==> exists|i: int|
            0 <= i < entries@.len() && (#[trigger] entries@[i]).0.text() == key.text(),
{
    assert forall|i: int|
        0 <= i < entries@.len() && (#[trigger] entries@[i]).0.text() == key.text() implies value
        == Some(&entries@[i].1) by {
        assert(map.entry_seq()[i] == entries@[i]);
    }
    if value is Some {
        assert(map.keys().to_set().contains(key.text()));
        let i = choose|i: int| 0 <= i < map.keys().len() && map.keys()[i] == key.text();
        assert(entries@[i].0.text() == key.text());
    }
}

/// A map counts the entries that it lists, and is empty if it lists none.
pub proof fn map_counts_what_it_lists<K: TextKey, V>(
    map: TextMap<K, V>,
    entries: &Vec<(K, V)>,
    n: usize,
    empty: bool,
)
    requires
        call_ensures(TextMap::<K, V>::entries, (&map,), entries),
        call_ensures(TextMap::<K, V>::len, (&map,), n),
        call_ensures(TextMap::<K, V>::is_empty, (&map,), empty),
    ensures
        n == entries@.len(),
        empty <==> entries@.len() == 0,
{
    if entries@.len() > 0 {
        assert(map.entry_seq()[0] == entries@[0]);
        assert(map@.dom().contains(entries@[0].0.text()));
    } else {
        assert(map.keys().to_set() =~= Set::empty());
    }
}

/// A copy of a map lists the same keys with the same values, in the same order.
pub proof fn map_copy_lists_the_same<K: TextKey, V: Duplicate>(
    map: TextMap<K, V>,
    entries: &Vec<(K, V)>,
    copy: TextMap<K, V>,
    copied: &Vec<(K, V)>,
)
    requires
        call_ensures(TextMap::<K, V>::entries, (&map,), entries),
        call_ensures(<TextMap<K, V> as Clone>::clone, (&map,), copy),
        call_ensures(TextMap::<K, V>::entries, (&copy,), copied),
    ensures
        copied@.len() == entries@.len(),
        forall|i: int|
            #![trigger copied@[i]]
            0 <= i < entries@.len() ==> copied@[i].0.text() == entries@[i].0.text() && copied@[i].1
                == entries@[i].1,
{
    assert(copy.keys().len() == map.keys().len());
    assert forall|i: int| #![trigger copied@[i]] 0 <= i < entries@.len() implies copied@[i].0.text()
        == entries@[i].0.text() && copied@[i].1 == entries@[i].1 by {
        assert(copy.keys()[i] == map.keys()[i]);
        assert(copy.entry_seq()[i] == copied@[i]);
        assert(map.entry_seq()[i] == entries@[i]);
    }
}

/// Two maps are equal if and only if they have the same keys and, under each of them, equal
/// values.
pub proof fn maps_are_equal_by_their_contents<K: TextKey, V: PartialEq>(
    left: TextMap<K, V>,
    right: TextMap<K, V>,
    same: bool,
)
    requires
        V::obeys_eq_spec(),
        call_ensures(<TextMap<K, V> as PartialEq>::eq, (&left, &right), same),
    ensures
        same <==> {
            &&& forall|key: Seq<char>| #[trigger]
                left@.contains_key(key) <==> right@.contains_key(key)
            &&& forall|key: Seq<char>| #[trigger]
                left@.contains_key(key) ==> left@[key].eq_spec(&right@[key])
        },
{
    if forall|key: Seq<char>| #[trigger] left@.contains_key(key) <==> right@.contains_key(key) {
        assert(left@.dom() =~= right@.dom());
    }
}

/// Identifiers are the same if and only if they were made of the same text.
pub proof fn identifiers_are_told_apart(
    left: &str,
    right: &str,
    a: PolicyID,
    b: PolicyID,
    copy: PolicyID,
    same: bool,
)
    requires
        call_ensures(PolicyID::from_string, (left,), a),
        call_ensures(PolicyID::from_string, (right,), b),
        call_ensures(<PolicyID as Clone>::clone, (&b,), copy),
        call_ensures(<PolicyID as TextKey>::same_text, (&a, &copy), same),
    ensures
        same <==> left@ == right@,
{
}

/// A map without entries gives nothing.
pub proof fn empty_map_gives_nothing<K: TextKey, V>(
    map: TextMap<K, V>,
    key: &K,
    value: Option<&V>,
)
    requires
        call_ensures(<TextMap<K, V> as Default>::default, (), map),
        call_ensures(TextMap::<K, V>::get, (&map, key), value),
    ensures
        value is None,
{
}

} // verus!
