use std::sync::Arc;

use partial_response::{PolicyID, TextKey, TextMap};
use smol_str::SmolStr;

fn id(text: &str) -> PolicyID {
    PolicyID::from_string(text)
}

const LONG: &str = "a text that is too long to be stored inline, by a good margin";

#[test]
fn identifiers_are_compared_by_text() {
    let blank = " ".repeat(40);
    let short = ["", "p", "exactly-twenty-three-by", "\n\n    ", "naïve – ✓"];
    for text in short.into_iter().chain([LONG, blank.as_str()]) {
        assert_eq!(id(text), id(text));
        assert_eq!(id(text).clone(), id(text));
        assert!(id(text).same_text(&id(text)));
        assert!(id(text).copy().same_text(&id(text)));
        assert!(!id(text).same_text(&id("other")));
        assert_ne!(id(text), id("other"));
    }
    assert!(!id(LONG).same_text(&id(&LONG[1..])));
}

#[test]
fn static_and_inline_texts_are_the_same_key() {
    let inline = SmolStr::new("name");
    let borrowed = SmolStr::new_static("name");
    assert!(inline.same_text(&borrowed));
    let map = TextMap::from_pairs(vec![(inline, 1)]);
    assert_eq!(map.get(&borrowed), Some(&1));
}

#[test]
fn last_value_stands_in_the_first_place() {
    let map = TextMap::from_pairs(vec![(id("a"), 1), (id("b"), 2), (id("a"), 3), (id("c"), 4)]);
    assert_eq!(map.len(), 3);
    assert_eq!(map.entries(), &vec![(id("a"), 3), (id("b"), 2), (id("c"), 4)]);
    assert_eq!(map.get(&id("a")), Some(&3));
    assert_eq!(map.get(&id("b")), Some(&2));
    assert_eq!(map.get(&id("d")), None);
}

#[test]
fn default_map_is_empty() {
    let map: TextMap<PolicyID, u8> = TextMap::default();
    assert!(map.is_empty());
    assert_eq!(map.len(), 0);
    assert_eq!(map.get(&id("")), None);
    assert!(!TextMap::from_pairs(vec![(id(""), 0)]).is_empty());
}

#[test]
fn equality_ignores_the_order_of_entries() {
    let ab = TextMap::from_pairs(vec![(id("a"), 1), (id("b"), 2)]);
    let ba = TextMap::from_pairs(vec![(id("b"), 2), (id("a"), 1)]);
    assert_eq!(ab, ba);
    assert_ne!(ab, TextMap::from_pairs(vec![(id("a"), 1), (id("b"), 3)]));
    assert_ne!(ab, TextMap::from_pairs(vec![(id("a"), 1)]));
    assert_ne!(TextMap::from_pairs(vec![(id("a"), 1)]), ab);
    assert_ne!(ab, TextMap::from_pairs(vec![(id("a"), 1), (id("c"), 2)]));
}

#[test]
fn clone_has_the_same_entries() {
    let map = TextMap::from_pairs(vec![(id(LONG), Arc::new(1)), (id("b"), Arc::new(2))]);
    let copy = map.clone();
    assert_eq!(copy, map);
    assert_eq!(copy.entries(), map.entries());
}
