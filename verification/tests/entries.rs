use jwt_claims::claims::{is_reserved, partition};
use jwt_claims::entries::{find, insert_sorted, overlay, position, text_before, text_eq};
use rustc_serialize::json::Json;

fn pair(key: &str, n: u64) -> (String, Json) {
    (key.to_string(), Json::U64(n))
}

#[test]
fn reserved_names_are_exactly_seven() {
    for name in ["iss", "sub", "aud", "exp", "nbf", "iat", "jti"] {
        assert!(is_reserved(name));
    }
    for name in ["", "is", "isss", "ISS", "Iss", "iss ", " iss", "name", "admin", "expires", "jt"] {
        assert!(!is_reserved(name));
    }
}

#[test]
fn text_eq_compares_characters() {
    assert!(text_eq("", ""));
    assert!(text_eq("exp", "exp"));
    assert!(text_eq("é中", "é中"));
    assert!(!text_eq("exp", "exq"));
    assert!(!text_eq("exp", "ex"));
    assert!(!text_eq("ex", "exp"));
    assert!(!text_eq("", "a"));
    assert!(!text_eq("é", "e"));
}

#[test]
fn position_is_of_the_last_entry_with_the_key() {
    let entries = vec![pair("a", 1), pair("b", 2), pair("a", 3), pair("c", 4)];
    assert_eq!(position(&entries, "a"), Some(2));
    assert_eq!(position(&entries, "b"), Some(1));
    assert_eq!(position(&entries, "c"), Some(3));
    assert_eq!(position(&entries, "d"), None);
    assert_eq!(position(&vec![], "a"), None);
}

#[test]
fn find_gives_the_last_value_under_the_key() {
    let entries = vec![pair("a", 1), pair("b", 2), pair("a", 3)];
    assert_eq!(find(&entries, "a"), Some(&Json::U64(3)));
    assert_eq!(find(&entries, "b"), Some(&Json::U64(2)));
    assert_eq!(find(&entries, "z"), None);
}

#[test]
fn partition_keeps_the_order_of_each_group() {
    let entries = vec![
        pair("zeta", 1),
        pair("iss", 2),
        pair("alpha", 3),
        pair("jti", 4),
        pair("exp", 5),
        pair("Exp", 6),
    ];
    let (registered, private) = partition(entries);
    assert_eq!(registered, vec![pair("iss", 2), pair("jti", 4), pair("exp", 5)]);
    assert_eq!(private, vec![pair("zeta", 1), pair("alpha", 3), pair("Exp", 6)]);
    let (registered, private) = partition(vec![]);
    assert!(registered.is_empty());
    assert!(private.is_empty());
}

#[test]
fn overlay_prefers_the_layer_and_repeats_no_key() {
    let base = vec![pair("a", 1), pair("b", 2)];
    let layer = vec![pair("c", 3), pair("a", 4)];
    assert_eq!(overlay(base, &layer), vec![pair("a", 4), pair("b", 2), pair("c", 3)]);
    let base = vec![pair("a", 1), pair("a", 2)];
    assert_eq!(overlay(base, &vec![]), vec![pair("a", 2)]);
    let layer = vec![pair("x", 1), pair("x", 2), pair("y", 3)];
    assert_eq!(overlay(vec![], &layer), vec![pair("x", 2), pair("y", 3)]);
    assert_eq!(overlay(vec![], &vec![]), vec![]);
}

#[test]
fn text_before_is_the_order_of_strings() {
    let texts = ["", "a", "aa", "ab", "b", "B", "iss", "is", "ist", "é", "z", "中", "\u{1f600}", "~"];
    for a in texts {
        for b in texts {
            assert_eq!(text_before(a, b), a < b);
        }
    }
    assert!(text_before("", "a"));
    assert!(!text_before("a", ""));
    assert!(!text_before("a", "a"));
    assert!(text_before("Z", "a"));
    assert!(text_before("z", "é"));
}

#[test]
fn insert_sorted_keeps_keys_ascending() {
    let mut entries = vec![];
    for (key, n) in [("m", 1), ("a", 2), ("z", 3), ("b", 4), ("m", 5), ("", 6), ("a", 7)] {
        insert_sorted(&mut entries, key.to_string(), Json::U64(n));
    }
    assert_eq!(entries, vec![pair("", 6), pair("a", 7), pair("b", 4), pair("m", 5), pair("z", 3)]);
}
