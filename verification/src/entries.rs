//! Lists of key and document pairs, read as JSON objects.

use crate::json::{
    ascending_keys, before_at, bytes_before, distinct_keys, document, duplicate, entries_map,
};
use rustc_serialize::json::Json;
use vstd::prelude::*;
use vstd::utf8::{encode_utf8, encode_utf8_decode_utf8};

verus! {

/// Some entry of the list has the key.
pub open spec fn has_key(entries: Seq<(String, Json)>, key: Seq<char>) -> bool {
    exists|i: int| 0 <= i < entries.len() && (#[trigger] entries[i]).0@ == key
}

/// The keys of the object are the keys of its entries.
pub proof fn lemma_entries_map_dom(entries: Seq<(String, Json)>, key: Seq<char>)
    ensures
        entries_map(entries).dom().contains(key) <==> has_key(entries, key),
    decreases entries.len(),
{
    if entries.len() > 0 {
        let front = entries.drop_last();
        lemma_entries_map_dom(front, key);
        if has_key(entries, key) {
            let i = choose|i: int| 0 <= i < entries.len() && (#[trigger] entries[i]).0@ == key;
            if i < entries.len() - 1 {
                assert(front[i].0@ == key);
            }
        }
        if has_key(front, key) {
            let i = choose|i: int| 0 <= i < front.len() && (#[trigger] front[i]).0@ == key;
            assert(entries[i].0@ == key);
        }
    }
}

/// An entry that no later entry shadows gives the object's value at its key.
pub proof fn lemma_entries_map_at(entries: Seq<(String, Json)>, i: int)
    requires
        0 <= i < entries.len(),
        forall|j: int| i < j < entries.len() ==> (#[trigger] entries[j]).0@ != entries[i].0@,
    ensures
        entries_map(entries).dom().contains(entries[i].0@),
        entries_map(entries)[entries[i].0@] == document(entries[i].1),
    decreases entries.len(),
{
    if i < entries.len() - 1 {
        let front = entries.drop_last();
        assert(front[i] == entries[i]);
        assert forall|j: int| i < j < front.len() implies (#[trigger] front[j]).0@
            != front[i].0@ by {
            assert(front[j] == entries[j]);
        }
        lemma_entries_map_at(front, i);
        assert(entries.last() == entries[entries.len() - 1]);
    }
}

/// Appending an entry sets its key in the object.
pub proof fn lemma_entries_map_push(entries: Seq<(String, Json)>, entry: (String, Json))
    ensures
        entries_map(entries.push(entry)) == entries_map(entries).insert(
            entry.0@,
            document(entry.1),
        ),
{
    assert(entries.push(entry).drop_last() =~= entries);
}

/// Appending an entry with a new key keeps the keys distinct, and adds that
/// key alone.
pub proof fn lemma_push_distinct(entries: Seq<(String, Json)>, entry: (String, Json))
    requires
        distinct_keys(entries),
        !has_key(entries, entry.0@),
    ensures
        distinct_keys(entries.push(entry)),
        forall|key: Seq<char>|
            has_key(entries.push(entry), key) ==> has_key(entries, key) || key == entry.0@,
{
    let after = entries.push(entry);
    assert forall|i: int, j: int| 0 <= i < j < after.len() implies (#[trigger] after[i]).0@ != (
    #[trigger] after[j]).0@ by {
        if j == entries.len() {
            assert(entries[i].0@ != entry.0@);
        } else {
            assert(after[i] == entries[i] && after[j] == entries[j]);
        }
    }
    assert forall|key: Seq<char>| has_key(after, key) implies has_key(entries, key) || key
        == entry.0@ by {
        let i = choose|i: int| 0 <= i < after.len() && (#[trigger] after[i]).0@ == key;
        if i < entries.len() {
            assert(entries[i].0@ == key);
        }
    }
}

/// Replacing an entry by one with the same key sets that key in the object,
/// where no key occurs twice.
pub proof fn lemma_entries_map_update(entries: Seq<(String, Json)>, i: int, entry: (String, Json))
    requires
        distinct_keys(entries),
        0 <= i < entries.len(),
        entries[i].0@ == entry.0@,
    ensures
        distinct_keys(entries.update(i, entry)),
        entries_map(entries.update(i, entry)) == entries_map(entries).insert(
            entry.0@,
            document(entry.1),
        ),
{
    let after = entries.update(i, entry);
    assert forall|a: int, b: int| 0 <= a < b < after.len() implies (#[trigger] after[a]).0@ != (
    #[trigger] after[b]).0@ by {
        assert(after[a].0@ == entries[a].0@);
        assert(after[b].0@ == entries[b].0@);
    }
    let left = entries_map(after);
    let right = entries_map(entries).insert(entry.0@, document(entry.1));
    assert forall|key: Seq<char>| left.dom().contains(key) == right.dom().contains(key) by {
        lemma_entries_map_dom(after, key);
        lemma_entries_map_dom(entries, key);
        if has_key(after, key) {
            let a = choose|a: int| 0 <= a < after.len() && (#[trigger] after[a]).0@ == key;
            assert(entries[a].0@ == key);
        }
        if has_key(entries, key) {
            let a = choose|a: int| 0 <= a < entries.len() && (#[trigger] entries[a]).0@ == key;
            assert(after[a].0@ == key);
        }
        if key == entry.0@ {
            assert(after[i].0@ == key);
        }
    }
    assert forall|key: Seq<char>| left.dom().contains(key) implies left[key] == right[key] by {
        lemma_entries_map_dom(after, key);
        let a = choose|a: int| 0 <= a < after.len() && (#[trigger] after[a]).0@ == key;
        lemma_entries_map_at(after, a);
        if a != i {
            assert(after[a] == entries[a]);
            lemma_entries_map_at(entries, a);
        }
    }
    assert(left =~= right);
}

/// Whether two texts hold the same characters.
pub fn text_eq(a: &str, b: &str) -> (r: bool)
    ensures
        r == (a@ == b@),
{
    let x = a.as_bytes();
    let y = b.as_bytes();
    if x.len() != y.len() {
        return false;
    }
    let mut i: usize = 0;
    while i < x.len()
        invariant
            i <= x.len(),
            x.len() == y.len(),
            x@ == encode_utf8(a@),
            y@ == encode_utf8(b@),
            forall|j: int| 0 <= j < i ==> x@[j] == y@[j],
        decreases x.len() - i,
    {
        if x[i] != y[i] {
            return false;
        }
        i += 1;
    }
    proof {
        assert(x@ =~= y@);
        encode_utf8_decode_utf8(a@);
        encode_utf8_decode_utf8(b@);
    }
    true
}

/// The place of the last entry with the key, if any entry has it.
pub fn position(entries: &Vec<(String, Json)>, key: &str) -> (r: Option<usize>)
    ensures
        match r {
            Some(i) => {
                &&& i < entries.len()
                &&& entries[i as int].0@ == key@
                &&& forall|j: int| i < j < entries.len() ==> (#[trigger] entries[j]).0@ != key@
            },
            None => !has_key(entries@, key@),
        },
{
    let mut i: usize = entries.len();
    while i > 0
        invariant
            i <= entries.len(),
            forall|j: int| i <= j < entries.len() ==> (#[trigger] entries[j]).0@ != key@,
        decreases i,
    {
        i -= 1;
        if text_eq(entries[i].0.as_str(), key) {
            return Some(i);
        }
    }
    None
}

/// The document under the key, if the object has the key.
pub fn find<'a>(entries: &'a Vec<(String, Json)>, key: &str) -> (r: Option<&'a Json>)
    ensures
        r is Some <==> entries_map(entries@).dom().contains(key@),
        r matches Some(doc) ==> document(*doc) == entries_map(entries@)[key@],
{
    proof {
        lemma_entries_map_dom(entries@, key@);
    }
    match position(entries, key) {
        Some(i) => {
            proof {
                lemma_entries_map_at(entries@, i as int);
            }
            Some(&entries[i].1)
        },
        None => None,
    }
}

/// Keeping the entries whose keys lie in a set restricts the object to that
/// set, keeps distinct keys distinct and ascending keys ascending.
pub proof fn lemma_filter_restricts(
    entries: Seq<(String, Json)>,
    keep: spec_fn((String, Json)) -> bool,
    keys: Set<Seq<char>>,
)
    requires
        forall|entry: (String, Json)| #[trigger] keep(entry) == keys.contains(entry.0@),
    ensures
        entries_map(entries.filter(keep)) == entries_map(entries).restrict(keys),
        forall|key: Seq<char>|
            has_key(entries.filter(keep), key) ==> has_key(entries, key) && keys.contains(key),
        distinct_keys(entries) ==> distinct_keys(entries.filter(keep)),
        ascending_keys(entries) ==> ascending_keys(entries.filter(keep)),
    decreases entries.len(),
{
    reveal(Seq::filter);
    let kept = entries.filter(keep);
    if entries.len() == 0 {
        assert(entries_map(kept) =~= entries_map(entries).restrict(keys));
    } else {
        let front = entries.drop_last();
        let last = entries.last();
        lemma_filter_restricts(front, keep, keys);
        let front_kept = front.filter(keep);
        assert forall|i: int, j: int| 0 <= i < j < front.len() && distinct_keys(
            entries,
        ) implies (#[trigger] front[i]).0@ != (#[trigger] front[j]).0@ by {
            assert(front[i] == entries[i] && front[j] == entries[j]);
        }
        if keep(last) {
            lemma_entries_map_push(front_kept, last);
            assert(entries_map(kept) =~= entries_map(entries).restrict(keys));
            assert forall|key: Seq<char>| has_key(kept, key) implies has_key(entries, key)
                && keys.contains(key) by {
                let i = choose|i: int| 0 <= i < kept.len() && (#[trigger] kept[i]).0@ == key;
                if i < front_kept.len() {
                    assert(front_kept[i].0@ == key);
                    let j = choose|j: int| 0 <= j < front.len() && (#[trigger] front[j]).0@ == key;
                    assert(entries[j].0@ == key);
                } else {
                    assert(entries[entries.len() - 1].0@ == key);
                }
            }
            if distinct_keys(entries) {
                assert forall|i: int, j: int| 0 <= i < j < kept.len() implies (
                #[trigger] kept[i]).0@ != (#[trigger] kept[j]).0@ by {
                    if j == front_kept.len() {
                        assert(front_kept[i].0@ == kept[i].0@);
                        if kept[i].0@ == last.0@ {
                            assert(has_key(front_kept, last.0@));
                            let a = choose|a: int|
                                0 <= a < front.len() && (#[trigger] front[a]).0@ == last.0@;
                            assert(entries[a].0@ == entries[entries.len() - 1].0@);
                        }
                    } else {
                        assert(front_kept[i] == kept[i] && front_kept[j] == kept[j]);
                    }
                }
            }
        } else {
            assert(entries_map(kept) =~= entries_map(entries).restrict(keys));
            assert forall|key: Seq<char>| has_key(kept, key) implies has_key(entries, key)
                && keys.contains(key) by {
                let j = choose|j: int| 0 <= j < front.len() && (#[trigger] front[j]).0@ == key;
                assert(entries[j].0@ == key);
            }
        }
    }
}

/// Sets a key in a list without repeated keys: the entry that has the key is
/// replaced, or a new entry is appended.
fn upsert(entries: &mut Vec<(String, Json)>, key: String, value: Json)
    requires
        distinct_keys(old(entries)@),
    ensures
        distinct_keys(final(entries)@),
        entries_map(final(entries)@) == entries_map(old(entries)@).insert(key@, document(value)),
{
    match position(entries, key.as_str()) {
        Some(i) => {
            proof {
                lemma_entries_map_update(entries@, i as int, (key, value));
            }
            entries.set(i, (key, value));
        },
        None => {
            proof {
                lemma_entries_map_push(entries@, (key, value));
                lemma_push_distinct(entries@, (key, value));
            }
            entries.push((key, value));
        },
    }
}

/// Lays one object over another: the result holds every key of either, with
/// the value from `layer` where both have the key, and holds no key twice.
pub fn overlay(base: Vec<(String, Json)>, layer: &Vec<(String, Json)>) -> (merged: Vec<
    (String, Json),
>)
    ensures
        distinct_keys(merged@),
        entries_map(merged@) == entries_map(base@).union_prefer_right(entries_map(layer@)),
{
    let ghost below = base@;
    let mut merged: Vec<(String, Json)> = Vec::new();
    for entry in it: base
        invariant
            it.seq() == below,
            distinct_keys(merged@),
            entries_map(merged@) == entries_map(below.take(it.index())),
    {
        proof {
            assert(below.take(it.index() + 1).drop_last() =~= below.take(it.index()));
        }
        upsert(&mut merged, entry.0, entry.1);
    }
    proof {
        assert(below.take(below.len() as int) =~= below);
        assert(layer@.take(0) =~= Seq::empty());
        assert(entries_map(merged@) =~= entries_map(below).union_prefer_right(
            entries_map(layer@.take(0)),
        ));
    }
    let mut i: usize = 0;
    while i < layer.len()
        invariant
            i <= layer.len(),
            distinct_keys(merged@),
            entries_map(merged@) == entries_map(below).union_prefer_right(
                entries_map(layer@.take(i as int)),
            ),
        decreases layer.len() - i,
    {
        proof {
            assert(layer@.take(i + 1).drop_last() =~= layer@.take(i as int));
        }
        upsert(&mut merged, layer[i].0.clone(), duplicate(&layer[i].1));
        proof {
            assert(entries_map(merged@) =~= entries_map(below).union_prefer_right(
                entries_map(layer@.take(i + 1)),
            ));
        }
        i += 1;
    }
    proof {
        assert(layer@.take(layer.len() as int) =~= layer@);
    }
    merged
}

/// Of two sequences of bytes that differ, one stands before the other.
pub proof fn lemma_bytes_before_total(a: Seq<u8>, b: Seq<u8>, k: int)
    requires
        0 <= k <= a.len(),
        k <= b.len(),
        forall|i: int| 0 <= i < k ==> a[i] == b[i],
    ensures
        a == b || bytes_before(a, b) || bytes_before(b, a),
    decreases a.len() - k,
{
    if k == a.len() {
        if k == b.len() {
            assert(a =~= b);
        } else {
            assert(before_at(a, b, k));
        }
    } else if k == b.len() {
        assert(before_at(b, a, k));
    } else if a[k] < b[k] {
        assert(before_at(a, b, k));
    } else if b[k] < a[k] {
        assert(before_at(b, a, k));
    } else {
        lemma_bytes_before_total(a, b, k + 1);
    }
}

/// What stands before a sequence of bytes stands before all that it stands
/// before.
pub proof fn lemma_bytes_before_transitive(a: Seq<u8>, b: Seq<u8>, c: Seq<u8>)
    requires
        bytes_before(a, b),
        bytes_before(b, c),
    ensures
        bytes_before(a, c),
{
    let x = choose|k: int| before_at(a, b, k);
    let y = choose|k: int| before_at(b, c, k);
    if x <= y {
        assert(before_at(a, c, x));
    } else {
        assert(before_at(a, c, y));
    }
}

/// Keys in ascending order are distinct.
pub proof fn lemma_ascending_distinct(entries: Seq<(String, Json)>)
    requires
        ascending_keys(entries),
    ensures
        distinct_keys(entries),
{
    assert forall|i: int, j: int| 0 <= i < j < entries.len() implies (#[trigger] entries[i]).0@
        != (#[trigger] entries[j]).0@ by {
        let a = encode_utf8(entries[i].0@);
        let b = encode_utf8(entries[j].0@);
        let k = choose|k: int| before_at(a, b, k);
        assert(before_at(a, b, k));
    }
}

/// Whether the first text stands before the second in the order of `String`,
/// the order of the dictionary on the bytes of UTF-8.
pub fn text_before(a: &str, b: &str) -> (r: bool)
    ensures
        r == bytes_before(encode_utf8(a@), encode_utf8(b@)),
{
    let x = a.as_bytes();
    let y = b.as_bytes();
    let mut i: usize = 0;
    while i < x.len() && i < y.len()
        invariant
            i <= x.len(),
            i <= y.len(),
            x@ == encode_utf8(a@),
            y@ == encode_utf8(b@),
            forall|j: int| 0 <= j < i ==> x@[j] == y@[j],
        decreases x.len() - i,
    {
        if x[i] != y[i] {
            proof {
                if x[i as int] < y[i as int] {
                    assert(before_at(x@, y@, i as int));
                } else if bytes_before(x@, y@) {
                    let k = choose|k: int| before_at(x@, y@, k);
                    assert(before_at(x@, y@, k));
                }
            }
            return x[i] < y[i];
        }
        i += 1;
    }
    proof {
        if i < y.len() {
            assert(before_at(x@, y@, i as int));
        } else if bytes_before(x@, y@) {
            let k = choose|k: int| before_at(x@, y@, k);
            assert(before_at(x@, y@, k));
        }
    }
    i < y.len()
}

/// Putting an entry with a new key into a list without repeated keys sets
/// that key in the object.
pub proof fn lemma_entries_map_insert(
    entries: Seq<(String, Json)>,
    at: int,
    entry: (String, Json),
)
    requires
        0 <= at <= entries.len(),
        distinct_keys(entries),
        !has_key(entries, entry.0@),
    ensures
        distinct_keys(entries.insert(at, entry)),
        entries_map(entries.insert(at, entry)) == entries_map(entries).insert(
            entry.0@,
            document(entry.1),
        ),
{
    let after = entries.insert(at, entry);
    assert forall|a: int, b: int| 0 <= a < b < after.len() implies (#[trigger] after[a]).0@ != (
    #[trigger] after[b]).0@ by {
        let x = if a < at { a } else { a - 1 };
        let y = if b < at { b } else { b - 1 };
        if a == at {
            assert(after[b] == entries[y]);
            assert(entries[y].0@ != entry.0@);
        } else if b == at {
            assert(after[a] == entries[x]);
            assert(entries[x].0@ != entry.0@);
        } else {
            assert(after[a] == entries[x] && after[b] == entries[y]);
        }
    }
    let left = entries_map(after);
    let right = entries_map(entries).insert(entry.0@, document(entry.1));
    assert forall|key: Seq<char>| left.dom().contains(key) == right.dom().contains(key) by {
        lemma_entries_map_dom(after, key);
        lemma_entries_map_dom(entries, key);
        if has_key(after, key) {
            let a = choose|a: int| 0 <= a < after.len() && (#[trigger] after[a]).0@ == key;
            if a < at {
                assert(entries[a].0@ == key);
            } else if a > at {
                assert(entries[a - 1].0@ == key);
            }
        }
        if has_key(entries, key) {
            let a = choose|a: int| 0 <= a < entries.len() && (#[trigger] entries[a]).0@ == key;
            if a < at {
                assert(after[a].0@ == key);
            } else {
                assert(after[a + 1].0@ == key);
            }
        }
        if key == entry.0@ {
            assert(after[at].0@ == key);
        }
    }
    assert forall|key: Seq<char>| left.dom().contains(key) implies left[key] == right[key] by {
        lemma_entries_map_dom(after, key);
        let a = choose|a: int| 0 <= a < after.len() && (#[trigger] after[a]).0@ == key;
        lemma_entries_map_at(after, a);
        if a < at {
            assert(after[a] == entries[a]);
            lemma_entries_map_at(entries, a);
        } else if a > at {
            assert(after[a] == entries[a - 1]);
            lemma_entries_map_at(entries, a - 1);
        }
    }
    assert(left =~= right);
}

/// Sets a key in a list as a map with ordered keys does: the entry that has
/// the key is replaced, or a new entry is put where its key belongs. On a
/// list whose keys ascend the result is such a list again, and stands for
/// the object with the key set.
pub fn insert_sorted(entries: &mut Vec<(String, Json)>, key: String, value: Json)
    ensures
        ascending_keys(old(entries)@) ==> {
            &&& ascending_keys(final(entries)@)
            &&& distinct_keys(final(entries)@)
            &&& entries_map(final(entries)@) == entries_map(old(entries)@).insert(
                key@,
                document(value),
            )
        },
        final(entries).len() == old(entries).len() || final(entries).len() == old(entries).len()
            + 1,
{
    let ghost before = entries@;
    let mut at: usize = 0;
    while at < entries.len() && text_before(entries[at].0.as_str(), key.as_str())
        invariant
            at <= entries.len(),
            entries@ == before,
            forall|j: int|
                0 <= j < at ==> bytes_before(
                    encode_utf8((#[trigger] entries[j]).0@),
                    encode_utf8(key@),
                ),
        decreases entries.len() - at,
    {
        at += 1;
    }
    if at < entries.len() && text_eq(entries[at].0.as_str(), key.as_str()) {
        proof {
            if ascending_keys(before) {
                lemma_ascending_distinct(before);
                lemma_entries_map_update(before, at as int, (key, value));
                let after = before.update(at as int, (key, value));
                assert forall|i: int, j: int| 0 <= i < j < after.len() implies bytes_before(
                    encode_utf8((#[trigger] after[i]).0@),
                    encode_utf8((#[trigger] after[j]).0@),
                ) by {
                    assert(after[i].0@ == before[i].0@);
                    assert(after[j].0@ == before[j].0@);
                }
            }
        }
        entries.set(at, (key, value));
    } else {
        proof {
            if ascending_keys(before) {
                lemma_ascending_distinct(before);
                let k = encode_utf8(key@);
                assert forall|j: int| at <= j < before.len() implies bytes_before(
                    k,
                    encode_utf8((#[trigger] before[j]).0@),
                ) by {
                    let first = encode_utf8(before[at as int].0@);
                    encode_utf8_decode_utf8(key@);
                    encode_utf8_decode_utf8(before[at as int].0@);
                    lemma_bytes_before_total(first, k, 0);
                    if j > at {
                        lemma_bytes_before_transitive(k, first, encode_utf8(before[j].0@));
                    }
                }
                assert(!has_key(before, key@)) by {
                    if has_key(before, key@) {
                        let j = choose|j: int|
                            0 <= j < before.len() && (#[trigger] before[j]).0@ == key@;
                        let same = encode_utf8(before[j].0@);
                        if bytes_before(same, k) {
                            let x = choose|x: int| before_at(same, k, x);
                            assert(before_at(same, k, x));
                        }
                    }
                }
                lemma_entries_map_insert(before, at as int, (key, value));
                let after = before.insert(at as int, (key, value));
                assert forall|i: int, j: int| 0 <= i < j < after.len() implies bytes_before(
                    encode_utf8((#[trigger] after[i]).0@),
                    encode_utf8((#[trigger] after[j]).0@),
                ) by {
                    let x = if i < at { i } else { i - 1 };
                    let y = if j < at { j } else { j - 1 };
                    if i == at {
                        assert(after[j] == before[y]);
                    } else if j == at {
                        assert(after[i] == before[x]);
                    } else {
                        assert(after[i] == before[x] && after[j] == before[y]);
                    }
                }
            }
        }
        entries.insert(at, (key, value));
    }
}

} // verus!
