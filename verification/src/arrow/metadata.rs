//! Key/value annotations of fields and schemas.

use vstd::prelude::*;

use std::sync::Arc;

use crate::text::{
    comes_before, decided_at, law_first_difference_decides, lemma_text_before_total,
    lemma_text_before_transitive, lemma_text_not_before_itself, same_text, text_before,
};

verus! {

/// The map that a list of entries denotes: of two entries with one key, the later one counts.
pub open spec fn entries_map(entries: Seq<(String, String)>) -> Map<Seq<char>, Seq<char>>
    decreases entries.len(),
{
    if entries.len() == 0 {
        Map::empty()
    } else {
        entries_map(entries.drop_last()).insert(entries.last().0@, entries.last().1@)
    }
}

/// What the entries of a list are.
pub open spec fn entry_texts(entries: Seq<(String, String)>) -> Seq<(Seq<char>, Seq<char>)> {
    entries.map_values(|e: (String, String)| (e.0@, e.1@))
}

/// Whether the keys of a list come one after the other in the order of strings.
pub open spec fn in_key_order(listing: Seq<(Seq<char>, Seq<char>)>) -> bool {
    forall|i: int, j: int|
        0 <= i < j < listing.len() ==> text_before(
            (#[trigger] listing[i]).0,
            (#[trigger] listing[j]).0,
        )
}

/// Whether an entry with the given key is in a list.
pub open spec fn is_listed(listing: Seq<(Seq<char>, Seq<char>)>, key: Seq<char>) -> bool {
    exists|i: int| 0 <= i < listing.len() && (#[trigger] listing[i]).0 == key
}

/// Whether a list holds the entries of a map, each once and in the order of the keys.
pub open spec fn lists_by_key(
    listing: Seq<(Seq<char>, Seq<char>)>,
    map: Map<Seq<char>, Seq<char>>,
) -> bool {
    &&& in_key_order(listing)
    &&& forall|key: Seq<char>| #[trigger] map.contains_key(key) <==> is_listed(listing, key)
    &&& forall|i: int|
        0 <= i < listing.len() ==> map[(#[trigger] listing[i]).0] == listing[i].1
}

/// The entries of a map in the order of the keys.
pub open spec fn by_key(map: Map<Seq<char>, Seq<char>>) -> Seq<(Seq<char>, Seq<char>)> {
    choose|listing: Seq<(Seq<char>, Seq<char>)>| lists_by_key(listing, map)
}

proof fn lemma_first_key(
    a: Seq<(Seq<char>, Seq<char>)>,
    b: Seq<(Seq<char>, Seq<char>)>,
    map: Map<Seq<char>, Seq<char>>,
)
    requires
        lists_by_key(a, map),
        lists_by_key(b, map),
        a.len() > 0,
    ensures
        b.len() > 0,
        a[0] == b[0],
{
    assert(is_listed(a, a[0].0));
    assert(map.contains_key(a[0].0));
    assert(is_listed(b, a[0].0));
    let j = choose|j: int| 0 <= j < b.len() && (#[trigger] b[j]).0 == a[0].0;
    assert(is_listed(b, b[0].0));
    assert(map.contains_key(b[0].0));
    assert(is_listed(a, b[0].0));
    let i = choose|i: int| 0 <= i < a.len() && (#[trigger] a[i]).0 == b[0].0;
    if j > 0 && i > 0 {
        assert(text_before(b[0].0, b[j].0));
        assert(text_before(a[0].0, a[i].0));
        lemma_text_before_transitive(a[0].0, b[0].0, a[0].0);
        lemma_text_not_before_itself(a[0].0);
    }
    assert(a[0].0 == b[0].0);
}

proof fn lemma_rest_by_key(
    listing: Seq<(Seq<char>, Seq<char>)>,
    map: Map<Seq<char>, Seq<char>>,
)
    requires
        lists_by_key(listing, map),
        listing.len() > 0,
    ensures
        lists_by_key(listing.drop_first(), map.remove(listing[0].0)),
{
    let rest = listing.drop_first();
    let smaller = map.remove(listing[0].0);
    assert forall|i: int, j: int| 0 <= i < j < rest.len() implies text_before(
        (#[trigger] rest[i]).0,
        (#[trigger] rest[j]).0,
    ) by {
        assert(rest[i] == listing[i + 1] && rest[j] == listing[j + 1]);
    }
    assert forall|i: int| 0 <= i < rest.len() implies smaller[(#[trigger] rest[i]).0]
        == rest[i].1 && rest[i].0 != listing[0].0 by {
        assert(rest[i] == listing[i + 1]);
        assert(text_before(listing[0].0, listing[i + 1].0));
        lemma_text_not_before_itself(listing[0].0);
    }
    assert forall|key: Seq<char>| #[trigger] smaller.contains_key(key) <==> is_listed(
        rest,
        key,
    ) by {
        assert(map.contains_key(key) <==> is_listed(listing, key));
        if smaller.contains_key(key) {
            let i = choose|i: int| 0 <= i < listing.len() && (#[trigger] listing[i]).0 == key;
            assert(rest[i - 1] == listing[i]);
        }
        if is_listed(rest, key) {
            let i = choose|i: int| 0 <= i < rest.len() && (#[trigger] rest[i]).0 == key;
            assert(rest[i] == listing[i + 1]);
        }
    }
}

/// A map has one list of its entries in the order of the keys.
pub proof fn lemma_one_listing_by_key(
    a: Seq<(Seq<char>, Seq<char>)>,
    b: Seq<(Seq<char>, Seq<char>)>,
    map: Map<Seq<char>, Seq<char>>,
)
    requires
        lists_by_key(a, map),
        lists_by_key(b, map),
    ensures
        a == b,
    decreases a.len(),
{
    if a.len() > 0 {
        lemma_first_key(a, b, map);
        lemma_rest_by_key(a, map);
        lemma_rest_by_key(b, map);
        lemma_one_listing_by_key(a.drop_first(), b.drop_first(), map.remove(a[0].0));
        assert(a =~= seq![a[0]] + a.drop_first());
        assert(b =~= seq![b[0]] + b.drop_first());
    } else {
        if b.len() > 0 {
            lemma_first_key(b, a, map);
        }
        assert(a =~= b);
    }
}

proof fn lemma_entry_set(
    listing: Seq<(Seq<char>, Seq<char>)>,
    map: Map<Seq<char>, Seq<char>>,
    p: int,
    value: Seq<char>,
)
    requires
        lists_by_key(listing, map),
        0 <= p < listing.len(),
    ensures
        lists_by_key(
            listing.update(p, (listing[p].0, value)),
            map.insert(listing[p].0, value),
        ),
{
    let key = listing[p].0;
    let next = listing.update(p, (key, value));
    let larger = map.insert(key, value);
    assert(is_listed(listing, key));
    assert(map.contains_key(key));
    assert forall|k: Seq<char>| #[trigger] larger.contains_key(k) <==> is_listed(next, k) by {
        assert(map.contains_key(k) <==> is_listed(listing, k));
        if is_listed(listing, k) {
            let i = choose|i: int| 0 <= i < listing.len() && (#[trigger] listing[i]).0 == k;
            assert(next[i].0 == k);
        }
        if is_listed(next, k) {
            let i = choose|i: int| 0 <= i < next.len() && (#[trigger] next[i]).0 == k;
            assert(listing[i].0 == k);
        }
    }
    assert forall|i: int| 0 <= i < next.len() implies larger[(#[trigger] next[i]).0]
        == next[i].1 by {
        if i != p {
            assert(next[i] == listing[i]);
            lemma_text_not_before_itself(key);
            if i < p {
                assert(text_before(listing[i].0, listing[p].0));
            } else {
                assert(text_before(listing[p].0, listing[i].0));
            }
        }
    }
}

proof fn lemma_entry_inserted(
    listing: Seq<(Seq<char>, Seq<char>)>,
    map: Map<Seq<char>, Seq<char>>,
    p: int,
    key: Seq<char>,
    value: Seq<char>,
)
    requires
        lists_by_key(listing, map),
        0 <= p <= listing.len(),
        forall|i: int| 0 <= i < p ==> text_before((#[trigger] listing[i]).0, key),
        forall|i: int| p <= i < listing.len() ==> text_before(key, (#[trigger] listing[i]).0),
    ensures
        lists_by_key(listing.insert(p, (key, value)), map.insert(key, value)),
{
    let next = listing.insert(p, (key, value));
    let larger = map.insert(key, value);
    assert forall|i: int, j: int| 0 <= i < j < next.len() implies text_before(
        (#[trigger] next[i]).0,
        (#[trigger] next[j]).0,
    ) by {
        let a = if i < p {
            i
        } else {
            i - 1
        };
        let b = if j < p {
            j
        } else {
            j - 1
        };
        if i == p {
            assert(next[j] == listing[b]);
        } else if j == p {
            assert(next[i] == listing[a]);
        } else {
            assert(next[i] == listing[a] && next[j] == listing[b]);
        }
    }
    lemma_text_not_before_itself(key);
    assert forall|i: int| 0 <= i < next.len() implies larger[(#[trigger] next[i]).0]
        == next[i].1 by {
        if i < p {
            assert(next[i] == listing[i]);
        } else if i > p {
            assert(next[i] == listing[i - 1]);
        }
    }
    assert forall|k: Seq<char>| #[trigger] larger.contains_key(k) <==> is_listed(next, k) by {
        assert(map.contains_key(k) <==> is_listed(listing, k));
        if is_listed(listing, k) {
            let i = choose|i: int| 0 <= i < listing.len() && (#[trigger] listing[i]).0 == k;
            assert(next[if i < p {
                i
            } else {
                i + 1
            }].0 == k);
        }
        if k == key {
            assert(next[p].0 == k);
        }
        if is_listed(next, k) && k != key {
            let i = choose|i: int| 0 <= i < next.len() && (#[trigger] next[i]).0 == k;
            assert(listing[if i < p {
                i
            } else {
                i - 1
            }].0 == k);
        }
    }
}

/// Puts an entry into a list that is in the order of the keys, in place of the one with its key.
fn put_by_key(listing: &mut Vec<(String, String)>, key: &String, value: &String)
    requires
        in_key_order(entry_texts(old(listing)@)),
    ensures
        forall|map: Map<Seq<char>, Seq<char>>| #[trigger]
            lists_by_key(entry_texts(old(listing)@), map) ==> lists_by_key(
                entry_texts(final(listing)@),
                map.insert(key@, value@),
            ),
{
    let ghost before = entry_texts(listing@);
    let mut p: usize = 0;
    while p < listing.len() && comes_before(listing[p].0.as_str(), key.as_str())
        invariant
            p <= listing@.len(),
            before == entry_texts(listing@),
            forall|i: int| 0 <= i < p ==> text_before((#[trigger] before[i]).0, key@),
        decreases listing@.len() - p,
    {
        assert(before[p as int].0 == listing@[p as int].0@);
        p += 1;
    }
    if p < listing.len() && same_text(listing[p].0.as_str(), key.as_str()) {
        assert(before[p as int].0 == key@);
        listing.set(p, (key.clone(), value.clone()));
        assert(entry_texts(listing@) =~= before.update(p as int, (key@, value@)));
        proof {
            assert forall|map: Map<Seq<char>, Seq<char>>| #[trigger]
                lists_by_key(before, map) implies lists_by_key(
                entry_texts(listing@),
                map.insert(key@, value@),
            ) by {
                lemma_entry_set(before, map, p as int, value@);
            }
        }
    } else {
        proof {
            assert forall|i: int| p <= i < before.len() implies text_before(
                key@,
                (#[trigger] before[i]).0,
            ) by {
                assert(before[p as int].0 == listing@[p as int].0@);
                lemma_text_before_total(key@, before[p as int].0);
                if i > p {
                    assert(text_before(before[p as int].0, before[i].0));
                    lemma_text_before_transitive(key@, before[p as int].0, before[i].0);
                }
            }
        }
        listing.insert(p, (key.clone(), value.clone()));
        assert(entry_texts(listing@) =~= before.insert(p as int, (key@, value@)));
        proof {
            assert forall|map: Map<Seq<char>, Seq<char>>| #[trigger]
                lists_by_key(before, map) implies lists_by_key(
                entry_texts(listing@),
                map.insert(key@, value@),
            ) by {
                lemma_entry_inserted(before, map, p as int, key@, value@);
            }
        }
    }
}

/// The key/value annotations of a field or of a schema.
#[derive(Debug)]
pub struct Metadata {
    entries: Arc<Vec<(String, String)>>,
}

impl View for Metadata {
    type V = Map<Seq<char>, Seq<char>>;

    closed spec fn view(&self) -> Map<Seq<char>, Seq<char>> {
        entries_map(self.entries@)
    }
}

impl Clone for Metadata {
    fn clone(&self) -> (r: Metadata)
        ensures
            r == *self,
    {
        Metadata { entries: self.entries.clone() }
    }
}

impl Metadata {
    /// No annotations.
    pub fn empty() -> (r: Metadata)
        ensures
            r@ == Map::<Seq<char>, Seq<char>>::empty(),
    {
        Metadata { entries: Arc::new(Vec::new()) }
    }

    /// The annotations in `entries`; of two entries with one key, the later one counts.
    pub fn from_entries(entries: Vec<(String, String)>) -> (r: Metadata)
        ensures
            r@ == entries_map(entries@),
    {
        Metadata { entries: Arc::new(entries) }
    }

    /// The entries that make up the annotations.
    pub fn entries(&self) -> (r: &Vec<(String, String)>)
        ensures
            entries_map(r@) == self@,
    {
        &self.entries
    }

    /// The value under `key`.
    pub fn get(&self, key: &str) -> (r: Option<&String>)
        ensures
            match r {
                Some(value) => self@.contains_key(key@) && self@[key@] == value@,
                None => !self@.contains_key(key@),
            },
    {
        let entries: &Vec<(String, String)> = &self.entries;
        let ghost all = entries@;
        let mut i: usize = entries.len();
        assert(all.take(i as int) =~= all);
        while i > 0
            invariant
                i <= entries@.len(),
                all == entries@,
                all == self.entries@,
                entries_map(all).contains_key(key@) == entries_map(all.take(i as int)).contains_key(
                    key@,
                ),
                entries_map(all).contains_key(key@) ==> entries_map(all)[key@] == entries_map(
                    all.take(i as int),
                )[key@],
            decreases i,
        {
            i -= 1;
            proof {
                let upto = all.take(i + 1);
                assert(upto.drop_last() =~= all.take(i as int));
                assert(upto.last() == all[i as int]);
            }
            if same_text(entries[i].0.as_str(), key) {
                return Some(&entries[i].1);
            }
        }
        assert(all.take(0) =~= Seq::<(String, String)>::empty());
        None
    }

    /// The annotations in the order of their keys, each key once.
    pub fn entries_by_key(&self) -> (r: Vec<(String, String)>)
        ensures
            lists_by_key(entry_texts(r@), self@),
            entry_texts(r@) == by_key(self@),
    {
        let entries: &Vec<(String, String)> = &self.entries;
        let ghost all = entries@;
        let mut out: Vec<(String, String)> = Vec::new();
        let mut i: usize = 0;
        assert(all.take(0) =~= Seq::<(String, String)>::empty());
        assert(entry_texts(out@) =~= Seq::<(Seq<char>, Seq<char>)>::empty());
        while i < entries.len()
            invariant
                i <= entries@.len(),
                all == entries@,
                all == self.entries@,
                lists_by_key(entry_texts(out@), entries_map(all.take(i as int))),
            decreases entries@.len() - i,
        {
            put_by_key(&mut out, &entries[i].0, &entries[i].1);
            proof {
                let upto = all.take(i + 1);
                assert(upto.drop_last() =~= all.take(i as int));
                assert(upto.last() == all[i as int]);
            }
            i += 1;
        }
        assert(all.take(all.len() as int) =~= all);
        proof {
            lemma_one_listing_by_key(entry_texts(out@), by_key(self@), self@);
        }
        out
    }

    /// Whether every annotation of `self` is one of `other`.
    fn included_in(&self, other: &Metadata) -> (r: bool)
        ensures
            r == self@.submap_of(other@),
    {
        let entries: &Vec<(String, String)> = &self.entries;
        let ghost all = entries@;
        let mut i: usize = 0;
        assert(all.take(0) =~= Seq::<(String, String)>::empty());
        while i < entries.len()
            invariant
                i <= entries@.len(),
                all == entries@,
                all == self.entries@,
                forall|k: Seq<char>|
                    entries_map(all.take(i as int)).contains_key(k) ==> (
                    #[trigger] self@.contains_key(k) && other@.contains_key(k) && self@[k]
                        == other@[k]),
            decreases entries@.len() - i,
        {
            let key: &str = entries[i].0.as_str();
            proof {
                lemma_listed_key(all, i as int);
            }
            match (self.get(key), other.get(key)) {
                (Some(a), Some(b)) => {
                    if !same_text(a.as_str(), b.as_str()) {
                        return false;
                    }
                },
                _ => {
                    return false;
                },
            }
            proof {
                let upto = all.take(i + 1);
                assert(upto.drop_last() =~= all.take(i as int));
                assert(upto.last() == all[i as int]);
            }
            i += 1;
        }
        assert(all.take(all.len() as int) =~= all);
        assert forall|k: Seq<char>| self@.contains_key(k) implies other@.contains_key(k) && self@[k]
            == other@[k] by {
            assert(entries_map(all.take(i as int)).contains_key(k));
        }
        true
    }
}

proof fn lemma_listed_key(entries: Seq<(String, String)>, i: int)
    requires
        0 <= i < entries.len(),
    ensures
        entries_map(entries).contains_key(entries[i].0@),
    decreases entries.len(),
{
    if i < entries.len() - 1 {
        lemma_listed_key(entries.drop_last(), i);
    }
}

impl PartialEq for Metadata {
    fn eq(&self, other: &Metadata) -> (r: bool) {
        let same: bool = self.included_in(other) && other.included_in(self);
        proof {
            if same {
                assert forall|k: Seq<char>| self@.contains_key(k) == other@.contains_key(k) by {
                    assert(self@.dom().contains(k) ==> other@.dom().contains(k));
                    assert(other@.dom().contains(k) ==> self@.dom().contains(k));
                }
                assert(self@ =~= other@);
            }
        }
        same
    }
}

impl vstd::std_specs::cmp::PartialEqSpecImpl for Metadata {
    open spec fn obeys_eq_spec() -> bool {
        true
    }

    open spec fn eq_spec(&self, other: &Metadata) -> bool {
        self@ == other@
    }
}

impl Eq for Metadata {

}

/// A list of entries has the keys of its entries and no others.
pub proof fn law_keys_are_those_of_the_entries(entries: Seq<(String, String)>, key: Seq<char>)
    ensures
        entries_map(entries).contains_key(key) <==> exists|i: int|
            0 <= i < entries.len() && (#[trigger] entries[i]).0@ == key,
    decreases entries.len(),
{
    if entries_map(entries).contains_key(key) {
        let shorter = entries.drop_last();
        if entries.last().0@ == key {
            assert(entries[entries.len() - 1].0@ == key);
        } else {
            law_keys_are_those_of_the_entries(shorter, key);
            let i = choose|i: int| 0 <= i < shorter.len() && (#[trigger] shorter[i]).0@ == key;
            assert(entries[i].0@ == key);
        }
    }
    if exists|i: int| 0 <= i < entries.len() && (#[trigger] entries[i]).0@ == key {
        let i = choose|i: int| 0 <= i < entries.len() && (#[trigger] entries[i]).0@ == key;
        lemma_listed_key(entries, i);
    }
}

/// Of the entries with one key, the value of the last one counts.
pub proof fn law_last_entry_of_a_key_counts(entries: Seq<(String, String)>, i: int)
    requires
        0 <= i < entries.len(),
        forall|j: int| i < j < entries.len() ==> (#[trigger] entries[j]).0@ != entries[i].0@,
    ensures
        entries_map(entries).contains_key(entries[i].0@),
        entries_map(entries)[entries[i].0@] == entries[i].1@,
    decreases entries.len(),
{
    if i < entries.len() - 1 {
        let shorter = entries.drop_last();
        assert(entries[entries.len() - 1].0@ != entries[i].0@);
        assert forall|j: int| i < j < shorter.len() implies (#[trigger] shorter[j]).0@
            != shorter[i].0@ by {
            assert(entries[j].0@ != entries[i].0@);
        }
        law_last_entry_of_a_key_counts(shorter, i);
    }
}

/// Annotations are listed in the order of their keys: of two keys, the one that is lower where they
/// first differ, or that ends there, stands before the other.
pub proof fn law_listings_are_in_order(
    listing: Seq<(Seq<char>, Seq<char>)>,
    map: Map<Seq<char>, Seq<char>>,
    i: int,
    j: int,
)
    requires
        lists_by_key(listing, map),
        0 <= i < j < listing.len(),
    ensures
        exists|k: int| #[trigger] decided_at(listing[i].0, listing[j].0, k),
{
    assert(text_before(listing[i].0, listing[j].0));
    law_first_difference_decides(listing[i].0, listing[j].0);
}

/// A listing has the entries of the map and no others.
pub proof fn law_listings_are_complete(
    listing: Seq<(Seq<char>, Seq<char>)>,
    map: Map<Seq<char>, Seq<char>>,
    key: Seq<char>,
    value: Seq<char>,
)
    requires
        lists_by_key(listing, map),
    ensures
        listing.contains((key, value)) <==> map.contains_key(key) && map[key] == value,
{
    if listing.contains((key, value)) {
        let i = choose|i: int| 0 <= i < listing.len() && listing[i] == (key, value);
        assert(listing[i].0 == key);
        assert(is_listed(listing, key));
    }
    if map.contains_key(key) && map[key] == value {
        assert(is_listed(listing, key));
        let i = choose|i: int| 0 <= i < listing.len() && (#[trigger] listing[i]).0 == key;
        assert(listing[i] == (key, value));
    }
}

} // verus!
