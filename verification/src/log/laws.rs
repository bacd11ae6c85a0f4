//! What is stored of entries and how they are ordered.
use crate::bytes::{bytes_lt, lemma_bytes_lt_total, utf8_lossy};
use crate::entries::{lemma_lookup_with_entry, lookup, with_entry};
use crate::hexadecimal::{hex_decoded, lemma_hex_round_trip};
use crate::json::Value;
use crate::log::entry::{
    brought, child_within, children, has_parent, hash_texts, hashes, lemma_children_are_all,
    parent_at, parent_hash, parents_of, place_numbers, shown_parents, stored_entries, timed, Entry,
    EntryOrHash,
};
use crate::log::identity::Identity;
use crate::log::lamport_clock::LamportClock;
use crate::number::NumberModel;
use crate::sorting::{lemma_sorted_keeps, lemma_sorted_member};
use crate::text::{lemma_text_lt_irreflexive, lemma_text_lt_transitive, text_lt};
use std::cmp::Ordering;
use vstd::prelude::*;

verus! {

/// The keys of what is stored of an entry differ.
proof fn lemma_keys_differ()
    ensures
        "hash"@.len() == 4 && "hash"@[0] == 'h',
        "id"@.len() == 2,
        "payload"@.len() == 7,
        "next"@.len() == 4 && "next"@[0] == 'n',
        "v"@.len() == 1,
        "clock"@.len() == 5,
        "time"@.len() == 4 && "time"@[0] == 't',
{
    reveal_strlit("hash");
    reveal_strlit("id");
    reveal_strlit("payload");
    reveal_strlit("next");
    reveal_strlit("v");
    reveal_strlit("clock");
    reveal_strlit("time");
}

/// What is stored of an entry tells its fields: the identifier of the log, the payload as a
/// text, the version, the time and the identifier of the clock, and the parents' hashes in
/// hexadecimal digits, in order. Its own hash is not told.
pub proof fn lemma_stored_fields(entry: Entry)
    ensures
        ({
            let stored = stored_entries(entry);
            let clock = lookup(stored, "clock"@);
            let next = lookup(stored, "next"@);
            &&& lookup(stored, "hash"@) == Some(Value::Text("null"@))
            &&& lookup(stored, "id"@) == Some(Value::Text(entry.id@))
            &&& lookup(stored, "payload"@) == Some(Value::Text(utf8_lossy(entry.payload@)))
            &&& lookup(stored, "v"@) == Some(Value::Number(NumberModel::Integer(entry.v as int)))
            &&& clock is Some && clock->0 is Object
            &&& lookup(clock->0->Object_0, "id"@) == Some(Value::Text(entry.clock.id@))
            &&& lookup(clock->0->Object_0, "time"@) == Some(
                Value::Number(NumberModel::Integer(entry.clock.time as int)),
            )
            &&& next is Some && next->0 is List
            &&& next->0->List_0.len() == entry.next@.len()
            &&& forall|i: int|
                0 <= i < entry.next@.len() ==> (#[trigger] next->0->List_0[i]) is Text
                    && hex_decoded(next->0->List_0[i]->Text_0) == Some(entry.next@[i].bytes@)
            &&& stored.len() == 6
        }),
{
    lemma_keys_differ();
    let none = Seq::<(Seq<char>, Value)>::empty();
    let time = Value::Number(NumberModel::Integer(entry.clock@.time));
    let clock_id = with_entry(none, "id"@, Value::Text(entry.clock@.id));
    let clock = with_entry(clock_id, "time"@, time);
    lemma_lookup_with_entry(clock_id, "time"@, time, "time"@);
    lemma_lookup_with_entry(clock_id, "time"@, time, "id"@);
    lemma_lookup_with_entry(none, "id"@, Value::Text(entry.clock@.id), "id"@);
    let a = with_entry(none, "hash"@, Value::Text("null"@));
    let b = with_entry(a, "id"@, Value::Text(entry.id@));
    let c = with_entry(b, "payload"@, Value::Text(utf8_lossy(entry.payload@)));
    let d = with_entry(c, "next"@, Value::List(hash_texts(entry.next@)));
    let v = Value::Number(NumberModel::Integer(entry.v as int));
    let e = with_entry(d, "v"@, v);
    let stored = with_entry(e, "clock"@, Value::Object(clock));
    assert(stored == stored_entries(entry));
    assert forall|key: Seq<char>| #[trigger] lookup(stored, key) == if key == "clock"@ {
        Some(Value::Object(clock))
    } else if key == "v"@ {
        Some(v)
    } else if key == "next"@ {
        Some(Value::List(hash_texts(entry.next@)))
    } else if key == "payload"@ {
        Some(Value::Text(utf8_lossy(entry.payload@)))
    } else if key == "id"@ {
        Some(Value::Text(entry.id@))
    } else if key == "hash"@ {
        Some(Value::Text("null"@))
    } else {
        None
    } by {
        lemma_lookup_with_entry(e, "clock"@, Value::Object(clock), key);
        lemma_lookup_with_entry(d, "v"@, v, key);
        lemma_lookup_with_entry(c, "next"@, Value::List(hash_texts(entry.next@)), key);
        lemma_lookup_with_entry(
            b,
            "payload"@,
            Value::Text(utf8_lossy(entry.payload@)),
            key,
        );
        lemma_lookup_with_entry(a, "id"@, Value::Text(entry.id@), key);
        lemma_lookup_with_entry(none, "hash"@, Value::Text("null"@), key);
    }
    let next = hash_texts(entry.next@);
    assert forall|i: int| 0 <= i < entry.next@.len() implies (#[trigger] next[i]) is Text
        && hex_decoded(next[i]->Text_0) == Some(entry.next@[i].bytes@) by {
        lemma_hex_round_trip(entry.next@[i]@);
    }
    lemma_one_more(none, "hash"@, Value::Text("null"@));
    lemma_lookup_with_entry(none, "hash"@, Value::Text("null"@), "id"@);
    lemma_one_more(a, "id"@, Value::Text(entry.id@));
    lemma_lookup_with_entry(none, "hash"@, Value::Text("null"@), "payload"@);
    lemma_lookup_with_entry(a, "id"@, Value::Text(entry.id@), "payload"@);
    lemma_one_more(b, "payload"@, Value::Text(utf8_lossy(entry.payload@)));
    lemma_lookup_with_entry(none, "hash"@, Value::Text("null"@), "next"@);
    lemma_lookup_with_entry(a, "id"@, Value::Text(entry.id@), "next"@);
    lemma_lookup_with_entry(b, "payload"@, Value::Text(utf8_lossy(entry.payload@)), "next"@);
    lemma_one_more(c, "next"@, Value::List(next));
    lemma_lookup_with_entry(none, "hash"@, Value::Text("null"@), "v"@);
    lemma_lookup_with_entry(a, "id"@, Value::Text(entry.id@), "v"@);
    lemma_lookup_with_entry(b, "payload"@, Value::Text(utf8_lossy(entry.payload@)), "v"@);
    lemma_lookup_with_entry(c, "next"@, Value::List(next), "v"@);
    lemma_one_more(d, "v"@, v);
    lemma_lookup_with_entry(none, "hash"@, Value::Text("null"@), "clock"@);
    lemma_lookup_with_entry(a, "id"@, Value::Text(entry.id@), "clock"@);
    lemma_lookup_with_entry(b, "payload"@, Value::Text(utf8_lossy(entry.payload@)), "clock"@);
    lemma_lookup_with_entry(c, "next"@, Value::List(next), "clock"@);
    lemma_lookup_with_entry(d, "v"@, v, "clock"@);
    lemma_one_more(e, "clock"@, Value::Object(clock));
}

/// Setting a key that was not there makes one entry more.
proof fn lemma_one_more(entries: Seq<(Seq<char>, Value)>, key: Seq<char>, value: Value)
    requires
        lookup(entries, key) is None,
    ensures
        with_entry(entries, key, value).len() == entries.len() + 1,
    decreases entries.len(),
{
    if entries.len() > 0 && entries[0].0 != key && !text_lt(key, entries[0].0) {
        lemma_one_more(entries.skip(1), key, value);
    }
}

/// Entries that are stored alike have equal clocks, belong to the same log, have the same
/// version and parents, and payloads that read alike.
pub proof fn lemma_stored_tells_entries_apart(a: Entry, b: Entry)
    requires
        stored_entries(a) == stored_entries(b),
    ensures
        a.id@ == b.id@,
        a.v == b.v,
        a.clock.id@ == b.clock.id@,
        a.clock.time == b.clock.time,
        a.next@.len() == b.next@.len(),
        forall|i: int|
            0 <= i < a.next@.len() ==> (#[trigger] a.next@[i]).bytes@ == b.next@[i].bytes@,
        utf8_lossy(a.payload@) == utf8_lossy(b.payload@),
{
    lemma_stored_fields(a);
    lemma_stored_fields(b);
    let next = lookup(stored_entries(a), "next"@)->0->List_0;
    assert forall|i: int| 0 <= i < a.next@.len() implies (#[trigger] a.next@[i]).bytes@
        == b.next@[i].bytes@ by {
        assert(next[i] is Text);
    }
}

/// What `Entry::stored` gives is that object.
pub proof fn lemma_stored_object(entry: &Entry, r: crate::json::Json)
    requires
        call_ensures(Entry::stored, (entry,), r),
    ensures
        r@ is Object,
        lookup(r@->Object_0, "id"@) == Some(Value::Text(entry.id@)),
        lookup(r@->Object_0, "clock"@) is Some,
        lookup(lookup(r@->Object_0, "clock"@)->0->Object_0, "time"@) == Some(
            Value::Number(NumberModel::Integer(entry.clock.time as int)),
        ),
        lookup(lookup(r@->Object_0, "clock"@)->0->Object_0, "id"@) == Some(
            Value::Text(entry.clock.id@),
        ),
{
    lemma_stored_fields(*entry);
}

/// Of two entries the later in time wins; of two at the same time the one whose clock has the
/// greater identifier.
pub proof fn lemma_last_write_wins(a: &Entry, b: &Entry, r: Ordering)
    requires
        call_ensures(Entry::last_write_wins, (a, b), r),
    ensures
        a.clock.time < b.clock.time ==> r == Ordering::Less,
        a.clock.time > b.clock.time ==> r == Ordering::Greater,
        a.clock.time == b.clock.time && text_lt(a.clock.id@, b.clock.id@) ==> r == Ordering::Less,
        a.clock.time == b.clock.time && text_lt(b.clock.id@, a.clock.id@) ==> r
            == Ordering::Greater,
        a.clock.time == b.clock.time && a.clock.id@ == b.clock.id@ ==> r == Ordering::Less,
{
    lemma_one_way(a.clock.id@, b.clock.id@);
}

/// Of two texts at most one comes before the other.
proof fn lemma_one_way(a: Seq<char>, b: Seq<char>)
    ensures
        !(text_lt(a, b) && text_lt(b, a)),
        a == b ==> !text_lt(a, b) && !text_lt(b, a),
{
    lemma_text_lt_irreflexive(a);
    if text_lt(a, b) && text_lt(b, a) {
        lemma_text_lt_transitive(a, b, a);
    }
}

/// Entries are ordered by time, then by the identifier of the clock.
pub proof fn lemma_order_of_entries(a: &Entry, b: &Entry, r: Ordering)
    requires
        call_ensures(Entry::order, (a, b), r),
    ensures
        a.clock.time < b.clock.time ==> r == Ordering::Less,
        a.clock.time > b.clock.time ==> r == Ordering::Greater,
        a.clock.time == b.clock.time && text_lt(a.clock.id@, b.clock.id@) ==> r == Ordering::Less,
        a.clock.time == b.clock.time && text_lt(b.clock.id@, a.clock.id@) ==> r
            == Ordering::Greater,
        a.clock.time == b.clock.time && a.clock.id@ == b.clock.id@ ==> r == Ordering::Equal,
{
    lemma_one_way(a.clock.id@, b.clock.id@);
}

/// Entries are ordered by hash, then by the identifier of the clock, then by time.
pub proof fn lemma_order_by_hash(a: &Entry, b: &Entry, r: Ordering)
    requires
        call_ensures(Entry::sort_by_entry_hash, (a, b), r),
    ensures
        bytes_lt(a.hash.bytes@, b.hash.bytes@) ==> r == Ordering::Less,
        bytes_lt(b.hash.bytes@, a.hash.bytes@) ==> r == Ordering::Greater,
        a.hash.bytes@ == b.hash.bytes@ ==> {
            &&& text_lt(a.clock.id@, b.clock.id@) ==> r == Ordering::Less
            &&& text_lt(b.clock.id@, a.clock.id@) ==> r == Ordering::Greater
            &&& a.clock.id@ == b.clock.id@ && a.clock.time < b.clock.time ==> r == Ordering::Less
            &&& a.clock.id@ == b.clock.id@ && a.clock.time > b.clock.time ==> r
                == Ordering::Greater
            &&& a.clock.id@ == b.clock.id@ && a.clock.time == b.clock.time ==> r
                == Ordering::Equal
        },
{
    lemma_one_way(a.clock.id@, b.clock.id@);
    lemma_bytes_lt_total(a.hash.bytes@, b.hash.bytes@);
}

/// A step-by-step order is that of `resolve` wherever this tells two entries apart.
pub proof fn lemma_resolved_first<F: Fn(&Entry, &Entry) -> Ordering>(
    resolve: &F,
    a: &Entry,
    b: &Entry,
    r: Ordering,
)
    requires
        call_ensures(Entry::sort_step_by_step::<F>, (resolve, a, b), r),
    ensures
        (forall|o: Ordering| #[trigger] call_ensures(*resolve, (a, b), o) ==> o == Ordering::Less)
            ==> r == Ordering::Less,
        (forall|o: Ordering| #[trigger] call_ensures(*resolve, (a, b), o) ==> o
            == Ordering::Greater) ==> r == Ordering::Greater,
        (forall|o: Ordering| #[trigger] call_ensures(*resolve, (a, b), o) ==> o == Ordering::Equal)
            ==> {
            &&& text_lt(a.clock.id@, b.clock.id@) ==> r == Ordering::Less
            &&& text_lt(b.clock.id@, a.clock.id@) ==> r == Ordering::Greater
            &&& a.clock.id@ == b.clock.id@ && a.clock.time < b.clock.time ==> r == Ordering::Less
            &&& a.clock.id@ == b.clock.id@ && a.clock.time > b.clock.time ==> r
                == Ordering::Greater
            &&& a.clock.id@ == b.clock.id@ && a.clock.time == b.clock.time ==> r
                == Ordering::Equal
        },
{
    lemma_one_way(a.clock.id@, b.clock.id@);
}

/// An entry is a parent of another exactly where its hash is among the parents' hashes.
pub proof fn lemma_parents(e1: &Entry, e2: &Entry, r: bool)
    requires
        call_ensures(Entry::is_parent, (e1, e2), r),
    ensures
        r <==> exists|i: int|
            0 <= i < e2.next@.len() && (#[trigger] e2.next@[i]).bytes@ == e1.hash.bytes@,
{
}

/// A round of a fetch brings its entries in order, and all their parents are fetched next.
pub proof fn lemma_round_of_a_fetch(round: Seq<Option<Entry>>, hash: crate::hash::ContentHash)
    ensures
        brought(round) == round.filter(|e: Option<Entry>| e is Some).map_values(
            |e: Option<Entry>| e->0,
        ),
        parents_of(round).contains(hash) <==> exists|i: int|
            0 <= i < round.len() && (#[trigger] round[i]) is Some && round[i]->0.next@.contains(
                hash,
            ),
        parents_of(round).len() == total_parents(round),
    decreases round.len(),
{
    reveal(Seq::filter);
    let keep = |e: Option<Entry>| e is Some;
    let inner = |e: Option<Entry>| e->0;
    if round.len() > 0 {
        let front = round.drop_last();
        let n = round.len() - 1;
        lemma_round_of_a_fetch(front, hash);
        let before = front.filter(keep);
        assert(before.push(round.last()).map_values(inner) =~= before.map_values(inner).push(
            inner(round.last()),
        ));
        let old_parents = parents_of(front);
        let all = parents_of(round);
        match round.last() {
            Some(last) => {
                assert(all == old_parents + last.next@);
                if all.contains(hash) {
                    let k = choose|k: int| 0 <= k < all.len() && all[k] == hash;
                    if k < old_parents.len() {
                        assert(old_parents[k] == hash);
                        let i = choose|i: int|
                            0 <= i < front.len() && (#[trigger] front[i]) is Some
                                && front[i]->0.next@.contains(hash);
                        assert(round[i] == front[i]);
                    } else {
                        assert(last.next@[k - old_parents.len()] == hash);
                        assert(round[n] is Some);
                    }
                }
                if exists|i: int|
                    0 <= i < round.len() && (#[trigger] round[i]) is Some
                        && round[i]->0.next@.contains(hash) {
                    let i = choose|i: int|
                        0 <= i < round.len() && (#[trigger] round[i]) is Some
                            && round[i]->0.next@.contains(hash);
                    if i < n {
                        assert(front[i] == round[i]);
                        assert(old_parents.contains(hash));
                        let k = choose|k: int| 0 <= k < old_parents.len() && old_parents[k] == hash;
                        assert(all[k] == hash);
                    } else {
                        let k = choose|k: int| 0 <= k < last.next@.len() && last.next@[k] == hash;
                        assert(all[old_parents.len() + k] == hash);
                    }
                }
            },
            None => {
                assert(all == old_parents);
                if all.contains(hash) {
                    let i = choose|i: int|
                        0 <= i < front.len() && (#[trigger] front[i]) is Some
                            && front[i]->0.next@.contains(hash);
                    assert(round[i] == front[i]);
                }
                if exists|i: int|
                    0 <= i < round.len() && (#[trigger] round[i]) is Some
                        && round[i]->0.next@.contains(hash) {
                    let i = choose|i: int|
                        0 <= i < round.len() && (#[trigger] round[i]) is Some
                            && round[i]->0.next@.contains(hash);
                    assert(front[i] == round[i]);
                }
            },
        }
    } else {
        assert(round.filter(keep).map_values(inner) =~= Seq::empty());
    }
}

/// How many parents the entries of a round have.
pub open spec fn total_parents(round: Seq<Option<Entry>>) -> nat
    decreases round.len(),
{
    if round.len() == 0 {
        0
    } else {
        total_parents(round.drop_last()) + match round.last() {
            Some(entry) => entry.next@.len(),
            None => 0,
        }
    }
}

/// An entry is a parent of another exactly where the other tells its hash among its parents'.
pub proof fn lemma_is_parent(a: &Entry, b: &Entry, r: bool)
    requires
        call_ensures(Entry::is_parent, (a, b), r),
    ensures
        r <==> exists|k: int| 0 <= k < b.next@.len() && (#[trigger] b.next@[k])@ == a.hash@,
{
}

/// A new entry has what it was made with. It has the hashes of its parents, in order, and that of
/// a single parent twice.
pub proof fn lemma_new_entry(
    identity: Identity,
    log_id: &str,
    data: &[u8],
    next: &[EntryOrHash],
    clock: Option<LamportClock>,
    r: Entry,
)
    requires
        call_ensures(Entry::new, (identity, log_id, data, next, clock), r),
    ensures
        r.id@ == log_id@,
        r.payload@ == data@,
        r.identity == Some(identity),
        clock is Some ==> r.clock@ == clock->0@,
        clock is None ==> r.clock@.time == 0 && r.clock@.id == identity.pub_key@,
        next@.len() == 1 ==> r.next@.len() == 2 && r.next@[0]@ == r.next@[1]@,
        next@.len() != 1 ==> r.next@.len() == next@.len(),
        forall|k: int|
            0 <= k < next@.len() ==> (#[trigger] r.next@[k])@ == match next@[k] {
                EntryOrHash::Entry(parent) => parent.hash@,
                EntryOrHash::Hash(hash) => hash@,
            },
{
    let parents = next@.map_values(|n: EntryOrHash| parent_hash(n));
    let shown = shown_parents(parents);
    assert(hashes(r.next@).len() == r.next@.len());
    assert forall|k: int| 0 <= k < r.next@.len() implies (#[trigger] r.next@[k])@ == shown[k] by {
        assert(hashes(r.next@)[k] == r.next@[k]@);
    }
}

/// Whether an entry tells a hash among its parents'.
pub open spec fn tells_parent(child: Entry, hash: Seq<u8>) -> bool {
    exists|k: int| 0 <= k < child.next@.len() && (#[trigger] child.next@[k])@ == hash
}

/// The children of an entry that are found are in order of time, and each is found once. Every
/// entry with the entry for a parent, or a child that is found, is found.
pub proof fn lemma_found_children(entry: &Entry, entries: &[Entry], r: Vec<usize>)
    requires
        call_ensures(Entry::find_children, (entry, entries), r),
    ensures
        forall|a: int| 0 <= a < r@.len() ==> (#[trigger] r@[a]) < entries@.len(),
        forall|a: int, b: int|
            0 <= a < b < r@.len() ==> entries@[#[trigger] r@[a] as int].clock.time
                <= entries@[#[trigger] r@[b] as int].clock.time,
        forall|a: int, b: int|
            0 <= a < b < r@.len() ==> (#[trigger] r@[a]) != (#[trigger] r@[b]),
        forall|i: int|
            0 <= i < entries@.len() && tells_parent(#[trigger] entries@[i], entry.hash@)
                ==> r@.contains(i as usize),
        forall|i: int, a: int|
            0 <= i < entries@.len() && 0 <= a < r@.len() && #[trigger] tells_parent(
                entries@[i],
                entries@[#[trigger] r@[a] as int].hash@,
            ) ==> r@.contains(i as usize),
{
    let found = children(entry.hash@, entries@);
    let before = timed(found, entries@);
    let places = place_numbers(r@);
    let after = timed(places, entries@);
    lemma_children_are_all(entry.hash@, entries@, 0);
    assert(places.len() == r@.len() && after.len() == r@.len() && before.len() == found.len());
    assert forall|a: int| 0 <= a < r@.len() implies (#[trigger] r@[a]) < entries@.len()
        && found.contains(r@[a] as int) by {
        lemma_sorted_member(before, after, a);
        let k = choose|k: int| 0 <= k < before.len() && before[k] == after[a];
        assert(after[a].1 == r@[a] && before[k].1 == found[k]);
        assert(found.contains(r@[a] as int));
        lemma_children_are_all(entry.hash@, entries@, r@[a] as int);
    }
    assert forall|i: int| #[trigger] found.contains(i) implies 0 <= i < entries@.len()
        && places.contains(i) && r@.contains(i as usize) by {
        lemma_children_are_all(entry.hash@, entries@, i);
        let k = choose|k: int| 0 <= k < found.len() && found[k] == i;
        lemma_sorted_keeps(before, after, k);
        let a = choose|a: int| 0 <= a < after.len() && after[a] == before[k];
        assert(after[a].1 == places[a] && places[a] == r@[a]);
        assert(before[k].1 == i);
        assert(r@[a] == i as usize);
    }
    assert forall|a: int, b: int| 0 <= a < b < r@.len() implies entries@[#[trigger] r@[a] as int].clock.time <= entries@[#[trigger] r@[b] as int].clock.time by {
        assert(after[a].0 <= after[b].0);
        assert(places[a] == r@[a] && places[b] == r@[b]);
    }
    assert(found.to_set() =~= places.to_set()) by {
        assert forall|i: int| places.to_set().contains(i) implies found.to_set().contains(i) by {
            let a = choose|a: int| 0 <= a < places.len() && places[a] == i;
            assert(r@[a] == i);
        }
    }
    found.unique_seq_to_set();
    places.lemma_no_dup_set_cardinality();
    assert forall|a: int, b: int| 0 <= a < b < r@.len() implies (#[trigger] r@[a])
        != (#[trigger] r@[b]) by {
        assert(places[a] == r@[a] && places[b] == r@[b]);
    }
    assert forall|i: int|
        0 <= i < entries@.len() && tells_parent(
            #[trigger] entries@[i],
            entry.hash@,
        ) implies r@.contains(i as usize) by {
        assert(child_within(entry.hash@, entries@, i, 1));
        lemma_children_are_all(entry.hash@, entries@, i);
    }
    assert forall|i: int, a: int|
        0 <= i < entries@.len() && 0 <= a < r@.len() && #[trigger] tells_parent(
            entries@[i],
            entries@[#[trigger] r@[a] as int].hash@,
        ) implies r@.contains(i as usize) by {
        let j = r@[a] as int;
        lemma_children_are_all(entry.hash@, entries@, j);
        let steps = choose|steps: nat| child_within(entry.hash@, entries@, j, steps);
        assert(parent_at(entries@, j, i));
        assert(child_within(entry.hash@, entries@, i, steps + 1));
        lemma_children_are_all(entry.hash@, entries@, i);
    }
}

/// Each child of an entry that is found has the entry for a parent, or another child that is
/// found.
pub proof fn lemma_found_child_has_parent(
    entry: &Entry,
    entries: &[Entry],
    r: Vec<usize>,
    a: int,
)
    requires
        call_ensures(Entry::find_children, (entry, entries), r),
        0 <= a < r@.len(),
    ensures
        tells_parent(entries@[r@[a] as int], entry.hash@) || exists|b: int|
            0 <= b < r@.len() && #[trigger] tells_parent(
                entries@[r@[a] as int],
                entries@[r@[b] as int].hash@,
            ),
{
    let found = children(entry.hash@, entries@);
    let before = timed(found, entries@);
    let places = place_numbers(r@);
    let after = timed(places, entries@);
    let i = r@[a] as int;
    lemma_sorted_member(before, after, a);
    let k = choose|k: int| 0 <= k < before.len() && before[k] == after[a];
    assert(after[a].1 == i && before[k].1 == found[k]);
    assert(found.contains(i));
    lemma_children_are_all(entry.hash@, entries@, i);
    let steps = choose|steps: nat| child_within(entry.hash@, entries@, i, steps);
    if !tells_parent(entries@[i], entry.hash@) {
        assert(!has_parent(entries@[i].next@, entry.hash@));
        let j = choose|j: int| #[trigger]
            parent_at(entries@, j, i) && child_within(
                entry.hash@,
                entries@,
                j,
                (steps - 1) as nat,
            );
        lemma_children_are_all(entry.hash@, entries@, j);
        let m = choose|m: int| 0 <= m < found.len() && found[m] == j;
        lemma_sorted_keeps(before, after, m);
        let b = choose|b: int| 0 <= b < after.len() && after[b] == before[m];
        assert(after[b].1 == r@[b] && before[m].1 == j);
        assert(tells_parent(entries@[r@[a] as int], entries@[r@[b] as int].hash@));
    }
}

} // verus!
