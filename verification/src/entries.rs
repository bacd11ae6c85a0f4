//! Entries by text key, in key order: looking up, setting and removing.
use crate::text;
use vstd::prelude::*;

verus! {

/// The value under a key.
pub open spec fn lookup<V>(entries: Seq<(Seq<char>, V)>, key: Seq<char>) -> Option<V>
    decreases entries.len(),
{
    if entries.len() == 0 {
        None
    } else if entries[0].0 == key {
        Some(entries[0].1)
    } else {
        lookup(entries.skip(1), key)
    }
}

/// What is looked up is the value of the first entry with the key, and nothing is where no
/// entry has it.
pub proof fn lemma_lookup_is_an_entry<V>(entries: Seq<(Seq<char>, V)>, key: Seq<char>)
    ensures
        lookup(entries, key) is Some ==> exists|i: int|
            0 <= i < entries.len() && #[trigger] entries[i] == (key, lookup(entries, key)->0)
                && forall|j: int| 0 <= j < i ==> (#[trigger] entries[j]).0 != key,
        lookup(entries, key) is None ==> forall|i: int|
            0 <= i < entries.len() ==> (#[trigger] entries[i]).0 != key,
    decreases entries.len(),
{
    if entries.len() > 0 {
        let rest = entries.skip(1);
        if entries[0].0 == key {
            assert(entries[0] == (key, lookup(entries, key)->0));
        } else {
            lemma_lookup_is_an_entry(rest, key);
            if lookup(entries, key) is Some {
                let i = choose|i: int|
                    0 <= i < rest.len() && #[trigger] rest[i] == (key, lookup(rest, key)->0)
                        && forall|j: int| 0 <= j < i ==> (#[trigger] rest[j]).0 != key;
                assert(entries[i + 1] == (key, lookup(entries, key)->0));
                assert forall|j: int| 0 <= j < i + 1 implies (#[trigger] entries[j]).0 != key by {
                    if j > 0 {
                        assert(rest[j - 1] == entries[j]);
                    }
                }
            } else {
                assert forall|i: int| 0 <= i < entries.len() implies (#[trigger] entries[i]).0
                    != key by {
                    if i > 0 {
                        assert(rest[i - 1] == entries[i]);
                    }
                }
            }
        }
    }
}

/// The entries with a key set to a value, in key order.
pub open spec fn with_entry<V>(
    entries: Seq<(Seq<char>, V)>,
    key: Seq<char>,
    value: V,
) -> Seq<(Seq<char>, V)>
    decreases entries.len(),
{
    if entries.len() == 0 {
        seq![(key, value)]
    } else if entries[0].0 == key {
        seq![(key, value)] + entries.skip(1)
    } else if text::text_lt(key, entries[0].0) {
        seq![(key, value)] + entries
    } else {
        seq![entries[0]] + with_entry(entries.skip(1), key, value)
    }
}

/// The entries without a key.
pub open spec fn without_entry<V>(
    entries: Seq<(Seq<char>, V)>,
    key: Seq<char>,
) -> Seq<(Seq<char>, V)>
    decreases entries.len(),
{
    if entries.len() == 0 {
        entries
    } else if entries[0].0 == key {
        entries.skip(1)
    } else {
        seq![entries[0]] + without_entry(entries.skip(1), key)
    }
}

/// The entries with the value under a key replaced.
pub open spec fn replaced<V>(
    entries: Seq<(Seq<char>, V)>,
    key: Seq<char>,
    value: V,
) -> Seq<(Seq<char>, V)>
    decreases entries.len(),
{
    if entries.len() == 0 {
        entries
    } else if entries[0].0 == key {
        seq![(key, value)] + entries.skip(1)
    } else {
        seq![entries[0]] + replaced(entries.skip(1), key, value)
    }
}

/// Where a key stands, its value is replaced there.
pub proof fn lemma_replaced_at<V>(
    entries: Seq<(Seq<char>, V)>,
    key: Seq<char>,
    value: V,
    at: int,
)
    requires
        0 <= at < entries.len(),
        entries[at].0 == key,
        forall|j: int| 0 <= j < at ==> (#[trigger] entries[j]).0 != key,
    ensures
        replaced(entries, key, value) == entries.update(at, (key, value)),
    decreases entries.len(),
{
    if at > 0 {
        let rest = entries.skip(1);
        assert forall|j: int| 0 <= j < at - 1 implies (#[trigger] rest[j]).0 != key by {
            assert(rest[j] == entries[j + 1]);
        }
        lemma_replaced_at(rest, key, value, at - 1);
        assert(seq![entries[0]] + rest.update(at - 1, (key, value)) =~= entries.update(
            at,
            (key, value),
        ));
    } else {
        assert(seq![(key, value)] + entries.skip(1) =~= entries.update(0, (key, value)));
    }
}

/// Replacing a value by itself changes nothing.
pub proof fn lemma_replaced_same<V>(entries: Seq<(Seq<char>, V)>, key: Seq<char>, value: V)
    requires
        lookup(entries, key) == Some(value),
    ensures
        replaced(entries, key, value) == entries,
    decreases entries.len(),
{
    if entries.len() > 0 {
        if entries[0].0 != key {
            lemma_replaced_same(entries.skip(1), key, value);
        }
        assert(replaced(entries, key, value) =~= entries);
    }
}

/// Setting a key to a value twice is setting it once.
pub proof fn lemma_with_entry_again<V>(entries: Seq<(Seq<char>, V)>, key: Seq<char>, value: V)
    ensures
        with_entry(with_entry(entries, key, value), key, value) == with_entry(entries, key, value),
    decreases entries.len(),
{
    let after = with_entry(entries, key, value);
    if entries.len() > 0 && entries[0].0 != key && !text::text_lt(key, entries[0].0) {
        lemma_with_entry_again(entries.skip(1), key, value);
        assert(after.skip(1) =~= with_entry(entries.skip(1), key, value));
    }
    assert(with_entry(after, key, value) =~= after);
}

/// Whether every key comes before the next.
pub open spec fn keys_ordered<V>(entries: Seq<(Seq<char>, V)>) -> bool {
    forall|i: int, j: int|
        0 <= i < j < entries.len() ==> text::text_lt(#[trigger] entries[i].0, #[trigger] entries[j].0)
}

/// Where a key stands, what is looked up, set and removed is the entry there.
pub proof fn lemma_entry_at<V>(entries: Seq<(Seq<char>, V)>, key: Seq<char>, at: int)
    requires
        0 <= at < entries.len(),
        entries[at].0 == key,
        forall|j: int| 0 <= j < at ==> (#[trigger] entries[j]).0 != key,
    ensures
        lookup(entries, key) == Some(entries[at].1),
        without_entry(entries, key) == entries.remove(at),
    decreases entries.len(),
{
    if at > 0 {
        let rest = entries.skip(1);
        assert forall|j: int| 0 <= j < at - 1 implies (#[trigger] rest[j]).0 != key by {
            assert(rest[j] == entries[j + 1]);
        }
        lemma_entry_at(rest, key, at - 1);
        assert(seq![entries[0]] + rest.remove(at - 1) =~= entries.remove(at));
    } else {
        assert(entries.skip(1) =~= entries.remove(0));
    }
}

/// Where a key does not occur, nothing is looked up or removed.
pub proof fn lemma_entry_absent<V>(entries: Seq<(Seq<char>, V)>, key: Seq<char>)
    requires
        forall|j: int| 0 <= j < entries.len() ==> (#[trigger] entries[j]).0 != key,
    ensures
        lookup(entries, key) is None,
        without_entry(entries, key) == entries,
    decreases entries.len(),
{
    if entries.len() > 0 {
        let rest = entries.skip(1);
        assert forall|j: int| 0 <= j < rest.len() implies (#[trigger] rest[j]).0 != key by {
            assert(rest[j] == entries[j + 1]);
        }
        lemma_entry_absent(rest, key);
        assert(seq![entries[0]] + rest =~= entries);
    }
}

/// A key is set at the first place whose key does not come before it.
pub proof fn lemma_set_at<V>(entries: Seq<(Seq<char>, V)>, key: Seq<char>, value: V, at: int)
    requires
        0 <= at <= entries.len(),
        forall|j: int|
            0 <= j < at ==> (#[trigger] entries[j]).0 != key && !text::text_lt(key, entries[j].0),
        at < entries.len() ==> entries[at].0 == key || text::text_lt(key, entries[at].0),
    ensures
        with_entry(entries, key, value) == if at < entries.len() && entries[at].0 == key {
            entries.update(at, (key, value))
        } else {
            entries.insert(at, (key, value))
        },
    decreases entries.len(),
{
    if at > 0 {
        let rest = entries.skip(1);
        assert forall|j: int| 0 <= j < at - 1 implies (#[trigger] rest[j]).0 != key
            && !text::text_lt(key, rest[j].0) by {
            assert(rest[j] == entries[j + 1]);
        }
        lemma_set_at(rest, key, value, at - 1);
        if at < entries.len() && entries[at].0 == key {
            assert(seq![entries[0]] + rest.update(at - 1, (key, value)) =~= entries.update(
                at,
                (key, value),
            ));
        } else {
            assert(seq![entries[0]] + rest.insert(at - 1, (key, value)) =~= entries.insert(
                at,
                (key, value),
            ));
        }
    } else if entries.len() > 0 {
        if entries[0].0 == key {
            assert(seq![(key, value)] + entries.skip(1) =~= entries.update(0, (key, value)));
        } else {
            assert(seq![(key, value)] + entries =~= entries.insert(0, (key, value)));
        }
    } else {
        assert(seq![(key, value)] =~= entries.insert(0, (key, value)));
    }
}

/// A key that was set is found with its value, and every other key as before.
pub proof fn lemma_lookup_with_entry<V>(
    entries: Seq<(Seq<char>, V)>,
    key: Seq<char>,
    value: V,
    other: Seq<char>,
)
    ensures
        lookup(with_entry(entries, key, value), other) == if other == key {
            Some(value)
        } else {
            lookup(entries, other)
        },
    decreases entries.len(),
{
    reveal_with_fuel(lookup, 2);
    let after = with_entry(entries, key, value);
    if entries.len() == 0 {
        assert(after.skip(1) =~= Seq::<(Seq<char>, V)>::empty());
    } else if entries[0].0 == key {
        assert(after.skip(1) =~= entries.skip(1));
    } else if text::text_lt(key, entries[0].0) {
        assert(after.skip(1) =~= entries);
    } else {
        lemma_lookup_with_entry(entries.skip(1), key, value, other);
        assert(after.skip(1) =~= with_entry(entries.skip(1), key, value));
    }
}

/// In an ordered object a key that was removed is not found, and every other key as before.
pub proof fn lemma_lookup_without_entry<V>(
    entries: Seq<(Seq<char>, V)>,
    key: Seq<char>,
    other: Seq<char>,
)
    requires
        keys_ordered(entries),
    ensures
        lookup(without_entry(entries, key), other) == if other == key {
            None
        } else {
            lookup(entries, other)
        },
    decreases entries.len(),
{
    if entries.len() > 0 {
        let rest = entries.skip(1);
        assert(keys_ordered(rest)) by {
            assert forall|i: int, j: int| 0 <= i < j < rest.len() implies text::text_lt(
                (#[trigger] rest[i]).0,
                (#[trigger] rest[j]).0,
            ) by {
                assert(rest[i] == entries[i + 1] && rest[j] == entries[j + 1]);
            }
        }
        if entries[0].0 == key {
            assert forall|j: int| 0 <= j < rest.len() implies (#[trigger] rest[j]).0 != key by {
                assert(rest[j] == entries[j + 1]);
                assert(text::text_lt(entries[0].0, entries[j + 1].0));
                text::lemma_text_lt_irreflexive(key);
            }
            lemma_entry_absent(rest, key);
        } else {
            lemma_lookup_without_entry(rest, key, other);
            let after = without_entry(entries, key);
            assert(after.skip(1) =~= without_entry(rest, key));
        }
    }
}

/// Setting a key keeps the order of keys.
pub proof fn lemma_with_entry_ordered<V>(
    entries: Seq<(Seq<char>, V)>,
    key: Seq<char>,
    value: V,
)
    requires
        keys_ordered(entries),
    ensures
        keys_ordered(with_entry(entries, key, value)),
        forall|i: int|
            #![trigger with_entry(entries, key, value)[i]]
            0 <= i < with_entry(entries, key, value).len() ==> with_entry(entries, key, value)[i].0
                == key || exists|j: int|
                0 <= j < entries.len() && entries[j].0 == with_entry(entries, key, value)[i].0,
    decreases entries.len(),
{
    let after = with_entry(entries, key, value);
    if entries.len() == 0 {
    } else if entries[0].0 == key {
        assert(after =~= entries.update(0, (key, value)));
        assert forall|i: int| #![trigger after[i]] 0 <= i < after.len() implies after[i].0 == key
            || exists|j: int| 0 <= j < entries.len() && entries[j].0 == after[i].0 by {
            assert(entries[i].0 == after[i].0);
        }
    } else if text::text_lt(key, entries[0].0) {
        assert(after =~= entries.insert(0, (key, value)));
        assert forall|i: int, j: int| 0 <= i < j < after.len() implies text::text_lt(
            (#[trigger] after[i]).0,
            (#[trigger] after[j]).0,
        ) by {
            assert(after[j] == entries[j - 1]);
            if i == 0 {
                if j > 1 {
                    text::lemma_text_lt_transitive(key, entries[0].0, entries[j - 1].0);
                }
            } else {
                assert(after[i] == entries[i - 1]);
            }
        }
        assert forall|i: int| #![trigger after[i]] 0 <= i < after.len() implies after[i].0 == key
            || exists|j: int| 0 <= j < entries.len() && entries[j].0 == after[i].0 by {
            if i > 0 {
                assert(entries[i - 1].0 == after[i].0);
            }
        }
    } else {
        let rest = entries.skip(1);
        assert(keys_ordered(rest)) by {
            assert forall|i: int, j: int| 0 <= i < j < rest.len() implies text::text_lt(
                (#[trigger] rest[i]).0,
                (#[trigger] rest[j]).0,
            ) by {
                assert(rest[i] == entries[i + 1] && rest[j] == entries[j + 1]);
            }
        }
        lemma_with_entry_ordered(rest, key, value);
        text::lemma_text_lt_total(key, entries[0].0);
        let tail = with_entry(rest, key, value);
        assert(after =~= seq![entries[0]] + tail);
        assert forall|i: int, j: int| 0 <= i < j < after.len() implies text::text_lt(
            (#[trigger] after[i]).0,
            (#[trigger] after[j]).0,
        ) by {
            assert(after[j] == tail[j - 1]);
            if i == 0 {
                if tail[j - 1].0 != key {
                    let k = choose|k: int| 0 <= k < rest.len() && rest[k].0 == tail[j - 1].0;
                    assert(rest[k] == entries[k + 1]);
                }
            } else {
                assert(after[i] == tail[i - 1]);
            }
        }
        assert forall|i: int| #![trigger after[i]] 0 <= i < after.len() implies after[i].0 == key
            || exists|j: int| 0 <= j < entries.len() && entries[j].0 == after[i].0 by {
            if i == 0 {
                assert(entries[0].0 == after[0].0);
            } else {
                assert(after[i] == tail[i - 1]);
                if tail[i - 1].0 != key {
                    let k = choose|k: int| 0 <= k < rest.len() && rest[k].0 == tail[i - 1].0;
                    assert(entries[k + 1].0 == after[i].0);
                }
            }
        }
    }
}

/// Removing a key keeps the order of keys.
pub proof fn lemma_without_entry_ordered<V>(entries: Seq<(Seq<char>, V)>, key: Seq<char>)
    requires
        keys_ordered(entries),
    ensures
        keys_ordered(without_entry(entries, key)),
{
    if exists|at: int| 0 <= at < entries.len() && entries[at].0 == key {
        let at = choose|at: int| 0 <= at < entries.len() && entries[at].0 == key;
        assert forall|j: int| 0 <= j < at implies (#[trigger] entries[j]).0 != key by {
            text::lemma_text_lt_irreflexive(key);
        }
        lemma_entry_at(entries, key, at);
        let after = entries.remove(at);
        assert forall|i: int, j: int| 0 <= i < j < after.len() implies text::text_lt(
            (#[trigger] after[i]).0,
            (#[trigger] after[j]).0,
        ) by {
            let k = if i < at { i } else { i + 1 };
            let l = if j < at { j } else { j + 1 };
            assert(after[i] == entries[k] && after[j] == entries[l]);
        }
    } else {
        lemma_entry_absent(entries, key);
    }
}

/// A replaced value is found under its key, and every other key as before.
pub proof fn lemma_lookup_replaced<V>(
    entries: Seq<(Seq<char>, V)>,
    key: Seq<char>,
    value: V,
    other: Seq<char>,
)
    requires
        lookup(entries, key) is Some,
    ensures
        lookup(replaced(entries, key, value), other) == if other == key {
            Some(value)
        } else {
            lookup(entries, other)
        },
    decreases entries.len(),
{
    let after = replaced(entries, key, value);
    if entries.len() > 0 {
        if entries[0].0 == key {
            assert(after.skip(1) =~= entries.skip(1));
        } else {
            lemma_lookup_replaced(entries.skip(1), key, value, other);
            assert(after.skip(1) =~= replaced(entries.skip(1), key, value));
        }
    }
}

/// Replacing a value keeps the keys, and every other value.
pub proof fn lemma_replaced_shape<V>(entries: Seq<(Seq<char>, V)>, key: Seq<char>, value: V)
    ensures
        replaced(entries, key, value).len() == entries.len(),
        forall|i: int|
            #![trigger replaced(entries, key, value)[i]]
            0 <= i < entries.len() ==> replaced(entries, key, value)[i].0 == entries[i].0 && (
            replaced(entries, key, value)[i].1 == entries[i].1 || replaced(
                entries,
                key,
                value,
            )[i].1 == value),
    decreases entries.len(),
{
    if entries.len() > 0 && entries[0].0 != key {
        let rest = entries.skip(1);
        lemma_replaced_shape(rest, key, value);
        let after = replaced(entries, key, value);
        assert forall|i: int| #![trigger after[i]] 0 <= i < entries.len() implies after[i].0
            == entries[i].0 && (after[i].1 == entries[i].1 || after[i].1 == value) by {
            if i > 0 {
                assert(after[i] == replaced(rest, key, value)[i - 1]);
                assert(rest[i - 1] == entries[i]);
            }
        }
    }
}

/// The entries of a vector, with the keys taken by their views.
pub open spec fn keyed<V>(entries: Seq<(String, V)>) -> Seq<(Seq<char>, V)> {
    entries.map_values(|e: (String, V)| (e.0@, e.1))
}

/// A map from texts, walked in key order.
#[derive(PartialEq, Eq, Debug)]
pub struct TextMap<V> {
    entries: Vec<(String, V)>,
}

impl<V: Clone> Clone for TextMap<V> {
    fn clone(&self) -> (r: Self)
        ensures
            r@.len() == self@.len(),
            forall|i: int|
                0 <= i < self@.len() ==> (#[trigger] r@[i]).0 == self@[i].0 && cloned(
                    self@[i].1,
                    r@[i].1,
                ),
    {
        let mut entries: Vec<(String, V)> = Vec::new();
        let mut i: usize = 0;
        while i < self.entries.len()
            invariant
                i <= self.entries@.len(),
                entries@.len() == i,
                forall|j: int|
                    0 <= j < i ==> (#[trigger] entries@[j]).0 == self.entries@[j].0 && cloned(
                        self.entries@[j].1,
                        entries@[j].1,
                    ),
            decreases self.entries@.len() - i,
        {
            let entry: &(String, V) = &self.entries[i];
            entries.push((entry.0.clone(), entry.1.clone()));
            i += 1;
        }
        TextMap { entries }
    }
}

impl<V> View for TextMap<V> {
    type V = Seq<(Seq<char>, V)>;

    closed spec fn view(&self) -> Seq<(Seq<char>, V)> {
        keyed(self.entries@)
    }
}

impl<V> TextMap<V> {
    /// A map without entries.
    pub fn new() -> (r: TextMap<V>)
        ensures
            r@ == Seq::<(Seq<char>, V)>::empty(),
    {
        let r = TextMap { entries: Vec::new() };
        assert(r@ =~= Seq::empty());
        r
    }

    /// The number of entries.
    pub fn len(&self) -> (r: usize)
        ensures
            r == self@.len(),
    {
        self.entries.len()
    }

    /// The key of the entry at a place.
    pub fn key_at(&self, i: usize) -> (r: &String)
        requires
            i < self@.len(),
        ensures
            r@ == self@[i as int].0,
    {
        &self.entries[i].0
    }

    /// The value of the entry at a place.
    pub fn value_at(&self, i: usize) -> (r: &V)
        requires
            i < self@.len(),
        ensures
            *r == self@[i as int].1,
    {
        &self.entries[i].1
    }

    /// Where a key stands.
    pub fn position(&self, key: &str) -> (r: Option<usize>)
        ensures
            match r {
                Some(i) => i < self@.len() && self@[i as int].0 == key@ && lookup(self@, key@)
                    == Some(self@[i as int].1) && without_entry(self@, key@) == self@.remove(
                    i as int,
                ) && (forall|j: int| 0 <= j < i ==> (#[trigger] self@[j]).0 != key@),
                None => lookup(self@, key@) is None && without_entry(self@, key@) == self@ && (
                forall|j: int| 0 <= j < self@.len() ==> (#[trigger] self@[j]).0 != key@),
            },
    {
        let mut i: usize = 0;
        while i < self.entries.len()
            invariant
                i <= self.entries.len(),
                self.entries.len() == self@.len(),
                forall|j: int| 0 <= j < i ==> (#[trigger] self@[j]).0 != key@,
            decreases self.entries.len() - i,
        {
            assert(self@[i as int].0 == self.entries@[i as int].0@);
            if text::same_text(self.entries[i].0.as_str(), key) {
                proof {
                    lemma_entry_at(self@, key@, i as int);
                }
                return Some(i);
            }
            i += 1;
        }
        proof {
            lemma_entry_absent(self@, key@);
        }
        None
    }

    /// The value under a key.
    pub fn get(&self, key: &str) -> (r: Option<&V>)
        ensures
            match lookup(self@, key@) {
                Some(value) => r == Some(&value),
                None => r is None,
            },
    {
        match self.position(key) {
            Some(i) => Some(self.value_at(i)),
            None => None,
        }
    }

    /// Whether there is a value under a key.
    pub fn contains_key(&self, key: &str) -> (r: bool)
        ensures
            r == lookup(self@, key@) is Some,
    {
        self.position(key).is_some()
    }

    /// Sets a key to a value.
    pub fn insert(&mut self, key: String, value: V)
        ensures
            final(self)@ == with_entry(old(self)@, key@, value),
    {
        let ghost before = self@;
        let mut i: usize = 0;
        while i < self.entries.len()
            invariant_except_break
                i <= self.entries.len(),
                before == self@,
                self.entries.len() == self@.len(),
                forall|j: int|
                    0 <= j < i ==> (#[trigger] self@[j]).0 != key@ && !text::text_lt(
                        key@,
                        self@[j].0,
                    ),
            ensures
                i <= self.entries.len(),
                before == self@,
                self.entries.len() == self@.len(),
                forall|j: int|
                    0 <= j < i ==> (#[trigger] self@[j]).0 != key@ && !text::text_lt(
                        key@,
                        self@[j].0,
                    ),
                i < self@.len() ==> self@[i as int].0 == key@ || text::text_lt(
                    key@,
                    self@[i as int].0,
                ),
            decreases self.entries.len() - i,
        {
            assert(self@[i as int].0 == self.entries@[i as int].0@);
            let relation = text::relate(key.as_str(), self.entries[i].0.as_str());
            if relation != text::Relation::After {
                break;
            }
            i += 1;
        }
        proof {
            lemma_set_at(before, key@, value, i as int);
        }
        if i < self.entries.len() && text::same_text(self.entries[i].0.as_str(), key.as_str()) {
            assert(before[i as int].0 == key@);
            self.entries.set(i, (key, value));
            assert(self@ =~= before.update(i as int, (key@, value)));
        } else {
            assert(i < before.len() ==> before[i as int].0 == self.entries@[i as int].0@);
            self.entries.insert(i, (key, value));
            assert(self@ =~= before.insert(i as int, (key@, value)));
        }
    }

    /// Removes a key and gives back what was under it.
    pub fn remove(&mut self, key: &str) -> (r: Option<V>)
        ensures
            final(self)@ == without_entry(old(self)@, key@),
            r == lookup(old(self)@, key@),
    {
        let ghost before = self@;
        match self.position(key) {
            Some(i) => {
                let (_, value) = self.entries.remove(i);
                assert(self@ =~= before.remove(i as int));
                Some(value)
            },
            None => None,
        }
    }

    /// The value of the entry at a place, to be changed.
    pub fn value_mut(&mut self, i: usize) -> (r: &mut V)
        requires
            i < old(self)@.len(),
        ensures
            *r == old(self)@[i as int].1,
            final(self)@ == old(self)@.update(i as int, (old(self)@[i as int].0, *final(r))),
    {
        &mut self.entries[i].1
    }

    /// Keeps the entries whose flags are set.
    pub fn retain(&mut self, flags: &Vec<bool>)
        requires
            flags@.len() == old(self)@.len(),
        ensures
            final(self)@ == flagged(old(self)@, flags@),
    {
        let ghost whole = self@;
        let ghost raw = self.entries@;
        let mut reversed: Vec<(String, V)> = Vec::new();
        while self.entries.len() > 0
            invariant
                self.entries@.len() + reversed@.len() == raw.len(),
                self.entries@ == raw.take(self.entries@.len() as int),
                forall|j: int|
                    0 <= j < reversed@.len() ==> #[trigger] reversed@[j] == raw[raw.len() - 1 - j],
            decreases self.entries@.len(),
        {
            let ghost n = self.entries@.len() as int;
            match self.entries.pop() {
                Some(item) => {
                    assert(item == raw[n - 1]);
                    reversed.push(item);
                },
                None => {},
            }
            assert(raw.take(n).drop_last() =~= raw.take(n - 1));
        }
        let mut kept: Vec<(String, V)> = Vec::new();
        let total: usize = flags.len();
        let mut i: usize = 0;
        assert(keyed(kept@) =~= Seq::empty());
        assert(whole.take(0) =~= Seq::empty());
        while reversed.len() > 0
            invariant
                i + reversed@.len() == raw.len(),
                flags@.len() == raw.len(),
                total == raw.len(),
                whole == keyed(raw),
                forall|j: int|
                    0 <= j < reversed@.len() ==> #[trigger] reversed@[j] == raw[raw.len() - 1 - j],
                keyed(kept@) == flagged(whole.take(i as int), flags@.take(i as int)),
            decreases reversed@.len(),
        {
            let ghost before = keyed(kept@);
            assert(whole.take(i + 1).drop_last() =~= whole.take(i as int));
            assert(flags@.take(i + 1).drop_last() =~= flags@.take(i as int));
            match reversed.pop() {
                Some(item) => {
                    assert(item == raw[i as int]);
                    if flags[i] {
                        kept.push(item);
                        assert(keyed(kept@) =~= before.push((item.0@, item.1)));
                    }
                },
                None => {},
            }
            i += 1;
        }
        assert(whole.take(i as int) =~= whole);
        assert(flags@.take(i as int) =~= flags@);
        self.entries = kept;
    }
}

/// The entries whose flags are set, in order.
pub open spec fn flagged<V>(entries: Seq<(Seq<char>, V)>, flags: Seq<bool>) -> Seq<(Seq<char>, V)>
    decreases entries.len(),
{
    if entries.len() == 0 {
        entries
    } else {
        let before = flagged(entries.drop_last(), flags.drop_last());
        if flags.last() {
            before.push(entries.last())
        } else {
            before
        }
    }
}

/// The entries whose values have a property, in order.
pub open spec fn kept_where<V>(
    entries: Seq<(Seq<char>, V)>,
    keep: spec_fn(V) -> bool,
) -> Seq<(Seq<char>, V)>
    decreases entries.len(),
{
    if entries.len() == 0 {
        entries
    } else {
        let before = kept_where(entries.drop_last(), keep);
        if keep(entries.last().1) {
            before.push(entries.last())
        } else {
            before
        }
    }
}

/// The entries that are kept for a property are those whose values have it, in order.
pub proof fn lemma_kept_is_filter<V>(entries: Seq<(Seq<char>, V)>, keep: spec_fn(V) -> bool)
    ensures
        kept_where(entries, keep) == entries.filter(|e: (Seq<char>, V)| keep(e.1)),
    decreases entries.len(),
{
    reveal(Seq::filter);
    if entries.len() > 0 {
        lemma_kept_is_filter(entries.drop_last(), keep);
    }
}

/// Flags that tell a property keep the entries that have it.
pub proof fn lemma_flagged<V>(
    entries: Seq<(Seq<char>, V)>,
    flags: Seq<bool>,
    keep: spec_fn(V) -> bool,
)
    requires
        flags.len() == entries.len(),
        forall|i: int| 0 <= i < entries.len() ==> #[trigger] flags[i] == keep(entries[i].1),
    ensures
        flagged(entries, flags) == kept_where(entries, keep),
    decreases entries.len(),
{
    if entries.len() > 0 {
        let front = entries.drop_last();
        let marks = flags.drop_last();
        assert forall|i: int| 0 <= i < front.len() implies #[trigger] marks[i] == keep(
            front[i].1,
        ) by {
            assert(marks[i] == flags[i]);
        }
        lemma_flagged(front, marks, keep);
        assert(flags[entries.len() - 1] == keep(entries[entries.len() - 1].1));
    }
}

/// No more entries are kept than there were.
pub proof fn lemma_kept_len<V>(entries: Seq<(Seq<char>, V)>, keep: spec_fn(V) -> bool)
    ensures
        kept_where(entries, keep).len() <= entries.len(),
    decreases entries.len(),
{
    if entries.len() > 0 {
        lemma_kept_len(entries.drop_last(), keep);
    }
}

/// Keeping some entries keeps the order of keys, and every key kept was there.
pub proof fn lemma_kept_ordered<V>(entries: Seq<(Seq<char>, V)>, keep: spec_fn(V) -> bool)
    requires
        keys_ordered(entries),
    ensures
        keys_ordered(kept_where(entries, keep)),
        forall|i: int|
            #![trigger kept_where(entries, keep)[i]]
            0 <= i < kept_where(entries, keep).len() ==> exists|j: int|
                0 <= j < entries.len() && entries[j] == kept_where(entries, keep)[i],
    decreases entries.len(),
{
    if entries.len() > 0 {
        let front = entries.drop_last();
        lemma_kept_ordered(front, keep);
        let inner = kept_where(front, keep);
        let after = kept_where(entries, keep);
        assert forall|i: int|
            #![trigger after[i]]
            0 <= i < after.len() implies exists|j: int|
            0 <= j < entries.len() && entries[j] == after[i] by {
            if i < inner.len() {
                let j = choose|j: int| 0 <= j < front.len() && front[j] == inner[i];
                assert(entries[j] == after[i]);
            } else {
                assert(entries[entries.len() - 1] == after[i]);
            }
        }
        assert forall|i: int, j: int| 0 <= i < j < after.len() implies text::text_lt(
            #[trigger] after[i].0,
            #[trigger] after[j].0,
        ) by {
            if j < inner.len() {
                assert(after[i] == inner[i] && after[j] == inner[j]);
            } else {
                let k = choose|k: int| 0 <= k < front.len() && front[k] == inner[i];
                assert(entries[k].0 == after[i].0);
                assert(entries[entries.len() - 1].0 == after[j].0);
            }
        }
    }
}

/// In an ordered map a key is found among the entries that were kept just if its value has
/// the property.
pub proof fn lemma_lookup_kept<V>(
    entries: Seq<(Seq<char>, V)>,
    keep: spec_fn(V) -> bool,
    key: Seq<char>,
)
    requires
        keys_ordered(entries),
    ensures
        keys_ordered(kept_where(entries, keep)),
        lookup(kept_where(entries, keep), key) == match lookup(entries, key) {
            Some(value) => if keep(value) {
                Some(value)
            } else {
                None
            },
            None => None,
        },
{
    lemma_kept_ordered(entries, keep);
    let after = kept_where(entries, keep);
    if exists|at: int| 0 <= at < entries.len() && entries[at].0 == key {
        let at = choose|at: int| 0 <= at < entries.len() && entries[at].0 == key;
        lemma_ordered_lookup(entries, at);
        if keep(entries[at].1) {
            lemma_kept_has(entries, keep, at);
            let k = choose|k: int| 0 <= k < after.len() && after[k] == entries[at];
            lemma_ordered_lookup(after, k);
        } else {
            assert forall|j: int| 0 <= j < after.len() implies (#[trigger] after[j]).0 != key by {
                if after[j].0 == key {
                    lemma_kept_property(entries, keep, j);
                    let m = choose|m: int| 0 <= m < entries.len() && entries[m] == after[j];
                    lemma_ordered_lookup(entries, m);
                }
            }
            lemma_entry_absent(after, key);
        }
    } else {
        lemma_entry_absent(entries, key);
        assert forall|j: int| 0 <= j < after.len() implies (#[trigger] after[j]).0 != key by {
            let m = choose|m: int| 0 <= m < entries.len() && entries[m] == after[j];
            assert(entries[m].0 == after[j].0);
        }
        lemma_entry_absent(after, key);
    }
}

/// In an ordered map every entry is the one that is found under its key.
proof fn lemma_ordered_lookup<V>(entries: Seq<(Seq<char>, V)>, at: int)
    requires
        keys_ordered(entries),
        0 <= at < entries.len(),
    ensures
        lookup(entries, entries[at].0) == Some(entries[at].1),
{
    assert forall|j: int| 0 <= j < at implies (#[trigger] entries[j]).0 != entries[at].0 by {
        if entries[j].0 == entries[at].0 {
            text::lemma_text_lt_irreflexive(entries[at].0);
            assert(text::text_lt(entries[j].0, entries[at].0));
        }
    }
    lemma_entry_at(entries, entries[at].0, at);
}

/// An entry whose value has the property is kept.
proof fn lemma_kept_has<V>(entries: Seq<(Seq<char>, V)>, keep: spec_fn(V) -> bool, at: int)
    requires
        0 <= at < entries.len(),
        keep(entries[at].1),
    ensures
        exists|k: int|
            0 <= k < kept_where(entries, keep).len() && kept_where(entries, keep)[k]
                == entries[at],
    decreases entries.len(),
{
    let front = entries.drop_last();
    let after = kept_where(entries, keep);
    if at == entries.len() - 1 {
        assert(after[after.len() - 1] == entries[at]);
    } else {
        lemma_kept_has(front, keep, at);
        let inner = kept_where(front, keep);
        let k = choose|k: int| 0 <= k < inner.len() && inner[k] == front[at];
        assert(after[k] == entries[at]);
    }
}

/// Every value that was kept has the property.
proof fn lemma_kept_property<V>(entries: Seq<(Seq<char>, V)>, keep: spec_fn(V) -> bool, k: int)
    requires
        0 <= k < kept_where(entries, keep).len(),
    ensures
        keep(kept_where(entries, keep)[k].1),
    decreases entries.len(),
{
    if entries.len() > 0 {
        let inner = kept_where(entries.drop_last(), keep);
        if k < inner.len() {
            lemma_kept_property(entries.drop_last(), keep, k);
        }
    }
}

/// Removing a key that is not found changes nothing.
pub proof fn lemma_absent_stays<V>(entries: Seq<(Seq<char>, V)>, key: Seq<char>)
    requires
        lookup(entries, key) is None,
    ensures
        without_entry(entries, key) == entries,
    decreases entries.len(),
{
    if entries.len() > 0 {
        lemma_absent_stays(entries.skip(1), key);
        assert(seq![entries[0]] + entries.skip(1) =~= entries);
    }
}

/// Removing a key that is found makes one entry less.
pub proof fn lemma_found_is_removed<V>(entries: Seq<(Seq<char>, V)>, key: Seq<char>)
    requires
        lookup(entries, key) is Some,
    ensures
        without_entry(entries, key).len() + 1 == entries.len(),
    decreases entries.len(),
{
    if entries.len() > 0 && entries[0].0 != key {
        lemma_found_is_removed(entries.skip(1), key);
    }
}

/// The key of every entry is found.
pub proof fn lemma_key_is_found<V>(entries: Seq<(Seq<char>, V)>, at: int)
    requires
        0 <= at < entries.len(),
    ensures
        lookup(entries, entries[at].0) is Some,
    decreases entries.len(),
{
    if at > 0 && entries[0].0 != entries[at].0 {
        assert(entries.skip(1)[at - 1] == entries[at]);
        lemma_key_is_found(entries.skip(1), at - 1);
    }
}

} // verus!
