//! Log entries: a payload, its place in logical time, and its parents.
use crate::bytes;
use crate::bytes::{bytes_relation, utf8, utf8_lossy};
use crate::entries::with_entry;
use crate::error::{Failure, GuardianError};
use crate::hash::ContentHash;
use crate::hexadecimal;
use crate::hexadecimal::{hex_decoded, hex_text};
use crate::json::{list_model, Json, JsonObject, Value};
use crate::log::access_control::LogEntry;
use crate::log::identity::{Identity, IdentityModel, Signatures};
use crate::log::lamport_clock::{clock_relation, ClockModel, LamportClock};
use crate::number::{Number, NumberModel};
use crate::sorting;
use crate::sorting::sorts_stably;
use crate::text;
use crate::text::{text_relation, Relation};
use std::cmp::Ordering;
use vstd::prelude::*;

verus! {

/// An error in storing or fetching an entry.
#[derive(Debug)]
pub enum Error {
    /// The store failed.
    Iroh(GuardianError),
    /// Stored JSON could not be read or written.
    Json(String),
    /// Input or output failed.
    Io(String),
    /// Anything else.
    Other(String),
}

impl Error {
    /// What the error says, in words.
    pub fn render(&self) -> (r: String)
        ensures
            r@ == match *self {
                Error::Iroh(e) => "iroh error: "@ + match e@ {
                    Failure::Store(m) => m,
                    Failure::Storage(m) => m,
                    Failure::Other(m) => m,
                },
                Error::Json(m) => "JSON error: "@ + m@,
                Error::Io(m) => "IO error: "@ + m@,
                Error::Other(m) => "Other error: "@ + m@,
            },
    {
        match self {
            Error::Iroh(e) => text::join2("iroh error: ", e.message().as_str()),
            Error::Json(m) => text::join2("JSON error: ", m.as_str()),
            Error::Io(m) => text::join2("IO error: ", m.as_str()),
            Error::Other(m) => text::join2("Other error: ", m.as_str()),
        }
    }
}

/// A parent: an entry or its hash.
pub enum EntryOrHash<'a> {
    Entry(&'a Entry),
    Hash(ContentHash),
}

/// The hash of a parent.
pub open spec fn parent_hash(parent: EntryOrHash) -> Seq<u8> {
    match parent {
        EntryOrHash::Entry(e) => e.hash@,
        EntryOrHash::Hash(h) => h@,
    }
}

/// The hashes that show parents: one parent shows as two identical hashes.
pub open spec fn shown_parents(parents: Seq<Seq<u8>>) -> Seq<Seq<u8>> {
    if parents.len() == 1 {
        seq![parents[0], parents[0]]
    } else {
        parents
    }
}

/// An entry of a log.
#[derive(Debug)]
pub struct Entry {
    pub hash: ContentHash,
    pub id: String,
    pub payload: Vec<u8>,
    pub next: Vec<ContentHash>,
    pub v: u32,
    pub clock: LamportClock,
    pub identity: Option<Identity>,
}

/// The bytes of hashes.
pub open spec fn hashes(v: Seq<ContentHash>) -> Seq<Seq<u8>> {
    v.map_values(|h: ContentHash| h@)
}

/// Whether one of the parents has a hash.
pub open spec fn has_parent(next: Seq<ContentHash>, hash: Seq<u8>) -> bool {
    exists|i: int| 0 <= i < next.len() && (#[trigger] next[i])@ == hash
}

/// The places from `from` on of the entries that have a parent with a hash and
/// are not known yet.
pub open spec fn new_children(
    hash: Seq<u8>,
    entries: Seq<Entry>,
    known: Seq<int>,
    from: int,
) -> Seq<int>
    decreases entries.len() - from,
{
    if from < 0 || from >= entries.len() {
        Seq::empty()
    } else if has_parent(entries[from].next@, hash) && !known.contains(from) {
        seq![from] + new_children(hash, entries, known, from + 1)
    } else {
        new_children(hash, entries, known, from + 1)
    }
}

/// The known places with those of the children of each from `at` on, of their
/// children, and so on.
pub open spec fn spread(entries: Seq<Entry>, known: Seq<int>, at: int) -> Seq<int>
    decreases entries.len() - at,
{
    if at < 0 || at >= known.len() || at >= entries.len() {
        known
    } else {
        spread(
            entries,
            known + new_children(entries[known[at]].hash@, entries, known, 0),
            at + 1,
        )
    }
}

/// The places of the direct and indirect children of an entry, nearest first.
pub open spec fn children(hash: Seq<u8>, entries: Seq<Entry>) -> Seq<int> {
    spread(entries, new_children(hash, entries, Seq::empty(), 0), 0)
}

/// Whether the entry at a place is a parent of that at another.
pub open spec fn parent_at(entries: Seq<Entry>, j: int, i: int) -> bool {
    has_parent(entries[i].next@, entries[j].hash@)
}

/// Whether an entry is a child within a number of generations.
pub open spec fn child_within(hash: Seq<u8>, entries: Seq<Entry>, i: int, steps: nat) -> bool
    decreases steps,
{
    0 <= i < entries.len() && steps > 0 && (has_parent(entries[i].next@, hash) || exists|j: int|
        #[trigger] parent_at(entries, j, i) && child_within(hash, entries, j, (steps - 1) as nat))
}

/// Places of entries, each with its time.
pub open spec fn timed(places: Seq<int>, entries: Seq<Entry>) -> Seq<(i64, int)> {
    places.map_values(|i: int| (entries[i].clock.time as i64, i))
}

/// Places as integers.
pub open spec fn place_numbers(v: Seq<usize>) -> Seq<int> {
    v.map_values(|i: usize| i as int)
}

impl Entry {
    /// An entry that stands for none.
    pub fn empty() -> (r: Entry)
        ensures
            r.hash@ == Seq::new(32, |i: int| 0u8),
            r.id@ == "0000"@,
            r.payload@ == utf8("0000"@),
            r.next@.len() == 0,
            r.v == 0,
            r.clock@ == (ClockModel { id: "0000"@, time: 0 }),
            r.identity is None,
    {
        Entry {
            hash: ContentHash::zero(),
            id: text::owned("0000"),
            payload: bytes::to_vec("0000".as_bytes()),
            next: Vec::new(),
            v: 0,
            clock: LamportClock::new("0000"),
            identity: None,
        }
    }

    /// An entry of a log that is not stored yet, and so has no hash. A single
    /// parent shows as two identical hashes, so that an entry with at most two
    /// parents has none or two. Without a clock it gets one at time zero that the
    /// identity's public key keeps.
    pub fn new(
        identity: Identity,
        log_id: &str,
        data: &[u8],
        next: &[EntryOrHash],
        clock: Option<LamportClock>,
    ) -> (r: Entry)
        ensures
            r.hash@ == Seq::new(32, |i: int| 0u8),
            r.id@ == log_id@,
            r.payload@ == data@,
            hashes(r.next@) == shown_parents(next@.map_values(|n: EntryOrHash| parent_hash(n))),
            next@.len() <= 2 ==> r.next@.len() == 0 || r.next@.len() == 2,
            r.v == 1,
            r.clock@ == match clock {
                Some(c) => c@,
                None => ClockModel { id: identity@.pub_key, time: 0 },
            },
            r.identity == Some(identity),
    {
        let mut parents: Vec<ContentHash> = Vec::new();
        let mut i: usize = 0;
        while i < next.len()
            invariant
                i <= next@.len(),
                parents@.len() == i,
                forall|j: int| 0 <= j < i ==> (#[trigger] parents@[j])@ == parent_hash(next@[j]),
            decreases next@.len() - i,
        {
            let hash: ContentHash = match &next[i] {
                EntryOrHash::Entry(e) => e.hash,
                EntryOrHash::Hash(h) => *h,
            };
            parents.push(hash);
            i += 1;
        }
        if parents.len() == 1 {
            let only: ContentHash = parents[0];
            parents.push(only);
        }
        assert(hashes(parents@) =~= shown_parents(
            next@.map_values(|n: EntryOrHash| parent_hash(n)),
        ));
        let clock: LamportClock = match clock {
            Some(c) => c,
            None => LamportClock::new(identity.pub_key()),
        };
        Entry {
            hash: ContentHash::zero(),
            id: text::owned(log_id),
            payload: bytes::to_vec(data),
            next: parents,
            v: 1,
            clock,
            identity: Some(identity),
        }
    }

    /// The hash of the entry.
    pub fn hash(&self) -> (r: &ContentHash)
        ensures
            *r == self.hash,
    {
        &self.hash
    }

    /// Sets the hash of the entry.
    pub fn set_hash(&mut self, hash: &ContentHash)
        ensures
            *final(self) == (Entry { hash: *hash, ..*old(self) }),
    {
        self.hash = *hash;
    }

    /// The identifier of the log that the entry is part of.
    pub fn id(&self) -> (r: &str)
        ensures
            r@ == self.id@,
    {
        self.id.as_str()
    }

    /// The payload.
    pub fn payload(&self) -> (r: &[u8])
        ensures
            r@ == self.payload@,
    {
        self.payload.as_slice()
    }

    /// The payload as a text.
    pub fn payload_str(&self) -> (r: String)
        ensures
            r@ == utf8_lossy(self.payload@),
            vstd::utf8::valid_utf8(self.payload@) ==> utf8(r@) == self.payload@,
    {
        bytes::from_utf8_lossy(self.payload.as_slice())
    }

    /// The hashes of the parents: of an entry that was made with at most two, none
    /// for no parent, two identical ones for one parent, and one each for two.
    pub fn next(&self) -> (r: &[ContentHash])
        ensures
            r@ == self.next@,
    {
        self.next.as_slice()
    }

    /// The logical time of the entry.
    pub fn clock(&self) -> (r: &LamportClock)
        ensures
            *r == self.clock,
    {
        &self.clock
    }

    /// Whether `e1` is a parent of `e2`.
    pub fn is_parent(e1: &Entry, e2: &Entry) -> (r: bool)
        ensures
            r == has_parent(e2.next@, e1.hash@),
    {
        let mut i: usize = 0;
        while i < e2.next.len()
            invariant
                i <= e2.next.len(),
                forall|j: int| 0 <= j < i ==> (#[trigger] e2.next@[j])@ != e1.hash@,
            decreases e2.next.len() - i,
        {
            if e2.next[i].same(&e1.hash) {
                return true;
            }
            i += 1;
        }
        false
    }

    /// Adds the places of the children of an entry that are not known yet.
    fn add_children(parent: &Entry, entries: &[Entry], known: &mut Vec<usize>)
        requires
            forall|j: int| 0 <= j < old(known)@.len() ==> #[trigger] old(known)@[j] < entries@.len(),
        ensures
            place_numbers(final(known)@) == place_numbers(old(known)@) + new_children(
                parent.hash@,
                entries@,
                place_numbers(old(known)@),
                0,
            ),
            forall|j: int|
                0 <= j < final(known)@.len() ==> #[trigger] final(known)@[j] < entries@.len(),
    {
        let ghost before = place_numbers(known@);
        let mut found: Vec<usize> = Vec::new();
        let mut i: usize = 0;
        assert(place_numbers(found@) + new_children(parent.hash@, entries@, before, 0)
            =~= new_children(parent.hash@, entries@, before, 0));
        while i < entries.len()
            invariant
                i <= entries@.len(),
                before == place_numbers(known@),
                forall|j: int| 0 <= j < found@.len() ==> #[trigger] found@[j] < entries@.len(),
                new_children(parent.hash@, entries@, before, 0) == place_numbers(found@)
                    + new_children(parent.hash@, entries@, before, i as int),
            decreases entries@.len() - i,
        {
            let ghost had = place_numbers(found@);
            let ghost rest = new_children(parent.hash@, entries@, before, i + 1);
            if Self::is_parent(parent, &entries[i]) && !Self::holds_place(known.as_slice(), i) {
                found.push(i);
                proof {
                    assert(place_numbers(found@) =~= had.push(i as int));
                    assert(had + (seq![i as int] + rest) =~= had.push(i as int) + rest);
                }
            }
            i += 1;
        }
        assert(new_children(parent.hash@, entries@, before, i as int) =~= Seq::empty());
        assert(new_children(parent.hash@, entries@, before, 0) =~= place_numbers(found@));
        known.append(&mut found);
        assert(place_numbers(known@) =~= before + new_children(parent.hash@, entries@, before, 0));
    }

    /// Whether a place is among others.
    fn holds_place(places: &[usize], place: usize) -> (r: bool)
        ensures
            r == place_numbers(places@).contains(place as int),
    {
        let mut i: usize = 0;
        while i < places.len()
            invariant
                i <= places@.len(),
                forall|j: int| 0 <= j < i ==> #[trigger] places@[j] != place,
            decreases places@.len() - i,
        {
            if places[i] == place {
                assert(place_numbers(places@)[i as int] == place);
                return true;
            }
            i += 1;
        }
        assert forall|j: int| 0 <= j < places@.len() implies place_numbers(places@)[j]
            != place as int by {
            assert(places@[j] != place);
        }
        false
    }

    /// The places of all direct and indirect children of an entry, in order of
    /// time; of those with the same time the nearer come first.
    pub fn find_children(entry: &Entry, entries: &[Entry]) -> (r: Vec<usize>)
        ensures
            sorts_stably(
                timed(children(entry.hash@, entries@), entries@),
                timed(place_numbers(r@), entries@),
            ),
    {
        let ghost whole = children(entry.hash@, entries@);
        let mut known: Vec<usize> = Vec::new();
        assert(place_numbers(known@) =~= Seq::empty());
        Self::add_children(entry, entries, &mut known);
        assert(place_numbers(known@) =~= new_children(entry.hash@, entries@, Seq::empty(), 0));
        let mut at: usize = 0;
        while at < known.len() && at < entries.len()
            invariant
                whole == spread(entries@, place_numbers(known@), at as int),
                forall|j: int| 0 <= j < known@.len() ==> #[trigger] known@[j] < entries@.len(),
            decreases entries@.len() - at,
        {
            let place: usize = known[at];
            assert(place_numbers(known@)[at as int] == place);
            Self::add_children(&entries[place], entries, &mut known);
            at += 1;
        }
        assert(whole == place_numbers(known@));
        let mut stack: Vec<(i64, usize)> = Vec::new();
        let mut k: usize = 0;
        while k < known.len()
            invariant
                k <= known@.len(),
                stack@.len() == k,
                forall|j: int| 0 <= j < known@.len() ==> #[trigger] known@[j] < entries@.len(),
                forall|j: int|
                    0 <= j < k ==> (#[trigger] stack@[j]).1 == known@[j] && stack@[j].0
                        == entries@[known@[j] as int].clock.time,
            decreases known@.len() - k,
        {
            let place: usize = known[k];
            stack.push((entries[place].clock.time as i64, place));
            k += 1;
        }
        let ghost pairs = stack@;
        let sorted: Vec<(i64, usize)> = sorting::stable_sort(stack);
        let mut out: Vec<usize> = Vec::new();
        let mut n: usize = 0;
        while n < sorted.len()
            invariant
                n <= sorted@.len(),
                out@.len() == n,
                forall|j: int| 0 <= j < n ==> #[trigger] out@[j] == sorted@[j].1,
            decreases sorted@.len() - n,
        {
            out.push(sorted[n].1);
            n += 1;
        }
        proof {
            assert(whole =~= place_numbers(pairs.map_values(|p: (i64, usize)| p.1)));
            lemma_sorted_places(pairs, sorted@, entries@);
            assert(place_numbers(out@) =~= place_numbers(
                sorted@.map_values(|p: (i64, usize)| p.1),
            ));
        }
        out
    }
}

/// Places with their times stay so when they are sorted.
proof fn lemma_sorted_places(
    before: Seq<(i64, usize)>,
    after: Seq<(i64, usize)>,
    entries: Seq<Entry>,
)
    requires
        sorts_stably(before, after),
        forall|j: int|
            0 <= j < before.len() ==> (#[trigger] before[j]).1 < entries.len() && before[j].0
                == entries[before[j].1 as int].clock.time,
    ensures
        sorts_stably(
            timed(place_numbers(before.map_values(|p: (i64, usize)| p.1)), entries),
            timed(place_numbers(after.map_values(|p: (i64, usize)| p.1)), entries),
        ),
{
    let widen = |p: (i64, usize)| (p.0, p.1 as int);
    let a = before.map_values(widen);
    let b = after.map_values(widen);
    assert forall|j: int| 0 <= j < after.len() implies (#[trigger] after[j]).0
        == entries[after[j].1 as int].clock.time by {
        sorting::lemma_sorted_member(before, after, j);
    }
    assert(timed(place_numbers(before.map_values(|p: (i64, usize)| p.1)), entries) =~= a);
    assert(timed(place_numbers(after.map_values(|p: (i64, usize)| p.1)), entries) =~= b);
    assert forall|key: i64| #[trigger] sorting::with_key(b, key) == sorting::with_key(a, key) by {
        lemma_widened(before, key);
        lemma_widened(after, key);
        assert(sorting::with_key(after, key) == sorting::with_key(before, key));
    }
}

/// Widening the items of a key gives the items of that key, widened.
proof fn lemma_widened(s: Seq<(i64, usize)>, key: i64)
    ensures
        sorting::with_key(s.map_values(|p: (i64, usize)| (p.0, p.1 as int)), key)
            == sorting::with_key(s, key).map_values(|p: (i64, usize)| (p.0, p.1 as int)),
    decreases s.len(),
{
    let widen = |p: (i64, usize)| (p.0, p.1 as int);
    let w = s.map_values(widen);
    if s.len() > 0 {
        lemma_widened(s.drop_last(), key);
        assert(w.drop_last() =~= s.drop_last().map_values(widen));
        assert(w.last() == widen(s.last()));
        let front = sorting::with_key(s.drop_last(), key);
        assert(front.push(s.last()).map_values(widen) =~= front.map_values(widen).push(
            widen(s.last()),
        ));
    } else {
        assert(sorting::with_key(w, key) =~= sorting::with_key(s, key).map_values(widen));
    }
}

/// The new children of an entry are children that were not known, each once.
proof fn lemma_new_children(hash: Seq<u8>, entries: Seq<Entry>, known: Seq<int>, from: int)
    requires
        0 <= from,
    ensures
        forall|i: int| #[trigger]
            new_children(hash, entries, known, from).contains(i) <==> from <= i < entries.len()
                && has_parent(entries[i].next@, hash) && !known.contains(i),
        new_children(hash, entries, known, from).no_duplicates(),
    decreases entries.len() - from,
{
    let found = new_children(hash, entries, known, from);
    if from < entries.len() {
        lemma_new_children(hash, entries, known, from + 1);
        let rest = new_children(hash, entries, known, from + 1);
        if has_parent(entries[from].next@, hash) && !known.contains(from) {
            assert forall|i: int| #[trigger] found.contains(i) <==> from <= i < entries.len()
                && has_parent(entries[i].next@, hash) && !known.contains(i) by {
                assert(found[0] == from);
                if rest.contains(i) {
                    let k = choose|k: int| 0 <= k < rest.len() && rest[k] == i;
                    assert(found[k + 1] == i);
                }
                if found.contains(i) && i != from {
                    let k = choose|k: int| 0 <= k < found.len() && found[k] == i;
                    assert(rest[k - 1] == i);
                }
            }
            assert forall|j: int, k: int| 0 <= j < k < found.len() implies found[j] != found[k] by {
                assert(found[k] == rest[k - 1]);
                assert(rest.contains(found[k]));
                if j > 0 {
                    assert(found[j] == rest[j - 1]);
                }
            }
        }
    }
}

/// Whether places are those of children, each once.
spec fn places_children(hash: Seq<u8>, entries: Seq<Entry>, places: Seq<int>) -> bool {
    &&& places.no_duplicates()
    &&& forall|i: int| #[trigger]
        places.contains(i) ==> 0 <= i < entries.len() && exists|steps: nat|
            child_within(hash, entries, i, steps)
}

/// Distinct places of a sequence are no more than its items.
proof fn lemma_places_bounded(places: Seq<int>, n: nat)
    requires
        places.no_duplicates(),
        forall|i: int| #[trigger] places.contains(i) ==> 0 <= i < n,
    ensures
        places.len() <= n,
{
    places.unique_seq_to_set();
    let all = vstd::set_lib::set_int_range(0, n as int);
    vstd::set_lib::lemma_int_range(0, n as int);
    assert(places.to_set().subset_of(all)) by {
        assert forall|i: int| places.to_set().contains(i) implies all.contains(i) by {
            assert(places.contains(i));
        }
    }
    vstd::set_lib::lemma_len_subset(places.to_set(), all);
}

/// Known places and their new children are children, each once.
proof fn lemma_known_grows(hash: Seq<u8>, entries: Seq<Entry>, known: Seq<int>, parent: Seq<u8>)
    requires
        places_children(hash, entries, known),
        parent == hash || exists|j: int| #[trigger]
            known.contains(j) && parent == entries[j].hash@,
    ensures
        places_children(hash, entries, known + new_children(parent, entries, known, 0)),
{
    let fresh = new_children(parent, entries, known, 0);
    let all = known + fresh;
    lemma_new_children(parent, entries, known, 0);
    assert forall|j: int, k: int| 0 <= j < k < all.len() implies all[j] != all[k] by {
        if k >= known.len() {
            assert(fresh.contains(fresh[k - known.len()]));
            if j < known.len() {
                assert(known.contains(known[j]));
            }
        }
    }
    assert forall|i: int| #[trigger] all.contains(i) implies 0 <= i < entries.len()
        && exists|steps: nat| child_within(hash, entries, i, steps) by {
        let k = choose|k: int| 0 <= k < all.len() && all[k] == i;
        if k < known.len() {
            assert(known.contains(known[k]));
        } else {
            assert(fresh.contains(fresh[k - known.len()]));
            if parent == hash {
                assert(child_within(hash, entries, i, 1));
            } else {
                let j = choose|j: int| #[trigger]
                    known.contains(j) && parent == entries[j].hash@;
                let steps = choose|steps: nat| child_within(hash, entries, j, steps);
                assert(parent_at(entries, j, i));
                assert(child_within(hash, entries, i, steps + 1));
            }
        }
    }
}

/// Whether the children of an entry are all among known places.
spec fn knows_children(hash: Seq<u8>, entries: Seq<Entry>, known: Seq<int>) -> bool {
    forall|i: int|
        0 <= i < entries.len() && has_parent((#[trigger] entries[i]).next@, hash)
            ==> known.contains(i)
}

/// Spreading keeps what is known, and ends with the children of all that is known.
proof fn lemma_spread(hash: Seq<u8>, entries: Seq<Entry>, known: Seq<int>, at: int)
    requires
        places_children(hash, entries, known),
        0 <= at <= known.len(),
        forall|k: int| 0 <= k < at ==> knows_children(
            entries[#[trigger] known[k]].hash@,
            entries,
            known,
        ),
    ensures
        places_children(hash, entries, spread(entries, known, at)),
        forall|i: int| #[trigger]
            known.contains(i) ==> spread(entries, known, at).contains(i),
        forall|k: int|
            0 <= k < spread(entries, known, at).len() ==> knows_children(
                entries[#[trigger] spread(entries, known, at)[k]].hash@,
                entries,
                spread(entries, known, at),
            ),
    decreases entries.len() - at,
{
    lemma_places_bounded(known, entries.len());
    if at < known.len() {
        let parent = entries[known[at]].hash@;
        let fresh = new_children(parent, entries, known, 0);
        let more = known + fresh;
        assert(known.contains(known[at]));
        lemma_known_grows(hash, entries, known, parent);
        lemma_new_children(parent, entries, known, 0);
        assert forall|i: int| #[trigger] known.contains(i) implies more.contains(i) by {
            let k = choose|k: int| 0 <= k < known.len() && known[k] == i;
            assert(more[k] == i);
        }
        assert forall|k: int| 0 <= k < at + 1 implies knows_children(
            entries[#[trigger] more[k]].hash@,
            entries,
            more,
        ) by {
            assert(more[k] == known[k]);
            assert forall|i: int|
                0 <= i < entries.len() && has_parent(
                    (#[trigger] entries[i]).next@,
                    entries[known[k]].hash@,
                ) implies more.contains(i) by {
                if k == at && !known.contains(i) {
                    assert(fresh.contains(i));
                    let f = choose|f: int| 0 <= f < fresh.len() && fresh[f] == i;
                    assert(more[known.len() + f] == i);
                } else {
                    assert(known.contains(i));
                }
            }
        }
        lemma_spread(hash, entries, more, at + 1);
    }
}

/// A child within some generations is among places that know the children of
/// the entry and of each of their own.
proof fn lemma_child_is_known(
    hash: Seq<u8>,
    entries: Seq<Entry>,
    known: Seq<int>,
    i: int,
    steps: nat,
)
    requires
        knows_children(hash, entries, known),
        forall|k: int| 0 <= k < known.len() ==> knows_children(
            entries[#[trigger] known[k]].hash@,
            entries,
            known,
        ),
        child_within(hash, entries, i, steps),
    ensures
        known.contains(i),
    decreases steps,
{
    if !has_parent(entries[i].next@, hash) {
        let j = choose|j: int| #[trigger]
            parent_at(entries, j, i) && child_within(hash, entries, j, (steps - 1) as nat);
        lemma_child_is_known(hash, entries, known, j, (steps - 1) as nat);
        let k = choose|k: int| 0 <= k < known.len() && known[k] == j;
        assert(knows_children(entries[known[k]].hash@, entries, known));
    }
}

/// The children that are found are all direct and indirect children of an
/// entry, each once and nothing else.
pub proof fn lemma_children_are_all(hash: Seq<u8>, entries: Seq<Entry>, i: int)
    ensures
        children(hash, entries).no_duplicates(),
        children(hash, entries).contains(i) <==> exists|steps: nat|
            child_within(hash, entries, i, steps),
{
    let none = Seq::<int>::empty();
    let first = new_children(hash, entries, none, 0);
    lemma_new_children(hash, entries, none, 0);
    lemma_known_grows(hash, entries, none, hash);
    assert(none + first =~= first);
    lemma_spread(hash, entries, first, 0);
    let all = children(hash, entries);
    assert(knows_children(hash, entries, all)) by {
        assert forall|k: int|
            0 <= k < entries.len() && has_parent((#[trigger] entries[k]).next@, hash)
            implies all.contains(k) by {
            assert(!none.contains(k));
            assert(first.contains(k));
        }
    }
    if exists|steps: nat| child_within(hash, entries, i, steps) {
        let steps = choose|steps: nat| child_within(hash, entries, i, steps);
        lemma_child_is_known(hash, entries, all, i, steps);
    }
}

/// A relation as an ordering.
pub open spec fn ordering_of(relation: Relation) -> Ordering {
    match relation {
        Relation::Before => Ordering::Less,
        Relation::Same => Ordering::Equal,
        Relation::After => Ordering::Greater,
    }
}

/// A relation as an ordering.
fn to_ordering(relation: Relation) -> (r: Ordering)
    ensures
        r == ordering_of(relation),
{
    match relation {
        Relation::Before => Ordering::Less,
        Relation::Same => Ordering::Equal,
        Relation::After => Ordering::Greater,
    }
}

/// The order of entries by hash.
pub open spec fn hash_order(a: Entry, b: Entry) -> Ordering {
    ordering_of(bytes_relation(a.hash@, b.hash@))
}

/// The order of entries by clock, then by the identifier of the clock.
pub open spec fn clock_order(a: Entry, b: Entry) -> Ordering {
    match clock_relation(a.clock@, b.clock@) {
        Relation::Same => ordering_of(text_relation(a.clock@.id, b.clock@.id)),
        relation => ordering_of(relation),
    }
}

/// An order of entries that was found first, and where it holds them equal, the
/// order by the identifiers of their clocks, then by the clocks.
pub open spec fn step_by_step(first: Ordering, a: Entry, b: Entry) -> Ordering {
    match first {
        Ordering::Equal => match text_relation(a.clock@.id, b.clock@.id) {
            Relation::Same => ordering_of(clock_relation(a.clock@, b.clock@)),
            relation => ordering_of(relation),
        },
        order => order,
    }
}

/// Whether a result is that of an order by clock which leaves equal clocks to another.
pub open spec fn resolved_by_clocks<F: Fn(&Entry, &Entry) -> Ordering>(
    resolve: F,
    a: &Entry,
    b: &Entry,
    r: Ordering,
) -> bool {
    match clock_relation(a.clock@, b.clock@) {
        Relation::Same => call_ensures(resolve, (a, b), r),
        relation => r == ordering_of(relation),
    }
}

/// Whether a result is that of an order by clock identifier which leaves equal
/// ones to another.
pub open spec fn resolved_by_clock_ids<F: Fn(&Entry, &Entry) -> Ordering>(
    resolve: F,
    a: &Entry,
    b: &Entry,
    r: Ordering,
) -> bool {
    match text_relation(a.clock@.id, b.clock@.id) {
        Relation::Same => call_ensures(resolve, (a, b), r),
        relation => r == ordering_of(relation),
    }
}

impl Entry {
    /// Orders two entries by their clocks; entries with equal clocks as `resolve` does.
    pub fn sort_by_clocks<F: Fn(&Entry, &Entry) -> Ordering>(
        resolve: &F,
        a: &Entry,
        b: &Entry,
    ) -> (r: Ordering)
        requires
            call_requires(*resolve, (a, b)),
        ensures
            resolved_by_clocks(*resolve, a, b, r),
    {
        match a.clock.relate(&b.clock) {
            Relation::Same => resolve(a, b),
            Relation::Before => Ordering::Less,
            Relation::After => Ordering::Greater,
        }
    }

    /// Orders two entries by the identifiers of their clocks; entries with equal
    /// identifiers as `resolve` does.
    pub fn sort_by_clock_ids<F: Fn(&Entry, &Entry) -> Ordering>(
        resolve: &F,
        a: &Entry,
        b: &Entry,
    ) -> (r: Ordering)
        requires
            call_requires(*resolve, (a, b)),
        ensures
            resolved_by_clock_ids(*resolve, a, b, r),
    {
        match text::relate(a.clock.id(), b.clock.id()) {
            Relation::Same => resolve(a, b),
            Relation::Before => Ordering::Less,
            Relation::After => Ordering::Greater,
        }
    }

    /// Orders two entries as `resolve` does; those that it holds equal by the
    /// identifiers of their clocks, then by the clocks.
    pub fn sort_step_by_step<F: Fn(&Entry, &Entry) -> Ordering>(
        resolve: &F,
        a: &Entry,
        b: &Entry,
    ) -> (r: Ordering)
        requires
            call_requires(*resolve, (a, b)),
        ensures
            exists|order: Ordering| #[trigger]
                call_ensures(*resolve, (a, b), order) && r == step_by_step(order, *a, *b),
    {
        let order: Ordering = resolve(a, b);
        match order {
            Ordering::Equal => match text::relate(a.clock.id(), b.clock.id()) {
                Relation::Same => to_ordering(a.clock.relate(&b.clock)),
                relation => to_ordering(relation),
            },
            other => other,
        }
    }

    /// Orders two entries so that the one written later comes last; of two with
    /// equal clocks the first comes first.
    pub fn last_write_wins(a: &Entry, b: &Entry) -> (r: Ordering)
        ensures
            r == match clock_order(*a, *b) {
                Ordering::Equal => Ordering::Less,
                order => order,
            },
    {
        let resolve = |x: &Entry, y: &Entry| -> (o: Ordering)
            ensures
                o == match clock_order(*x, *y) {
                    Ordering::Equal => Ordering::Less,
                    order => order,
                },
            {
                match x.order(y) {
                    Ordering::Equal => Ordering::Less,
                    order => order,
                }
            };
        Self::sort_step_by_step(&resolve, a, b)
    }

    /// Orders two entries so that the one with the greater hash comes last; those
    /// with the same hash by the identifiers of their clocks, then by the clocks.
    pub fn sort_by_entry_hash(a: &Entry, b: &Entry) -> (r: Ordering)
        ensures
            r == step_by_step(hash_order(*a, *b), *a, *b),
    {
        let resolve = |x: &Entry, y: &Entry| -> (o: Ordering)
            ensures
                o == hash_order(*x, *y),
            { to_ordering(bytes::relate(&x.hash.bytes, &y.hash.bytes)) };
        Self::sort_step_by_step(&resolve, a, b)
    }

    /// Orders two entries as `sort_fn` does, and by hash where that holds them
    /// equal. Only entries with the same hash are equal.
    pub fn no_zeroes<F: Fn(&Entry, &Entry) -> Ordering>(
        sort_fn: &F,
        a: &Entry,
        b: &Entry,
    ) -> (r: Ordering)
        requires
            call_requires(*sort_fn, (a, b)),
        ensures
            a.hash@ == b.hash@ ==> r == Ordering::Equal,
            a.hash@ != b.hash@ ==> r != Ordering::Equal && exists|order: Ordering|
                #[trigger] call_ensures(*sort_fn, (a, b), order) && r == match order {
                    Ordering::Equal => hash_order(*a, *b),
                    other => other,
                },
    {
        if a.hash.same(&b.hash) {
            return Ordering::Equal;
        }
        let order: Ordering = sort_fn(a, b);
        match order {
            Ordering::Equal => to_ordering(bytes::relate(&a.hash.bytes, &b.hash.bytes)),
            other => other,
        }
    }

    /// Whether two entries are the same, which their hashes tell.
    pub fn same(&self, other: &Entry) -> (r: bool)
        ensures
            r == (self.hash@ == other.hash@),
    {
        self.hash.same(&other.hash)
    }

    /// Orders two entries by their clocks, then by the identifiers of these.
    pub fn order(&self, other: &Entry) -> (r: Ordering)
        ensures
            r == clock_order(*self, *other),
    {
        match self.clock.relate(&other.clock) {
            Relation::Same => to_ordering(text::relate(self.clock.id(), other.clock.id())),
            relation => to_ordering(relation),
        }
    }
}

/// The order by hashes, then by clocks, is total: of two entries one comes first,
/// or they have the same hash and equal clocks; and it is the same both ways round.
pub proof fn lemma_entry_order_total(a: Entry, b: Entry)
    ensures
        ({
            let ab = step_by_step(hash_order(a, b), a, b);
            let ba = step_by_step(hash_order(b, a), b, a);
            &&& ab == Ordering::Less <==> ba == Ordering::Greater
            &&& ab == Ordering::Equal <==> ba == Ordering::Equal
            &&& ab == Ordering::Equal <==> a.hash@ == b.hash@ && a.clock@ == b.clock@
        }),
{
    text::lemma_text_lt_total(a.clock@.id, b.clock@.id);
    bytes::lemma_bytes_lt_total(a.hash@, b.hash@);
    lemma_text_one_way(a.clock@.id, b.clock@.id);
}

/// Of two texts not both come first.
proof fn lemma_text_one_way(a: Seq<char>, b: Seq<char>)
    ensures
        !(text::text_lt(a, b) && text::text_lt(b, a)),
{
    if text::text_lt(a, b) && text::text_lt(b, a) {
        text::lemma_text_lt_transitive(a, b, a);
        text::lemma_text_lt_irreflexive(a);
    }
}

/// The identity of whoever wrote an entry that does not tell.
pub open spec fn unknown_identity() -> IdentityModel {
    IdentityModel {
        id: "unknown"@,
        pub_key: "unknown"@,
        id_signature: ""@,
        key_signature: ""@,
    }
}

impl LogEntry for Entry {
    open spec fn payload_bytes(&self) -> Seq<u8> {
        self.payload@
    }

    open spec fn writer(&self) -> IdentityModel {
        match self.identity {
            Some(identity) => identity@,
            None => unknown_identity(),
        }
    }

    fn get_payload(&self) -> (r: &[u8]) {
        self.payload.as_slice()
    }

    fn get_identity(&self) -> (r: Identity) {
        match &self.identity {
            Some(identity) => identity.clone(),
            None => Identity::new("unknown", "unknown", Signatures::new("", "")),
        }
    }
}

/// Hashes as texts of hexadecimal digits.
pub open spec fn hash_texts(v: Seq<ContentHash>) -> Seq<Value> {
    v.map_values(|h: ContentHash| Value::Text(hex_text(h@)))
}

/// The JSON object that an entry is stored as.
pub open spec fn stored_entries(entry: Entry) -> Seq<(Seq<char>, Value)> {
    let clock = with_entry(
        with_entry(Seq::empty(), "id"@, Value::Text(entry.clock@.id)),
        "time"@,
        Value::Number(NumberModel::Integer(entry.clock@.time)),
    );
    let base = with_entry(
        with_entry(
            with_entry(Seq::empty(), "hash"@, Value::Text("null"@)),
            "id"@,
            Value::Text(entry.id@),
        ),
        "payload"@,
        Value::Text(utf8_lossy(entry.payload@)),
    );
    with_entry(
        with_entry(
            with_entry(base, "next"@, Value::List(hash_texts(entry.next@))),
            "v"@,
            Value::Number(NumberModel::Integer(entry.v as int)),
        ),
        "clock"@,
        Value::Object(clock),
    )
}

/// Whether digits that are no hash are refused as they should: for what is no
/// hexadecimal, or for their length.
pub open spec fn refuses_stored_hash(s: Seq<char>, e: Error) -> bool {
    match hex_decoded(s) {
        None => exists|detail: Seq<char>|
            e matches Error::Other(m) && m@ == #[trigger] ("Failed to decode hash: "@ + detail),
        Some(_) => e matches Error::Other(m) && m@ == "Invalid hash length"@,
    }
}

impl Entry {
    /// The JSON value that the entry is stored as; its hash is not part of it.
    pub fn stored(&self) -> (r: Json)
        ensures
            r@ == Value::Object(stored_entries(*self)),
    {
        let mut next: Vec<Json> = Vec::new();
        let mut i: usize = 0;
        while i < self.next.len()
            invariant
                i <= self.next.len(),
                next@.len() == i,
                forall|j: int|
                    0 <= j < i ==> (#[trigger] next@[j])@ == Value::Text(
                        hex_text(self.next@[j]@),
                    ),
            decreases self.next.len() - i,
        {
            let digits: String = self.next[i].hash_to_string();
            next.push(Json::String(digits));
            i += 1;
        }
        assert(list_model(next@) =~= hash_texts(self.next@));
        let mut clock: JsonObject = JsonObject::new();
        clock.insert(text::owned("id"), Json::String(text::owned(self.clock.id())));
        clock.insert(
            text::owned("time"),
            Json::Number(Number::Signed(self.clock.time() as i64)),
        );
        let mut object: JsonObject = JsonObject::new();
        object.insert(text::owned("hash"), Json::String(text::owned("null")));
        object.insert(text::owned("id"), Json::String(self.id.clone()));
        object.insert(text::owned("payload"), Json::String(self.payload_str()));
        object.insert(text::owned("next"), Json::Array(next));
        object.insert(text::owned("v"), Json::Number(Number::Unsigned(self.v as u64)));
        object.insert(text::owned("clock"), Json::Object(clock));
        Json::Object(object)
    }

    /// The hash that a store answered with, as hexadecimal digits.
    pub fn stored_hash(s: &str) -> (r: Result<ContentHash, Error>)
        ensures
            match r {
                Ok(hash) => hex_decoded(s@) == Some(hash@),
                Err(e) => refuses_stored_hash(s@, e),
            },
            r is Ok <==> (hex_decoded(s@) is Some && hex_decoded(s@)->0.len() == 32),
    {
        let read: Vec<u8> = match hexadecimal::decode(s) {
            Ok(read) => read,
            Err(e) => {
                let detail: String = hexadecimal::describe(e);
                let message: String = text::join2("Failed to decode hash: ", detail.as_str());
                assert(message@ == "Failed to decode hash: "@ + detail@);
                return Err(Error::Other(message));
            },
        };
        match bytes::array32(read.as_slice()) {
            Some(bytes) => Ok(ContentHash { bytes }),
            None => Err(Error::Other(text::owned("Invalid hash length"))),
        }
    }
}

/// Fetching entries and all their parents, round by round: the hashes to be
/// fetched next and the entries that were fetched so far.
#[derive(Debug)]
pub struct Fetch {
    pub pending: Vec<ContentHash>,
    pub entries: Vec<Entry>,
}

/// The parents of the entries that a round brought, in order.
pub open spec fn parents_of(round: Seq<Option<Entry>>) -> Seq<ContentHash>
    decreases round.len(),
{
    if round.len() == 0 {
        Seq::empty()
    } else {
        match round.last() {
            Some(entry) => parents_of(round.drop_last()) + entry.next@,
            None => parents_of(round.drop_last()),
        }
    }
}

/// The entries that a round brought, in order.
pub open spec fn brought(round: Seq<Option<Entry>>) -> Seq<Entry>
    decreases round.len(),
{
    if round.len() == 0 {
        Seq::empty()
    } else {
        match round.last() {
            Some(entry) => brought(round.drop_last()).push(entry),
            None => brought(round.drop_last()),
        }
    }
}

impl Fetch {
    /// A fetch of the entries with the given hashes.
    pub fn new(hashes: Vec<ContentHash>) -> (r: Fetch)
        ensures
            r.pending == hashes,
            r.entries@.len() == 0,
    {
        Fetch { pending: hashes, entries: Vec::new() }
    }

    /// Whether nothing is left to be fetched.
    pub fn is_done(&self) -> (r: bool)
        ensures
            r == (self.pending@.len() == 0),
    {
        self.pending.len() == 0
    }

    /// Takes in what a round brought for each pending hash: entries are kept,
    /// their parents are fetched next, and what could not be fetched is left out.
    pub fn receive(&mut self, round: Vec<Option<Entry>>)
        ensures
            final(self).pending@ == parents_of(round@),
            final(self).entries@ == old(self).entries@ + brought(round@),
    {
        let ghost whole = round@;
        let ghost before = self.entries@;
        let mut next: Vec<ContentHash> = Vec::new();
        let mut left: Vec<Option<Entry>> = Vec::new();
        let mut rest: Vec<Option<Entry>> = round;
        while rest.len() > 0
            invariant
                rest@.len() + left@.len() == whole.len(),
                rest@ == whole.take(rest@.len() as int),
                forall|j: int|
                    0 <= j < left@.len() ==> #[trigger] left@[j] == whole[whole.len() - 1 - j],
            decreases rest@.len(),
        {
            let ghost n = rest@.len() as int;
            match rest.pop() {
                Some(item) => {
                    assert(item == whole[n - 1]);
                    left.push(item);
                },
                None => {},
            }
            assert(whole.take(n).drop_last() =~= whole.take(n - 1));
        }
        let ghost mut done: int = 0;
        assert(whole.take(0) =~= Seq::empty());
        assert(before + brought(whole.take(0)) =~= before);
        let mut entries: Vec<Entry> = Vec::new();
        std::mem::swap(&mut entries, &mut self.entries);
        while left.len() > 0
            invariant
                done + left@.len() == whole.len(),
                0 <= done,
                forall|j: int|
                    0 <= j < left@.len() ==> #[trigger] left@[j] == whole[whole.len() - 1 - j],
                next@ == parents_of(whole.take(done)),
                entries@ == before + brought(whole.take(done)),
            decreases left@.len(),
        {
            let ghost taken = whole.take(done + 1);
            assert(taken.drop_last() =~= whole.take(done));
            match left.pop() {
                Some(item) => {
                    assert(item == whole[done]);
                    match item {
                        Some(entry) => {
                            let mut k: usize = 0;
                            let ghost start = next@;
                            assert(entry.next@.take(0) =~= Seq::empty());
                            while k < entry.next.len()
                                invariant
                                    k <= entry.next@.len(),
                                    next@ == start + entry.next@.take(k as int),
                                decreases entry.next@.len() - k,
                            {
                                next.push(entry.next[k]);
                                k += 1;
                                assert(entry.next@.take(k as int) =~= entry.next@.take(
                                    k - 1,
                                ).push(entry.next@[k - 1]));
                            }
                            assert(entry.next@.take(k as int) =~= entry.next@);
                            let ghost had = entries@;
                            entries.push(entry);
                            assert(had.push(entry) =~= before + brought(
                                whole.take(done),
                            ).push(entry));
                        },
                        None => {},
                    }
                },
                None => {},
            }
            proof {
                done = done + 1;
            }
        }
        assert(whole.take(done) =~= whole);
        self.pending = next;
        self.entries = entries;
    }
}

} // verus!
