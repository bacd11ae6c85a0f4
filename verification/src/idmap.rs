//! Values by identifier: a map from 32 bytes, such as the key of a node, the
//! identifier of a topic or a digest.
use crate::bytes;
use vstd::prelude::*;

verus! {

/// A map from identifiers. No identifier occurs twice.
#[derive(Debug)]
pub struct IdMap<V> {
    entries: Vec<([u8; 32], V)>,
}

/// The identifiers of entries.
spec fn ids_of<V>(entries: Seq<([u8; 32], V)>) -> Seq<Seq<u8>> {
    entries.map_values(|e: ([u8; 32], V)| e.0@)
}

/// The map that entries make.
spec fn map_of<V>(entries: Seq<([u8; 32], V)>) -> Map<Seq<u8>, V> {
    Map::new(
        |k: Seq<u8>| ids_of(entries).contains(k),
        |k: Seq<u8>| entries[ids_of(entries).index_of(k)].1,
    )
}

/// Where an identifier stands, its value is the one of the map.
proof fn lemma_map_of<V>(entries: Seq<([u8; 32], V)>, i: int)
    requires
        ids_of(entries).no_duplicates(),
        0 <= i < entries.len(),
    ensures
        map_of(entries).dom().contains(entries[i].0@),
        map_of(entries)[entries[i].0@] == entries[i].1,
{
    let ids = ids_of(entries);
    assert(ids[i] == entries[i].0@);
    assert(ids.contains(entries[i].0@));
    let j = ids.index_of(entries[i].0@);
    assert(ids[j] == ids[i]);
}

impl<V> View for IdMap<V> {
    type V = Map<Seq<u8>, V>;

    closed spec fn view(&self) -> Map<Seq<u8>, V> {
        map_of(self.entries@)
    }
}

impl<V> IdMap<V> {
    #[verifier::type_invariant]
    spec fn each_once(self) -> bool {
        ids_of(self.entries@).no_duplicates()
    }

    /// The identifiers, in the order in which they are walked.
    pub closed spec fn ids(self) -> Seq<Seq<u8>> {
        ids_of(self.entries@)
    }

    /// A map without entries.
    pub fn new() -> (r: IdMap<V>)
        ensures
            r@ == Map::<Seq<u8>, V>::empty(),
    {
        let r = IdMap { entries: Vec::new() };
        assert(r@ =~= Map::<Seq<u8>, V>::empty());
        r
    }

    /// The number of entries.
    pub fn len(&self) -> (r: usize)
        ensures
            r == self@.len(),
            r == self.ids().len(),
            self@.dom().finite(),
            self.ids().no_duplicates(),
            forall|k: Seq<u8>| #[trigger] self@.dom().contains(k) <==> self.ids().contains(k),
    {
        proof {
            use_type_invariant(self);
            self.ids().unique_seq_to_set();
            assert(self.ids().to_set() =~= self@.dom());
            vstd::seq_lib::seq_to_set_is_finite(self.ids());
        }
        self.entries.len()
    }

    /// The identifier at a place of the walk.
    pub fn id_at(&self, i: usize) -> (r: [u8; 32])
        requires
            i < self.ids().len(),
        ensures
            r@ == self.ids()[i as int],
            self@.dom().contains(r@),
    {
        proof {
            use_type_invariant(self);
            lemma_map_of(self.entries@, i as int);
        }
        self.entries[i].0
    }

    /// The value at a place of the walk.
    pub fn value_at(&self, i: usize) -> (r: &V)
        requires
            i < self.ids().len(),
        ensures
            self@.dom().contains(self.ids()[i as int]),
            *r == self@[self.ids()[i as int]],
    {
        proof {
            use_type_invariant(self);
            lemma_map_of(self.entries@, i as int);
        }
        &self.entries[i].1
    }

    /// Where an identifier stands.
    fn position(&self, id: &[u8; 32]) -> (r: Option<usize>)
        ensures
            match r {
                Some(i) => i < self.entries@.len() && self.entries@[i as int].0@ == id@,
                None => !self.ids().contains(id@),
            },
    {
        let mut i: usize = 0;
        while i < self.entries.len()
            invariant
                i <= self.entries.len(),
                forall|j: int| 0 <= j < i ==> #[trigger] self.ids()[j] != id@,
            decreases self.entries.len() - i,
        {
            if bytes::same_bytes(&self.entries[i].0, id) {
                return Some(i);
            }
            i += 1;
        }
        None
    }

    /// The value of an identifier.
    pub fn get(&self, id: &[u8; 32]) -> (r: Option<&V>)
        ensures
            r == if self@.dom().contains(id@) {
                Some(&self@[id@])
            } else {
                None
            },
    {
        match self.position(id) {
            Some(i) => {
                proof {
                    use_type_invariant(self);
                    lemma_map_of(self.entries@, i as int);
                }
                Some(&self.entries[i].1)
            },
            None => None,
        }
    }

    /// Whether an identifier has a value.
    pub fn contains(&self, id: &[u8; 32]) -> (r: bool)
        ensures
            r == self@.dom().contains(id@),
    {
        self.get(id).is_some()
    }

    /// Removes an identifier and gives back its value.
    pub fn remove(&mut self, id: &[u8; 32]) -> (r: Option<V>)
        ensures
            final(self)@ == old(self)@.remove(id@),
            r == if old(self)@.dom().contains(id@) {
                Some(old(self)@[id@])
            } else {
                None
            },
    {
        match self.position(id) {
            None => {
                assert(self@ =~= self@.remove(id@));
                None
            },
            Some(i) => {
                let ghost before = self.entries@;
                proof {
                    use_type_invariant(&*self);
                    lemma_map_of(before, i as int);
                }
                let mut entries: Vec<([u8; 32], V)> = Vec::new();
                std::mem::swap(&mut entries, &mut self.entries);
                let (_, value) = entries.remove(i);
                proof {
                    lemma_remove(before, i as int);
                    assert(entries@ =~= before.remove(i as int));
                }
                self.entries = entries;
                Some(value)
            },
        }
    }

    /// Sets the value of an identifier.
    pub fn insert(&mut self, id: [u8; 32], value: V)
        ensures
            final(self)@ == old(self)@.insert(id@, value),
    {
        let _ = self.remove(&id);
        let ghost before = self.entries@;
        proof {
            use_type_invariant(&*self);
            assert(!self@.dom().contains(id@));
            lemma_insert(before, id, value);
        }
        let mut entries: Vec<([u8; 32], V)> = Vec::new();
        std::mem::swap(&mut entries, &mut self.entries);
        entries.push((id, value));
        self.entries = entries;
        assert(self@ =~= old(self)@.insert(id@, value));
    }
}

impl<V> IdMap<V> {
    /// The identifiers whose values are chosen for a property, along the walk.
    pub(crate) fn listed<F: Fn(&V) -> bool>(
        &self,
        chosen: F,
        Ghost(keep): Ghost<spec_fn(V) -> bool>,
    ) -> (r: Vec<[u8; 32]>)
        requires
            forall|v: &V| call_requires(chosen, (v,)),
            forall|v: &V, b: bool| #[trigger] call_ensures(chosen, (v,), b) ==> b == keep(*v),
        ensures
            lists(id_views(r@), self@, keep),
    {
        let total: usize = self.len();
        let mut out: Vec<[u8; 32]> = Vec::new();
        let mut i: usize = 0;
        while i < total
            invariant
                i <= total,
                total == self.ids().len(),
                self.ids().no_duplicates(),
                forall|v: &V| call_requires(chosen, (v,)),
                forall|v: &V, b: bool| #[trigger] call_ensures(chosen, (v,), b) ==> b == keep(*v),
                id_views(out@).no_duplicates(),
                forall|k: Seq<u8>|
                    #![trigger id_views(out@).contains(k)]
                    id_views(out@).contains(k) <==> (exists|j: int|
                        0 <= j < i && self.ids()[j] == k && keep(self@[k])),
            decreases total - i,
        {
            let ghost before = id_views(out@);
            let ghost key = self.ids()[i as int];
            if chosen(self.value_at(i)) {
                let id: [u8; 32] = self.id_at(i);
                out.push(id);
                proof {
                    let now = id_views(out@);
                    assert(now =~= before.push(key));
                    assert(!before.contains(key));
                    assert forall|k: Seq<u8>| #[trigger] now.contains(k) implies before.contains(k)
                        || k == key by {
                        let a = now.index_of(k);
                        if a < before.len() {
                            assert(before[a] == k);
                        }
                    }
                    assert forall|k: Seq<u8>| #[trigger] before.contains(k) implies now.contains(
                        k,
                    ) by {
                        assert(now[before.index_of(k)] == k);
                    }
                    assert(now[before.len() as int] == key);
                    assert forall|a: int, b: int|
                        0 <= a < now.len() && 0 <= b < now.len() && a != b implies now[a]
                        != now[b] by {
                        if a == before.len() {
                            assert(before.contains(before[b]));
                        } else if b == before.len() {
                            assert(before.contains(before[a]));
                        }
                    }
                    assert forall|k: Seq<u8>| #[trigger] now.contains(k) <==> (exists|j: int|
                        0 <= j < i + 1 && self.ids()[j] == k && keep(self@[k])) by {
                        if before.contains(k) {
                            let j = choose|j: int| 0 <= j < i && self.ids()[j] == k && keep(self@[k]);
                            assert(0 <= j < i + 1 && self.ids()[j] == k);
                        }
                    }
                }
            }
            i += 1;
        }
        proof {
            assert forall|k: Seq<u8>| #[trigger] id_views(out@).contains(k) <==> (
            self@.dom().contains(k) && keep(self@[k])) by {
                if self@.dom().contains(k) && keep(self@[k]) {
                    let j = self.ids().index_of(k);
                    assert(self.ids()[j] == k);
                }
            }
        }
        out
    }

    /// Removes identifiers.
    pub(crate) fn remove_all(&mut self, gone: &Vec<[u8; 32]>)
        ensures
            final(self)@ == old(self)@.remove_keys(id_views(gone@).to_set()),
    {
        let ghost before = self@;
        let mut i: usize = 0;
        assert(before =~= before.remove_keys(id_views(gone@).take(0).to_set()));
        while i < gone.len()
            invariant
                i <= gone.len(),
                self@ == before.remove_keys(id_views(gone@).take(i as int).to_set()),
            decreases gone.len() - i,
        {
            let _ = self.remove(&gone[i]);
            proof {
                let taken = id_views(gone@).take(i + 1);
                let had = id_views(gone@).take(i as int);
                assert(taken =~= had.push(gone@[i as int]@));
                had.lemma_push_to_set_commute(gone@[i as int]@);
                assert(self@ =~= before.remove_keys(taken.to_set()));
            }
            i += 1;
        }
        assert(id_views(gone@).take(i as int) =~= id_views(gone@));
    }
}

/// Identifiers by their bytes.
pub open spec fn id_views(v: Seq<[u8; 32]>) -> Seq<Seq<u8>> {
    v.map_values(|b: [u8; 32]| b@)
}

/// Whether identifiers are those of the values that have a property, each once.
pub open spec fn lists<V>(
    listed: Seq<Seq<u8>>,
    map: Map<Seq<u8>, V>,
    keep: spec_fn(V) -> bool,
) -> bool {
    &&& listed.no_duplicates()
    &&& forall|k: Seq<u8>|
        #[trigger] listed.contains(k) <==> map.dom().contains(k) && keep(map[k])
}

/// What removing an entry does to the map.
proof fn lemma_remove<V>(entries: Seq<([u8; 32], V)>, i: int)
    requires
        ids_of(entries).no_duplicates(),
        0 <= i < entries.len(),
    ensures
        ids_of(entries.remove(i)).no_duplicates(),
        map_of(entries.remove(i)) == map_of(entries).remove(entries[i].0@),
{
    let after = entries.remove(i);
    let ids = ids_of(entries);
    let left = ids_of(after);
    assert forall|a: int, b: int| 0 <= a < left.len() && 0 <= b < left.len() && a != b implies left[a]
        != left[b] by {
        let c = if a < i { a } else { a + 1 };
        let d = if b < i { b } else { b + 1 };
        assert(left[a] == ids[c] && left[b] == ids[d]);
    }
    let key = entries[i].0@;
    assert(ids[i] == key);
    assert forall|k: Seq<u8>| left.contains(k) == (ids.contains(k) && k != key) by {
        if left.contains(k) {
            let a = left.index_of(k);
            let c = if a < i { a } else { a + 1 };
            assert(ids[c] == left[a]);
        }
        if ids.contains(k) && k != key {
            let c = ids.index_of(k);
            let a = if c < i { c } else { c - 1 };
            assert(left[a] == ids[c]);
        }
    }
    assert forall|k: Seq<u8>| left.contains(k) implies map_of(after)[k] == map_of(entries)[k] by {
        let a = left.index_of(k);
        let c = if a < i { a } else { a + 1 };
        lemma_map_of(after, a);
        lemma_map_of(entries, c);
        assert(after[a] == entries[c]);
        assert(left[a] == after[a].0@);
    }
    assert(map_of(after) =~= map_of(entries).remove(key));
}

/// What adding an entry does to the map.
proof fn lemma_insert<V>(entries: Seq<([u8; 32], V)>, id: [u8; 32], value: V)
    requires
        ids_of(entries).no_duplicates(),
        !ids_of(entries).contains(id@),
    ensures
        ids_of(entries.push((id, value))).no_duplicates(),
        map_of(entries.push((id, value))) == map_of(entries).insert(id@, value),
{
    let after = entries.push((id, value));
    let ids = ids_of(entries);
    let more = ids_of(after);
    assert(more =~= ids.push(id@));
    assert forall|a: int, b: int| 0 <= a < more.len() && 0 <= b < more.len() && a != b implies more[a]
        != more[b] by {
        if a == ids.len() {
            assert(ids.contains(ids[b]));
        } else if b == ids.len() {
            assert(ids.contains(ids[a]));
        }
    }
    assert forall|k: Seq<u8>| more.contains(k) == (ids.contains(k) || k == id@) by {
        if more.contains(k) {
            let a = more.index_of(k);
            if a < ids.len() {
                assert(ids[a] == k);
            }
        }
        if ids.contains(k) {
            assert(more[ids.index_of(k)] == k);
        }
        assert(more[ids.len() as int] == id@);
    }
    assert forall|k: Seq<u8>| more.contains(k) implies map_of(after)[k] == map_of(entries).insert(
        id@,
        value,
    )[k] by {
        let a = more.index_of(k);
        lemma_map_of(after, a);
        assert(more[a] == after[a].0@);
        if a < ids.len() {
            lemma_map_of(entries, a);
            assert(after[a] == entries[a]);
            assert(ids[a] == k);
        }
    }
    assert(map_of(after) =~= map_of(entries).insert(id@, value));
}

} // verus!
