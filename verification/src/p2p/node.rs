//! Nodes: their public keys, and lists of them.
use crate::bytes;
use crate::bytes::bytes_lt;
use crate::hexadecimal;
use crate::hexadecimal::{hex_text, short_text};
use crate::idmap::id_views;
use crate::text::Relation;
use vstd::prelude::*;

verus! {

/// A node, by its public key.
#[derive(Clone, Copy, Debug)]
pub struct NodeId {
    pub bytes: [u8; 32],
}

impl View for NodeId {
    type V = Seq<u8>;

    open spec fn view(&self) -> Seq<u8> {
        self.bytes@
    }
}

impl NodeId {
    /// The bytes of the public key.
    pub fn as_bytes(&self) -> (r: &[u8; 32])
        ensures
            r@ == self@,
    {
        &self.bytes
    }

    /// Whether two nodes are the same.
    pub fn same(&self, other: &NodeId) -> (r: bool)
        ensures
            r == (self@ == other@),
    {
        bytes::same_bytes(&self.bytes, &other.bytes)
    }

    /// Whether the bytes of this node come before those of another.
    pub fn is_below(&self, other: &NodeId) -> (r: bool)
        ensures
            r == bytes_lt(self@, other@),
    {
        proof {
            bytes::lemma_bytes_lt_total(self@, other@);
        }
        match bytes::relate(&self.bytes, &other.bytes) {
            Relation::Before => true,
            _ => false,
        }
    }

    /// The node as hexadecimal digits.
    pub fn render(&self) -> (r: String)
        ensures
            r@ == hex_text(self@),
    {
        hexadecimal::encode(&self.bytes)
    }

    /// The first five bytes of the node as hexadecimal digits.
    pub fn fmt_short(&self) -> (r: String)
        ensures
            r@ == short_text(self@),
    {
        hexadecimal::short(&self.bytes)
    }
}

/// The bytes of nodes.
pub open spec fn keys(v: Seq<NodeId>) -> Seq<Seq<u8>> {
    v.map_values(|n: NodeId| n@)
}

/// Keys with one added at the end, unless it is there.
pub open spec fn added(v: Seq<Seq<u8>>, key: Seq<u8>) -> Seq<Seq<u8>> {
    if v.contains(key) {
        v
    } else {
        v.push(key)
    }
}

/// Keys with others added one after another, each unless it is there.
pub open spec fn all_added(v: Seq<Seq<u8>>, more: Seq<Seq<u8>>) -> Seq<Seq<u8>>
    decreases more.len(),
{
    if more.len() == 0 {
        v
    } else {
        added(all_added(v, more.drop_last()), more.last())
    }
}

/// Keys without one.
pub open spec fn removed(v: Seq<Seq<u8>>, key: Seq<u8>) -> Seq<Seq<u8>>
    decreases v.len(),
{
    if v.len() == 0 {
        v
    } else if v.last() == key {
        removed(v.drop_last(), key)
    } else {
        removed(v.drop_last(), key).push(v.last())
    }
}

/// Whether a node is in a list.
pub fn contains(v: &Vec<NodeId>, node: &NodeId) -> (r: bool)
    ensures
        r == keys(v@).contains(node@),
{
    let mut i: usize = 0;
    while i < v.len()
        invariant
            i <= v.len(),
            forall|j: int| 0 <= j < i ==> #[trigger] keys(v@)[j] != node@,
        decreases v.len() - i,
    {
        assert(keys(v@)[i as int] == v@[i as int]@);
        if v[i].same(node) {
            return true;
        }
        i += 1;
    }
    false
}

/// Adds a node at the end of a list, unless it is there.
pub fn add(v: &mut Vec<NodeId>, node: &NodeId)
    ensures
        keys(final(v)@) == added(keys(old(v)@), node@),
{
    if !contains(v, node) {
        let ghost before = keys(v@);
        v.push(*node);
        assert(keys(v@) =~= before.push(node@));
    }
}

/// Adds nodes at the end of a list, each unless it is there.
pub fn add_all(v: &mut Vec<NodeId>, more: &Vec<NodeId>)
    ensures
        keys(final(v)@) == all_added(keys(old(v)@), keys(more@)),
{
    let ghost before = keys(v@);
    let mut i: usize = 0;
    assert(keys(more@).take(0) =~= Seq::empty());
    while i < more.len()
        invariant
            i <= more.len(),
            before == keys(old(v)@),
            keys(v@) == all_added(before, keys(more@).take(i as int)),
        decreases more.len() - i,
    {
        let ghost taken = keys(more@).take(i + 1);
        assert(taken.drop_last() =~= keys(more@).take(i as int));
        assert(taken.last() == more@[i as int]@);
        self::add(v, &more[i]);
        i += 1;
    }
    assert(keys(more@).take(i as int) =~= keys(more@));
}

/// Removes a node from a list.
pub fn remove(v: &mut Vec<NodeId>, node: &NodeId)
    ensures
        keys(final(v)@) == removed(keys(old(v)@), node@),
{
    let ghost whole = keys(v@);
    let mut out: Vec<NodeId> = Vec::new();
    let mut i: usize = 0;
    assert(keys(out@) =~= Seq::empty());
    assert(whole.take(0) =~= Seq::empty());
    while i < v.len()
        invariant
            i <= v.len(),
            v@ == old(v)@,
            whole == keys(v@),
            keys(out@) == removed(whole.take(i as int), node@),
        decreases v.len() - i,
    {
        let ghost taken = whole.take(i + 1);
        let ghost before = keys(out@);
        assert(taken.drop_last() =~= whole.take(i as int));
        assert(taken.last() == v@[i as int]@);
        if !v[i].same(node) {
            out.push(v[i]);
            assert(keys(out@) =~= before.push(v@[i as int]@));
        }
        i += 1;
    }
    assert(whole.take(i as int) =~= whole);
    *v = out;
}

/// A copy of a list.
pub fn copy(v: &Vec<NodeId>) -> (r: Vec<NodeId>)
    ensures
        r@ == v@,
{
    let mut out: Vec<NodeId> = Vec::new();
    let mut i: usize = 0;
    while i < v.len()
        invariant
            i <= v.len(),
            out@ == v@.take(i as int),
        decreases v.len() - i,
    {
        out.push(v[i]);
        i += 1;
        assert(v@.take(i as int) =~= v@.take(i - 1).push(v@[i - 1]));
    }
    assert(v@.take(i as int) =~= v@);
    out
}

/// Whether every node of a list is in another.
pub fn all_in(v: &Vec<NodeId>, others: &Vec<NodeId>) -> (r: bool)
    ensures
        r == (forall|i: int|
            0 <= i < v@.len() ==> keys(others@).contains(#[trigger] keys(v@)[i])),
{
    let mut i: usize = 0;
    while i < v.len()
        invariant
            i <= v.len(),
            forall|j: int| 0 <= j < i ==> keys(others@).contains(#[trigger] keys(v@)[j]),
        decreases v.len() - i,
    {
        assert(keys(v@)[i as int] == v@[i as int]@);
        if !contains(others, &v[i]) {
            return false;
        }
        i += 1;
    }
    true
}

/// A key that was removed is gone, and every other key as before.
pub proof fn lemma_removed(v: Seq<Seq<u8>>, key: Seq<u8>, other: Seq<u8>)
    ensures
        removed(v, key).contains(other) <==> v.contains(other) && other != key,
    decreases v.len(),
{
    if v.len() > 0 {
        let front = v.drop_last();
        lemma_removed(front, key, other);
        assert(v =~= front.push(v.last()));
        lemma_contains_push(front, v.last(), other);
        lemma_contains_push(removed(front, key), v.last(), other);
    }
}

/// What a sequence holds once something was added at its end.
proof fn lemma_contains_push(v: Seq<Seq<u8>>, key: Seq<u8>, other: Seq<u8>)
    ensures
        v.push(key).contains(other) <==> v.contains(other) || other == key,
{
    if v.contains(other) {
        let i = choose|i: int| 0 <= i < v.len() && v[i] == other;
        assert(v.push(key)[i] == other);
    }
    if other == key {
        assert(v.push(key)[v.len() as int] == other);
    }
    if v.push(key).contains(other) {
        let i = choose|i: int| 0 <= i < v.len() + 1 && v.push(key)[i] == other;
        if i < v.len() {
            assert(v[i] == other);
        }
    }
}

/// Whether no key occurs twice.
pub open spec fn distinct(v: Seq<Seq<u8>>) -> bool {
    forall|i: int, j: int| 0 <= i < j < v.len() ==> #[trigger] v[i] != #[trigger] v[j]
}

/// Adding and removing keep keys distinct.
pub proof fn lemma_distinct(v: Seq<Seq<u8>>, key: Seq<u8>)
    requires
        distinct(v),
    ensures
        distinct(added(v, key)),
        distinct(removed(v, key)),
    decreases v.len(),
{
    if !v.contains(key) {
        let after = v.push(key);
        assert forall|i: int, j: int| 0 <= i < j < after.len() implies #[trigger] after[i]
            != #[trigger] after[j] by {
            if j == v.len() {
                assert(v.contains(v[i]));
            }
        }
    }
    if v.len() > 0 {
        let front = v.drop_last();
        lemma_distinct(front, key);
        if v.last() != key {
            let inner = removed(front, key);
            let after = inner.push(v.last());
            assert forall|i: int, j: int| 0 <= i < j < after.len() implies #[trigger] after[i]
                != #[trigger] after[j] by {
                if j == inner.len() {
                    assert(inner.contains(inner[i]));
                    lemma_removed(front, key, inner[i]);
                    let k = choose|k: int| 0 <= k < front.len() && front[k] == inner[i];
                    assert(v[k] == front[k]);
                }
            }
        }
    }
}

/// Adding many keeps keys distinct.
pub proof fn lemma_all_added_distinct(v: Seq<Seq<u8>>, more: Seq<Seq<u8>>)
    requires
        distinct(v),
    ensures
        distinct(all_added(v, more)),
    decreases more.len(),
{
    if more.len() > 0 {
        lemma_all_added_distinct(v, more.drop_last());
        lemma_distinct(all_added(v, more.drop_last()), more.last());
    }
}

/// The nodes of identifiers.
pub fn of_ids(ids: &Vec<[u8; 32]>) -> (r: Vec<NodeId>)
    ensures
        keys(r@) == id_views(ids@),
{
    let mut out: Vec<NodeId> = Vec::new();
    let mut i: usize = 0;
    while i < ids.len()
        invariant
            i <= ids.len(),
            out@.len() == i,
            forall|j: int| 0 <= j < i ==> (#[trigger] out@[j])@ == ids@[j]@,
        decreases ids.len() - i,
    {
        out.push(NodeId { bytes: ids[i] });
        i += 1;
    }
    assert(keys(out@) =~= id_views(ids@));
    out
}

} // verus!
