//! Stable sorting by an integer key.
use vstd::prelude::*;

verus! {

/// Whether the keys do not decrease.
pub open spec fn keys_ascend<T>(s: Seq<(i64, T)>) -> bool {
    forall|i: int, j: int| 0 <= i <= j < s.len() ==> (#[trigger] s[i]).0 <= (#[trigger] s[j]).0
}

/// The items with a key, in order.
pub open spec fn with_key<T>(s: Seq<(i64, T)>, key: i64) -> Seq<(i64, T)>
    decreases s.len(),
{
    if s.len() == 0 {
        s
    } else {
        let before = with_key(s.drop_last(), key);
        if s.last().0 == key {
            before.push(s.last())
        } else {
            before
        }
    }
}

/// Whether `after` is `before` sorted stably: its keys ascend, and for each key
/// it holds the same items in the same order.
pub open spec fn sorts_stably<T>(before: Seq<(i64, T)>, after: Seq<(i64, T)>) -> bool {
    &&& keys_ascend(after)
    &&& after.len() == before.len()
    &&& forall|key: i64| #[trigger] with_key(after, key) == with_key(before, key)
}

/// Inserting an item after those of its key adds it last among them.
proof fn lemma_with_key_insert<T>(s: Seq<(i64, T)>, at: int, x: (i64, T), key: i64)
    requires
        0 <= at <= s.len(),
        forall|j: int| at <= j < s.len() ==> (#[trigger] s[j]).0 != x.0,
    ensures
        with_key(s.insert(at, x), key) == if x.0 == key {
            with_key(s, key).push(x)
        } else {
            with_key(s, key)
        },
    decreases s.len(),
{
    let after = s.insert(at, x);
    if at == s.len() {
        assert(after.drop_last() =~= s);
    } else {
        let front = s.drop_last();
        assert(after.drop_last() =~= front.insert(at, x));
        assert(after.last() == s.last());
        assert forall|j: int| at <= j < front.len() implies (#[trigger] front[j]).0 != x.0 by {
            assert(front[j] == s[j]);
        }
        lemma_with_key_insert(front, at, x, key);
    }
}

/// Sorts items by their keys, in ascending order; items of one key stay in order.
pub fn stable_sort<T>(items: Vec<(i64, T)>) -> (r: Vec<(i64, T)>)
    ensures
        sorts_stably(items@, r@),
{
    let ghost whole = items@;
    let mut rest: Vec<(i64, T)> = items;
    let mut reversed: Vec<(i64, T)> = Vec::new();
    while rest.len() > 0
        invariant
            rest@.len() + reversed@.len() == whole.len(),
            rest@ == whole.take(rest@.len() as int),
            forall|j: int|
                0 <= j < reversed@.len() ==> #[trigger] reversed@[j] == whole[whole.len() - 1 - j],
        decreases rest@.len(),
    {
        let ghost n = rest@.len() as int;
        match rest.pop() {
            Some(item) => {
                assert(item == whole[n - 1]);
                reversed.push(item);
            },
            None => {},
        }
        assert(whole.take(n).drop_last() =~= whole.take(n - 1));
    }
    let mut sorted: Vec<(i64, T)> = Vec::new();
    assert(whole.take(0) =~= sorted@);
    while reversed.len() > 0
        invariant
            sorted@.len() + reversed@.len() == whole.len(),
            forall|j: int|
                0 <= j < reversed@.len() ==> #[trigger] reversed@[j] == whole[whole.len() - 1 - j],
            sorts_stably(whole.take(sorted@.len() as int), sorted@),
        decreases reversed@.len(),
    {
        let ghost k = sorted@.len() as int;
        let ghost left = reversed@.len() as int;
        match reversed.pop() {
            Some(item) => {
                assert(item == whole[k]);
                let mut at: usize = sorted.len();
                while at > 0 && sorted[at - 1].0 > item.0
                    invariant
                        at <= sorted@.len(),
                        forall|j: int| at <= j < sorted@.len() ==> (#[trigger] sorted@[j]).0 > item.0,
                    decreases at,
                {
                    at -= 1;
                }
                let ghost before = sorted@;
                sorted.insert(at, item);
                proof {
                    assert(keys_ascend(sorted@)) by {
                        assert forall|i: int, j: int| 0 <= i <= j < sorted@.len() implies (
                        #[trigger] sorted@[i]).0 <= (#[trigger] sorted@[j]).0 by {
                            let p = if i < at { i } else { i - 1 };
                            let q = if j < at { j } else { j - 1 };
                            if i != at {
                                assert(sorted@[i] == before[p]);
                            }
                            if j != at {
                                assert(sorted@[j] == before[q]);
                            }
                            if i < at && j == at {
                                assert(before[i].0 <= before[at - 1].0);
                            }
                        }
                    }
                    let taken = whole.take(k + 1);
                    assert(taken.drop_last() =~= whole.take(k));
                    assert(taken.last() == item);
                    assert forall|key: i64| #[trigger] with_key(sorted@, key) == with_key(
                        taken,
                        key,
                    ) by {
                        lemma_with_key_insert(before, at as int, item, key);
                        assert(with_key(before, key) == with_key(whole.take(k), key));
                    }
                }
            },
            None => {},
        }
    }
    assert(whole.take(sorted@.len() as int) =~= whole);
    sorted
}

/// Two stable sorts of the same items are the same.
pub proof fn lemma_stable_sort_unique<T>(
    before: Seq<(i64, T)>,
    a: Seq<(i64, T)>,
    b: Seq<(i64, T)>,
)
    requires
        sorts_stably(before, a),
        sorts_stably(before, b),
    ensures
        a == b,
    decreases a.len(),
{
    lemma_same_groups(a, b);
}

/// Ascending sequences with the same items for each key are the same.
proof fn lemma_same_groups<T>(a: Seq<(i64, T)>, b: Seq<(i64, T)>)
    requires
        keys_ascend(a),
        keys_ascend(b),
        a.len() == b.len(),
        forall|key: i64| #[trigger] with_key(a, key) == with_key(b, key),
    ensures
        a == b,
    decreases a.len(),
{
    if a.len() == 0 {
        assert(a =~= b);
    } else {
        let x = a.last();
        let y = b.last();
        lemma_last_of_key(a, x.0);
        lemma_last_of_key(b, y.0);
        assert(with_key(a, x.0) == with_key(b, x.0));
        assert(with_key(a, y.0) == with_key(b, y.0));
        lemma_group_member(b, x.0);
        lemma_group_member(a, y.0);
        assert(x.0 == y.0);
        assert(x == y);
        let fa = a.drop_last();
        let fb = b.drop_last();
        assert forall|key: i64| #[trigger] with_key(fa, key) == with_key(fb, key) by {
            assert(with_key(a, key) == with_key(b, key));
            if key == x.0 {
                assert(with_key(fa, key) =~= with_key(a, key).drop_last());
                assert(with_key(fb, key) =~= with_key(b, key).drop_last());
            }
        }
        lemma_same_groups(fa, fb);
        assert(a =~= fa.push(x));
        assert(b =~= fb.push(y));
    }
}

/// The last item is the last of its key.
proof fn lemma_last_of_key<T>(s: Seq<(i64, T)>, key: i64)
    requires
        s.len() > 0,
        s.last().0 == key,
    ensures
        with_key(s, key).len() > 0,
        with_key(s, key).last() == s.last(),
{
}

/// A key with items is no larger than the last key of an ascending sequence.
proof fn lemma_group_member<T>(s: Seq<(i64, T)>, key: i64)
    requires
        keys_ascend(s),
        s.len() > 0,
        with_key(s, key).len() > 0,
    ensures
        key <= s.last().0,
    decreases s.len(),
{
    if s.last().0 != key {
        let front = s.drop_last();
        if front.len() > 0 {
            assert(keys_ascend(front));
            lemma_group_member(front, key);
            assert(front.last() == s[s.len() - 2]);
        } else {
            assert(with_key(front, key).len() == 0);
        }
    }
}

/// Items the other way round.
pub fn reversed<T>(items: Vec<T>) -> (r: Vec<T>)
    ensures
        r@ == items@.reverse(),
{
    let ghost whole = items@;
    let mut rest: Vec<T> = items;
    let mut out: Vec<T> = Vec::new();
    while rest.len() > 0
        invariant
            rest@.len() + out@.len() == whole.len(),
            rest@ == whole.take(rest@.len() as int),
            out@ == whole.reverse().take(out@.len() as int),
        decreases rest@.len(),
    {
        let ghost n = rest@.len() as int;
        let ghost before = out@;
        match rest.pop() {
            Some(item) => {
                assert(item == whole[n - 1]);
                out.push(item);
                assert(whole.reverse()[before.len() as int] == item);
                assert(out@ =~= whole.reverse().take(out@.len() as int));
            },
            None => {},
        }
        assert(whole.take(n).drop_last() =~= whole.take(n - 1));
    }
    assert(whole.reverse().take(out@.len() as int) =~= whole.reverse());
    out
}

/// Every item of a stable sort was there before.
pub proof fn lemma_sorted_member<T>(before: Seq<(i64, T)>, after: Seq<(i64, T)>, i: int)
    requires
        sorts_stably(before, after),
        0 <= i < after.len(),
    ensures
        exists|k: int| 0 <= k < before.len() && before[k] == after[i],
{
    let key = after[i].0;
    lemma_in_group(after, i);
    let g = choose|g: int| 0 <= g < with_key(after, key).len() && with_key(after, key)[g] == after[i];
    assert(with_key(after, key) == with_key(before, key));
    lemma_from_group(before, key, g);
}

/// An item is in the group of its key.
proof fn lemma_in_group<T>(s: Seq<(i64, T)>, i: int)
    requires
        0 <= i < s.len(),
    ensures
        exists|g: int|
            0 <= g < with_key(s, s[i].0).len() && with_key(s, s[i].0)[g] == s[i],
    decreases s.len(),
{
    let key = s[i].0;
    let front = s.drop_last();
    let all = with_key(s, key);
    if i == s.len() - 1 {
        assert(all[all.len() - 1] == s[i]);
    } else {
        assert(front[i] == s[i]);
        lemma_in_group(front, i);
        let inner = with_key(front, key);
        let g = choose|g: int| 0 <= g < inner.len() && inner[g] == front[i];
        assert(all[g] == s[i]);
    }
}

/// Every item of a group comes from the sequence.
proof fn lemma_from_group<T>(s: Seq<(i64, T)>, key: i64, g: int)
    requires
        0 <= g < with_key(s, key).len(),
    ensures
        exists|k: int| 0 <= k < s.len() && s[k] == with_key(s, key)[g],
    decreases s.len(),
{
    if s.len() > 0 {
        let front = s.drop_last();
        let inner = with_key(front, key);
        if g < inner.len() {
            lemma_from_group(front, key, g);
            let k = choose|k: int| 0 <= k < front.len() && front[k] == inner[g];
            assert(s[k] == with_key(s, key)[g]);
        } else {
            assert(s[s.len() - 1] == with_key(s, key)[g]);
        }
    }
}

/// Every item is there after a stable sort.
pub proof fn lemma_sorted_keeps<T>(before: Seq<(i64, T)>, after: Seq<(i64, T)>, i: int)
    requires
        sorts_stably(before, after),
        0 <= i < before.len(),
    ensures
        exists|k: int| 0 <= k < after.len() && after[k] == before[i],
{
    let key = before[i].0;
    lemma_in_group(before, i);
    let g = choose|g: int| 0 <= g < with_key(before, key).len() && with_key(before, key)[g]
        == before[i];
    assert(with_key(after, key) == with_key(before, key));
    lemma_from_group(after, key, g);
}

/// The items with a key are those that have it, in order.
proof fn lemma_with_key_is_filter<T>(s: Seq<(i64, T)>, key: i64)
    ensures
        with_key(s, key) == s.filter(|item: (i64, T)| item.0 == key),
    decreases s.len(),
{
    reveal(Seq::filter);
    if s.len() > 0 {
        lemma_with_key_is_filter(s.drop_last(), key);
    } else {
        assert(s.filter(|item: (i64, T)| item.0 == key) =~= s);
    }
}

/// Sorting puts smaller keys first, and leaves the items of each key in order.
pub proof fn lemma_stable_sort<T>(items: Vec<(i64, T)>, r: Vec<(i64, T)>, i: int, j: int, key: i64)
    requires
        call_ensures(stable_sort::<T>, (items,), r),
        0 <= i <= j < r@.len(),
    ensures
        r@[i].0 <= r@[j].0,
        r@.len() == items@.len(),
        r@.filter(|item: (i64, T)| item.0 == key) == items@.filter(
            |item: (i64, T)| item.0 == key,
        ),
{
    lemma_with_key_is_filter(items@, key);
    lemma_with_key_is_filter(r@, key);
    assert(with_key(r@, key) == with_key(items@, key));
}

} // verus!
