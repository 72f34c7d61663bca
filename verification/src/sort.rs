//! Stable sorting by an integer key.

use vstd::prelude::*;

verus! {

broadcast use vstd::seq::group_seq_axioms;

/// `list`, which is sorted, with `item` behind everything that does not come after it.
pub open spec fn placed<V>(list: Seq<(usize, V)>, item: (usize, V)) -> Seq<(usize, V)>
    decreases list.len(),
{
    if list.len() == 0 || list.last().0 <= item.0 {
        list.push(item)
    } else {
        placed(list.drop_last(), item).push(list.last())
    }
}

/// `items` in the order of their keys, items with the same key in the order in which they came.
pub open spec fn sorted<V>(items: Seq<(usize, V)>) -> Seq<(usize, V)>
    decreases items.len(),
{
    if items.len() == 0 {
        Seq::empty()
    } else {
        placed(sorted(items.drop_last()), items.last())
    }
}

/// Whether no key is smaller than one before it.
pub open spec fn ascending<V>(list: Seq<(usize, V)>) -> bool {
    forall|i: int, j: int|
        0 <= i <= j < list.len() ==> (#[trigger] list[i]).0 <= (#[trigger] list[j]).0
}

proof fn lemma_placed<V>(list: Seq<(usize, V)>, item: (usize, V))
    requires
        ascending(list),
    ensures
        ascending(placed(list, item)),
        placed(list, item).len() == list.len() + 1,
        placed(list, item).to_multiset() == list.to_multiset().insert(item),
        forall|i: int|
            0 <= i < placed(list, item).len() ==> (#[trigger] placed(list, item)[i]).0 <= item.0
                || (list.len() > 0 && placed(list, item)[i].0 <= list.last().0),
    decreases list.len(),
{
    broadcast use vstd::seq_lib::group_to_multiset_ensures;

    if list.len() == 0 || list.last().0 <= item.0 {
        let r = list.push(item);
        assert forall|i: int, j: int| 0 <= i <= j < r.len() implies (#[trigger] r[i]).0 <= (
        #[trigger] r[j]).0 by {
            if j == list.len() && i < j {
                assert(list[i].0 <= list[list.len() - 1].0);
            }
        }
    } else {
        let rest = list.drop_last();
        lemma_placed(rest, item);
        let inner = placed(rest, item);
        let r = inner.push(list.last());
        assert forall|i: int| 0 <= i < inner.len() implies (#[trigger] inner[i]).0
            <= list.last().0 by {
            if rest.len() > 0 {
                assert(list[rest.len() - 1].0 <= list[list.len() - 1].0);
            }
        }
        assert(list =~= rest.push(list.last()));
        assert(r.to_multiset() =~= list.to_multiset().insert(item));
    }
}

/// Sorting by key gives the same items, in ascending order of their keys.
pub proof fn sorted_is_a_sorted_permutation<V>(items: Seq<(usize, V)>)
    ensures
        ascending(sorted(items)),
        sorted(items).len() == items.len(),
        sorted(items).to_multiset() == items.to_multiset(),
    decreases items.len(),
{
    broadcast use vstd::seq_lib::group_to_multiset_ensures;

    if items.len() > 0 {
        let rest = items.drop_last();
        sorted_is_a_sorted_permutation(rest);
        lemma_placed(sorted(rest), items.last());
        assert(items =~= rest.push(items.last()));
    } else {
        assert(items =~= Seq::empty());
    }
}

proof fn lemma_placed_at<V>(list: Seq<(usize, V)>, item: (usize, V), i: int)
    requires
        0 <= i <= list.len(),
        i > 0 ==> list[i - 1].0 <= item.0,
        forall|k: int| i <= k < list.len() ==> (#[trigger] list[k]).0 > item.0,
    ensures
        placed(list, item) == list.insert(i, item),
    decreases list.len() - i,
{
    if i == list.len() {
        assert(list.insert(i, item) =~= list.push(item));
    } else {
        let rest = list.drop_last();
        assert(list[list.len() - 1].0 > item.0);
        lemma_placed_at(rest, item, i);
        assert(list.insert(i, item) =~= rest.insert(i, item).push(list.last()));
    }
}

/// Sort `items` by their keys, keeping the order of items with the same key.
pub fn sort_by_key<V>(items: Vec<(usize, V)>) -> (r: Vec<(usize, V)>)
    ensures
        r@ == sorted(items@),
{
    let ghost all = items@;
    let mut items = items;
    let mut rest: Vec<(usize, V)> = Vec::new();
    while items.len() > 0
        invariant
            rest@.len() + items@.len() == all.len(),
            items@ == all.take(items@.len() as int),
            forall|k: int|
                0 <= k < rest@.len() ==> #[trigger] rest@[k] == all[all.len() - 1 - k],
        decreases items@.len(),
    {
        let last: usize = items.len() - 1;
        let item = items.remove(last);
        rest.push(item);
    }
    let mut out: Vec<(usize, V)> = Vec::new();
    let ghost mut done: int = 0;
    assert(all.take(0) =~= Seq::empty());
    while rest.len() > 0
        invariant
            0 <= done <= all.len(),
            rest@.len() == all.len() - done,
            forall|k: int|
                0 <= k < rest@.len() ==> #[trigger] rest@[k] == all[all.len() - 1 - k],
            out@ == sorted(all.take(done)),
        decreases rest@.len(),
    {
        let last: usize = rest.len() - 1;
        let item = rest.remove(last);
        let mut i: usize = out.len();
        while i > 0 && out[i - 1].0 > item.0
            invariant
                0 <= i <= out@.len(),
                forall|k: int| i <= k < out@.len() ==> (#[trigger] out@[k]).0 > item.0,
            decreases i,
        {
            i -= 1;
        }
        proof {
            lemma_placed_at(out@, item, i as int);
            assert(all.take(done + 1).drop_last() =~= all.take(done));
            assert(all.take(done + 1).last() == item);
        }
        out.insert(i, item);
        proof {
            done = done + 1;
        }
    }
    assert(all.take(done) =~= all);
    out
}

/// Values numbered from zero on.
pub open spec fn numbered<V>(values: Seq<V>) -> Seq<(usize, V)> {
    Seq::new(values.len(), |i: int| (i as usize, values[i]))
}

/// Sorting undoes any shuffling of numbered values: however they come, they come out in the
/// order of their numbers.
pub proof fn sorting_restores_numbered<V>(items: Seq<(usize, V)>, values: Seq<V>)
    requires
        values.len() <= usize::MAX,
        items.to_multiset() == numbered(values).to_multiset(),
    ensures
        sorted(items) == numbered(values),
{
    broadcast use vstd::seq_lib::group_to_multiset_ensures;

    let s = sorted(items);
    let want = numbered(values);
    sorted_is_a_sorted_permutation(items);
    assert(s.to_multiset() == want.to_multiset());
    assert(s.to_multiset().len() == s.len());
    assert(want.to_multiset().len() == want.len());
    assert(want.no_duplicates());
    want.lemma_multiset_has_no_duplicates();
    s.lemma_multiset_has_no_duplicates_conv();
    assert forall|i: int| 0 <= i < s.len() implies {
        &&& (#[trigger] s[i]).0 < values.len()
        &&& s[i] == want[s[i].0 as int]
    } by {
        assert(s.to_multiset().count(s[i]) > 0) by {
            assert(s.contains(s[i]));
        }
        assert(want.contains(s[i]));
        let k = choose|k: int| 0 <= k < want.len() && want[k] == s[i];
        assert(s[i].0 == k);
    }
    assert forall|i: int| 0 <= i < s.len() implies (#[trigger] s[i]).0 == i by {
        lemma_at_least(s, i);
        lemma_at_most(s, i, values.len() as int);
    }
    assert(s =~= want);
}

proof fn lemma_at_least<V>(s: Seq<(usize, V)>, i: int)
    requires
        ascending(s),
        s.no_duplicates(),
        forall|a: int, b: int|
            0 <= a < s.len() && 0 <= b < s.len() && (#[trigger] s[a]).0 == (#[trigger] s[b]).0
                ==> s[a] == s[b],
        0 <= i < s.len(),
    ensures
        s[i].0 >= i,
    decreases i,
{
    if i > 0 {
        lemma_at_least(s, i - 1);
        assert(s[i - 1].0 <= s[i].0);
        assert(s[i - 1] != s[i]);
    }
}

proof fn lemma_at_most<V>(s: Seq<(usize, V)>, i: int, n: int)
    requires
        ascending(s),
        s.no_duplicates(),
        s.len() == n,
        forall|a: int, b: int|
            0 <= a < s.len() && 0 <= b < s.len() && (#[trigger] s[a]).0 == (#[trigger] s[b]).0
                ==> s[a] == s[b],
        forall|a: int| 0 <= a < s.len() ==> (#[trigger] s[a]).0 < n,
        0 <= i < s.len(),
    ensures
        s[i].0 <= i,
    decreases n - i,
{
    if i < n - 1 {
        lemma_at_most(s, i + 1, n);
        assert(s[i].0 <= s[i + 1].0);
        assert(s[i] != s[i + 1]);
    } else {
        assert(s[i].0 < n);
    }
}

} // verus!
