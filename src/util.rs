use vstd::prelude::*;

use crate::text::same_text;

verus! {

/// The items of `s` whose mark is `want`, in order.
pub open spec fn select<T>(s: Seq<T>, marks: Seq<bool>, want: bool) -> Seq<T>
    decreases s.len(),
{
    if s.len() == 0 {
        Seq::empty()
    } else {
        let rest = select(s.drop_last(), marks, want);
        if marks[s.len() - 1] == want {
            rest.push(s.last())
        } else {
            rest
        }
    }
}

/// Only the marks of the items that are there matter.
pub proof fn lemma_select_same_marks<T>(s: Seq<T>, m1: Seq<bool>, m2: Seq<bool>, want: bool)
    requires
        forall|i: int| 0 <= i < s.len() ==> m1[i] == m2[i],
    ensures
        select(s, m1, want) == select(s, m2, want),
    decreases s.len(),
{
    if s.len() > 0 {
        lemma_select_same_marks(s.drop_last(), m1, m2, want);
    }
}

/// Splits `arr` into the items that `filter` accepts and the others, each
/// part in its original order.
pub fn split<T>(arr: Vec<T>, filter: impl Fn(&T) -> bool) -> (r: (Vec<T>, Vec<T>))
    requires
        forall|x: &T| #[trigger] filter.requires((x,)),
    ensures
        exists|marks: Seq<bool>|
            {
                &&& marks.len() == arr@.len()
                &&& forall|i: int| 0 <= i < arr@.len() ==> filter.ensures((&arr@[i],), #[trigger] marks[i])
                &&& r.0@ == select(arr@, marks, true)
                &&& r.1@ == select(arr@, marks, false)
            },
{
    let ghost items = arr@;
    let mut left: Vec<T> = Vec::new();
    let mut right: Vec<T> = Vec::new();
    let ghost mut marks: Seq<bool> = Seq::empty();
    for x in it: arr.into_iter()
        invariant
            it.seq() == items,
            marks.len() == it.index(),
            forall|i: int| 0 <= i < marks.len() ==> filter.ensures((&items[i],), #[trigger] marks[i]),
            left@ == select(items.take(marks.len() as int), marks, true),
            right@ == select(items.take(marks.len() as int), marks, false),
            forall|x: &T| #[trigger] filter.requires((x,)),
    {
        let ghost n = marks.len() as int;
        let keep = filter(&x);
        proof {
            let old_marks = marks;
            marks = marks.push(keep);
            assert(items.take(n + 1).drop_last() =~= items.take(n));
            lemma_select_same_marks(items.take(n), old_marks, marks, true);
            lemma_select_same_marks(items.take(n), old_marks, marks, false);
        }
        assert(items.take(n + 1).last() == x);
        assert(marks[n] == keep);
        if keep {
            left.push(x);
        } else {
            right.push(x);
        }
    }
    assert(items.take(marks.len() as int) =~= items);
    (left, right)
}

/// The items of `s` whose key is `k`, in order.
pub open spec fn key_items<T>(s: Seq<T>, keys: Seq<Seq<char>>, k: Seq<char>) -> Seq<T>
    decreases s.len(),
{
    if s.len() == 0 {
        Seq::empty()
    } else {
        let rest = key_items(s.drop_last(), keys, k);
        if keys[s.len() - 1] == k {
            rest.push(s.last())
        } else {
            rest
        }
    }
}

pub proof fn lemma_key_items_same_keys<T>(s: Seq<T>, k1: Seq<Seq<char>>, k2: Seq<Seq<char>>, k: Seq<char>)
    requires
        forall|i: int| 0 <= i < s.len() ==> k1[i] == k2[i],
    ensures
        key_items(s, k1, k) == key_items(s, k2, k),
    decreases s.len(),
{
    if s.len() > 0 {
        lemma_key_items_same_keys(s.drop_last(), k1, k2, k);
    }
}

pub proof fn lemma_key_items_absent<T>(s: Seq<T>, keys: Seq<Seq<char>>, k: Seq<char>)
    requires
        forall|i: int| 0 <= i < s.len() ==> keys[i] != k,
    ensures
        key_items(s, keys, k) == Seq::<T>::empty(),
    decreases s.len(),
{
    if s.len() > 0 {
        lemma_key_items_absent(s.drop_last(), keys, k);
    }
}

/// The group keys are pairwise distinct.
pub open spec fn distinct_keys<T>(g: Seq<(String, Vec<T>)>) -> bool {
    forall|a: int, b: int| 0 <= a < b < g.len() ==> g[a].0@ != g[b].0@
}

/// `groups` holds one group per key of `keys`, each with the items of
/// `items` that have that key, in order.
pub open spec fn grouped_by<T>(items: Seq<T>, keys: Seq<String>, groups: Seq<(String, Vec<T>)>) -> bool {
    &&& keys.len() == items.len()
    &&& distinct_keys(groups)
    &&& forall|j: int|
        0 <= j < groups.len() ==> (#[trigger] groups[j]).1@ == key_items(items, crate::text::views(keys), groups[j].0@)
    &&& forall|i: int| 0 <= i < items.len() ==> has_group(groups, (#[trigger] keys[i])@)
}

/// Some group has key `k`.
pub open spec fn has_group<T>(groups: Seq<(String, Vec<T>)>, k: Seq<char>) -> bool {
    exists|j: int| 0 <= j < groups.len() && (#[trigger] groups[j]).0@ == k
}

/// Groups the items of `arr` by the key that `by` gives each: one group per
/// key, holding that key's items in their original order.
pub fn group<T>(arr: Vec<T>, by: impl Fn(&T) -> String) -> (r: Vec<(String, Vec<T>)>)
    requires
        forall|x: &T| #[trigger] by.requires((x,)),
    ensures
        exists|keys: Seq<String>|
            {
                &&& #[trigger] grouped_by(arr@, keys, r@)
                &&& forall|i: int| 0 <= i < arr@.len() ==> by.ensures((&arr@[i],), #[trigger] keys[i])
            },
{
    let ghost items = arr@;
    let mut groups: Vec<(String, Vec<T>)> = Vec::new();
    let ghost mut keys: Seq<String> = Seq::empty();
    // the group that holds each item seen so far
    let ghost mut slot: Seq<int> = Seq::empty();
    for x in it: arr.into_iter()
        invariant
            it.seq() == items,
            keys.len() == it.index(),
            slot.len() == keys.len(),
            forall|i: int| 0 <= i < keys.len() ==> by.ensures((&items[i],), #[trigger] keys[i]),
            forall|x: &T| #[trigger] by.requires((x,)),
            distinct_keys(groups@),
            forall|j: int|
                0 <= j < groups@.len() ==> (#[trigger] groups@[j]).1@ == key_items(
                    items.take(keys.len() as int),
                    crate::text::views(keys),
                    groups@[j].0@,
                ),
            forall|i: int|
                0 <= i < keys.len() ==> 0 <= #[trigger] slot[i] < groups@.len() && groups@[slot[i]].0@ == keys[i]@,
    {
        let ghost n = keys.len() as int;
        let ghost old_keys = keys;
        let ghost old_groups = groups@;
        let k = by(&x);
        proof {
            keys = keys.push(k);
            assert(items.take(n + 1).drop_last() =~= items.take(n));
            assert(items.take(n + 1).last() == x);
            assert(crate::text::views(keys)[n] == k@);
            assert forall|g: Seq<char>| key_items(items.take(n), crate::text::views(old_keys), g) == key_items(
                items.take(n),
                crate::text::views(keys),
                g,
            ) by {
                lemma_key_items_same_keys(items.take(n), crate::text::views(old_keys), crate::text::views(keys), g);
            }
        }
        let mut j: usize = 0;
        let mut found = false;
        while j < groups.len() && !found
            invariant
                j <= groups@.len(),
                groups@ == old_groups,
                found ==> j < groups@.len() && groups@[j as int].0@ == k@,
                forall|a: int| 0 <= a < j ==> groups@[a].0@ != k@,
            decreases groups@.len() - j + (if found { 0int } else { 1int }),
        {
            if same_text(groups[j].0.as_str(), k.as_str()) {
                found = true;
            } else {
                j = j + 1;
            }
        }
        if found {
            let (gk, mut members) = groups.remove(j);
            members.push(x);
            let ghost entry = (gk, members);
            groups.insert(j, (gk, members));
            proof {
                assert(groups@ =~= old_groups.update(j as int, entry));
                slot = slot.push(j as int);
                assert forall|a: int| 0 <= a < groups@.len() implies (#[trigger] groups@[a]).1@ == key_items(
                    items.take(n + 1),
                    crate::text::views(keys),
                    groups@[a].0@,
                ) by {
                    if a != j {
                        assert(groups@[a] == old_groups[a]);
                    }
                }
            }
        } else {
            let mut members: Vec<T> = Vec::new();
            members.push(x);
            groups.push((k, members));
            proof {
                assert forall|i: int| 0 <= i < n implies crate::text::views(old_keys)[i] != k@ by {
                    assert(crate::text::views(old_keys)[i] == old_keys[i]@);
                    assert(old_groups[slot[i]].0@ == old_keys[i]@);
                }
                lemma_key_items_absent(items.take(n), crate::text::views(old_keys), k@);
                slot = slot.push(old_groups.len() as int);
                assert forall|a: int| 0 <= a < groups@.len() implies (#[trigger] groups@[a]).1@ == key_items(
                    items.take(n + 1),
                    crate::text::views(keys),
                    groups@[a].0@,
                ) by {
                    if a < old_groups.len() {
                        assert(groups@[a] == old_groups[a]);
                    } else {
                        assert(groups@[a].1@ =~= Seq::<T>::empty().push(x));
                    }
                }
            }
        }
        proof {
            assert forall|i: int| 0 <= i < keys.len() implies 0 <= #[trigger] slot[i] < groups@.len()
                && groups@[slot[i]].0@ == keys[i]@ by {
                if i < n {
                    assert(keys[i] == old_keys[i]);
                    assert(groups@[slot[i]] == old_groups[slot[i]] || slot[i] == j);
                }
            }
        }
    }
    assert(keys.len() == items.len());
    assert forall|j: int| 0 <= j < groups@.len() implies (#[trigger] groups@[j]).1@ == key_items(
        items,
        crate::text::views(keys),
        groups@[j].0@,
    ) by {
        assert(items.take(keys.len() as int) == items);
    }
    assert forall|i: int| 0 <= i < items.len() implies has_group(groups@, (#[trigger] keys[i])@) by {
        assert(0 <= slot[i] < groups@.len() && groups@[slot[i]].0@ == keys[i]@);
    }
    assert(distinct_keys(groups@));
    assert(grouped_by(items, keys, groups@));
    groups
}

} // verus!
