//! Stable ordering: the order of texts, and lists ordered by a ranking of their items.

use vstd::prelude::*;

verus! {

/// Whether `left` comes before `right`, by their first characters that differ; a
/// text comes before its continuations.
pub open spec fn text_before(left: Seq<char>, right: Seq<char>) -> bool
    decreases left.len(),
{
    if right.len() == 0 {
        false
    } else if left.len() == 0 {
        true
    } else if left[0] == right[0] {
        text_before(left.drop_first(), right.drop_first())
    } else {
        left[0] < right[0]
    }
}

fn char_before(left: char, right: char) -> (yes: bool)
    ensures
        yes == (left < right),
{
    (left as u32) < (right as u32)
}

pub fn comes_before(left: &Vec<char>, right: &Vec<char>) -> (yes: bool)
    ensures
        yes == text_before(left@, right@),
{
    let mut i: usize = 0;
    assert(left@.skip(0) =~= left@);
    assert(right@.skip(0) =~= right@);
    loop
        invariant
            i <= left@.len(),
            i <= right@.len(),
            text_before(left@, right@) == text_before(left@.skip(i as int), right@.skip(i as int)),
        decreases left@.len() - i,
    {
        if i == right.len() {
            return false;
        }
        if i == left.len() {
            return true;
        }
        assert(left@.skip(i as int)[0] == left@[i as int]);
        assert(right@.skip(i as int)[0] == right@[i as int]);
        if left[i] != right[i] {
            return char_before(left[i], right[i]);
        }
        assert(left@.skip(i as int).drop_first() =~= left@.skip(i + 1));
        assert(right@.skip(i as int).drop_first() =~= right@.skip(i + 1));
        i = i + 1;
    }
}

/// The order of texts is asymmetric, and what is not before is transitive.
pub proof fn lemma_text_order(a: Seq<char>, b: Seq<char>, c: Seq<char>)
    ensures
        text_before(a, b) ==> !text_before(b, a),
        !text_before(a, b) && !text_before(b, c) ==> !text_before(a, c),
    decreases a.len() + b.len() + c.len(),
{
    if a.len() > 0 && b.len() > 0 && a[0] == b[0] {
        lemma_text_order(a.drop_first(), b.drop_first(), Seq::empty());
    }
    if a.len() > 0 && b.len() > 0 && c.len() > 0 && a[0] == b[0] && b[0] == c[0] {
        lemma_text_order(a.drop_first(), b.drop_first(), c.drop_first());
    }
}

/// Items with a ranking.
pub trait Ranked: View + Sized {
    /// Whether one item ranks before another.
    spec fn ranks_before(left: Self::V, right: Self::V) -> bool;

    fn before(&self, other: &Self) -> (yes: bool)
        ensures
            yes == Self::ranks_before(self@, other@),
    ;

    /// The ranking is asymmetric, and what does not rank before is transitive.
    proof fn lemma_ranking(a: Self::V, b: Self::V, c: Self::V)
        ensures
            Self::ranks_before(a, b) ==> !Self::ranks_before(b, a),
            !Self::ranks_before(a, b) && !Self::ranks_before(b, c) ==> !Self::ranks_before(a, c),
    ;
}

/// The contents of a list of items.
pub open spec fn item_contents<T: View>(items: Seq<T>) -> Seq<T::V> {
    Seq::new(items.len(), |i: int| items[i]@)
}

pub broadcast proof fn lemma_item_contents_push<T: View>(items: Seq<T>, item: T)
    ensures
        #[trigger] item_contents(items.push(item)) == item_contents(items).push(item@),
{
    assert(item_contents(items.push(item)) =~= item_contents(items).push(item@));
}

/// Where an item belongs in an ordered list: behind every item that it does not
/// rank before.
pub open spec fn rank_place<T: Ranked>(list: Seq<T::V>, item: T::V) -> int
    decreases list.len(),
{
    if list.len() == 0 {
        0
    } else if T::ranks_before(item, list.last()) {
        rank_place::<T>(list.drop_last(), item)
    } else {
        list.len() as int
    }
}

/// The ordered list with one item more.
pub open spec fn with_ranked<T: Ranked>(list: Seq<T::V>, item: T::V) -> Seq<T::V> {
    list.insert(rank_place::<T>(list, item), item)
}

/// The items in the order of their ranking; items of equal rank keep their order.
pub open spec fn ranked<T: Ranked>(items: Seq<T::V>) -> Seq<T::V>
    decreases items.len(),
{
    if items.len() == 0 {
        Seq::empty()
    } else {
        with_ranked::<T>(ranked::<T>(items.drop_last()), items.last())
    }
}

/// No item ranks before one that stands ahead of it.
pub open spec fn in_rank_order<T: Ranked>(list: Seq<T::V>) -> bool {
    forall|i: int, j: int|
        0 <= i < j < list.len() ==> !T::ranks_before(#[trigger] list[j], #[trigger] list[i])
}

pub proof fn lemma_rank_place<T: Ranked>(list: Seq<T::V>, item: T::V)
    ensures
        0 <= rank_place::<T>(list, item) <= list.len(),
        forall|i: int|
            rank_place::<T>(list, item) <= i < list.len() ==> T::ranks_before(
                item,
                #[trigger] list[i],
            ),
        rank_place::<T>(list, item) > 0 ==> !T::ranks_before(
            item,
            list[rank_place::<T>(list, item) - 1],
        ),
    decreases list.len(),
{
    if list.len() > 0 && T::ranks_before(item, list.last()) {
        lemma_rank_place::<T>(list.drop_last(), item);
        let k = rank_place::<T>(list.drop_last(), item);
        assert forall|i: int| k <= i < list.len() implies T::ranks_before(item, #[trigger] list[i]) by {
            if i < list.len() - 1 {
                assert(list.drop_last()[i] == list[i]);
            }
        }
    }
}

proof fn lemma_with_ranked_ordered<T: Ranked>(list: Seq<T::V>, item: T::V)
    requires
        in_rank_order::<T>(list),
    ensures
        in_rank_order::<T>(with_ranked::<T>(list, item)),
{
    lemma_rank_place::<T>(list, item);
    let k = rank_place::<T>(list, item);
    let new = with_ranked::<T>(list, item);
    assert forall|i: int, j: int| 0 <= i < j < new.len() implies !T::ranks_before(
        #[trigger] new[j],
        #[trigger] new[i],
    ) by {
        if j == k {
            T::lemma_ranking(item, list[k - 1], list[i]);
        } else if i == k {
            T::lemma_ranking(item, list[j - 1], item);
        }
    }
}

/// Ordered items are in the order of their ranking.
pub proof fn law_ranked_is_ordered<T: Ranked>(items: Seq<T::V>)
    ensures
        in_rank_order::<T>(ranked::<T>(items)),
        ranked::<T>(items).len() == items.len(),
    decreases items.len(),
{
    if items.len() > 0 {
        law_ranked_is_ordered::<T>(items.drop_last());
        lemma_rank_place::<T>(ranked::<T>(items.drop_last()), items.last());
        lemma_with_ranked_ordered::<T>(ranked::<T>(items.drop_last()), items.last());
    }
}

/// Ordering neither loses nor adds an item.
pub proof fn law_ranked_keeps_items<T: Ranked>(items: Seq<T::V>)
    ensures
        ranked::<T>(items).to_multiset() == items.to_multiset(),
    decreases items.len(),
{
    broadcast use vstd::seq_lib::group_to_multiset_ensures;

    if items.len() > 0 {
        let rest = items.drop_last();
        law_ranked_keeps_items::<T>(rest);
        let list = ranked::<T>(rest);
        let k = rank_place::<T>(list, items.last());
        lemma_rank_place::<T>(list, items.last());
        vstd::seq_lib::to_multiset_insert(list, k, items.last());
        assert(items =~= rest.push(items.last()));
    } else {
        assert(items =~= Seq::empty());
    }
}

/// The best `limit` of a list with one item more are among the best `limit` and
/// that item.
pub proof fn lemma_best<T: Ranked>(list: Seq<T::V>, item: T::V, limit: int)
    requires
        0 <= limit,
        in_rank_order::<T>(list),
    ensures
        ({
            let best = if list.len() > limit {
                list.take(limit)
            } else {
                list
            };
            let more = with_ranked::<T>(best, item);
            let full = with_ranked::<T>(list, item);
            (if more.len() > limit {
                more.take(limit)
            } else {
                more
            }) == (if full.len() > limit {
                full.take(limit)
            } else {
                full
            })
        }),
{
    if list.len() > limit {
        let best = list.take(limit);
        lemma_rank_place::<T>(list, item);
        lemma_rank_place::<T>(best, item);
        let p = rank_place::<T>(list, item);
        let q = rank_place::<T>(best, item);
        if p <= limit {
            if q < p {
                assert(T::ranks_before(item, best[p - 1]));
            }
            if q > p {
                assert(T::ranks_before(item, list[q - 1]));
            }
            assert(with_ranked::<T>(best, item).take(limit) =~= with_ranked::<T>(list, item).take(
                limit,
            ));
        } else {
            if q < limit {
                assert(T::ranks_before(item, best[limit - 1]));
                if limit < p - 1 {
                }
                T::lemma_ranking(item, list[p - 1], list[limit - 1]);
            }
            assert(with_ranked::<T>(best, item).take(limit) =~= best);
            assert(with_ranked::<T>(list, item).take(limit) =~= best);
        }
    }
}

/// Puts an item where it belongs in an ordered list.
pub fn insert_ranked<T: Ranked>(list: &mut Vec<T>, item: T)
    ensures
        item_contents(final(list)@) == with_ranked::<T>(item_contents(old(list)@), item@),
{
    let ghost before = item_contents(list@);
    let mut place: usize = list.len();
    assert(before.take(place as int) =~= before);
    while place > 0 && item.before(&list[place - 1])
        invariant
            place <= list@.len(),
            before == item_contents(list@),
            rank_place::<T>(before, item@) == rank_place::<T>(before.take(place as int), item@),
        decreases place,
    {
        assert(before.take(place as int).last() == list@[place - 1]@);
        assert(before.take(place as int).drop_last() =~= before.take(place - 1));
        place = place - 1;
    }
    proof {
        if place > 0 {
            assert(before.take(place as int).last() == list@[place - 1]@);
        }
    }
    list.insert(place, item);
    assert(item_contents(list@) =~= before.insert(place as int, item@));
}

/// Orders a list by the ranking of its items.
pub fn rank<T: Ranked>(items: Vec<T>) -> (list: Vec<T>)
    ensures
        item_contents(list@) == ranked::<T>(item_contents(items@)),
{
    let ghost all = item_contents(items@);
    let count: usize = items.len();
    let mut rest = items;
    let mut turned: Vec<T> = Vec::new();
    while rest.len() > 0
        invariant
            rest@.len() + turned@.len() == all.len(),
            forall|i: int| 0 <= i < rest@.len() ==> (#[trigger] rest@[i])@ == all[i],
            forall|i: int|
                0 <= i < turned@.len() ==> (#[trigger] turned@[i])@ == all[all.len() - 1 - i],
        decreases rest@.len(),
    {
        let ghost left = rest@;
        if let Some(item) = rest.pop() {
            assert(item == left.last());
            turned.push(item);
        }
    }
    let mut list: Vec<T> = Vec::new();
    let mut done: usize = 0;
    assert(item_contents(list@) =~= ranked::<T>(all.take(0)));
    while turned.len() > 0
        invariant
            done + turned@.len() == all.len(),
            all.len() == count,
            forall|i: int|
                0 <= i < turned@.len() ==> (#[trigger] turned@[i])@ == all[all.len() - 1 - i],
            item_contents(list@) == ranked::<T>(all.take(done as int)),
        decreases turned@.len(),
    {
        let ghost left = turned@;
        if let Some(item) = turned.pop() {
            proof {
                assert(item == left[left.len() - 1]);
                assert(item@ == all[done as int]);
                assert(all.take(done + 1).drop_last() =~= all.take(done as int));
            }
            insert_ranked(&mut list, item);
            done = done + 1;
        }
    }
    assert(all.take(done as int) =~= all);
    list
}

} // verus!
