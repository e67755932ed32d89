//! Putting items in order, keeping the order of those that tie.

use vstd::prelude::*;
use vstd::seq_lib::to_multiset_insert;

verus! {

/// Items that have an order among themselves, possibly with ties.
pub trait Ranked: Sized {
    /// This item may stand before the other.
    spec fn at_most(&self, other: &Self) -> bool;

    /// Whether this item may stand before the other.
    fn is_at_most(&self, other: &Self) -> (result: bool)
        ensures
            result == self.at_most(other),
    ;

    /// Of two items one may stand before the other.
    proof fn lemma_total(&self, other: &Self)
        ensures
            self.at_most(other) || other.at_most(self),
    ;

    /// The order carries over.
    proof fn lemma_transitive(first: &Self, second: &Self, third: &Self)
        requires
            first.at_most(second),
            second.at_most(third),
        ensures
            first.at_most(third),
    ;
}

/// Every item may stand before every later one.
pub open spec fn in_order<T: Ranked>(items: Seq<T>) -> bool {
    forall|i: int, j: int|
        #![trigger items[i], items[j]]
        0 <= i < j < items.len() ==> items[i].at_most(&items[j])
}

/// Where a new item goes: behind every item that may stand before it.
pub open spec fn place<T: Ranked>(items: Seq<T>, item: T) -> int
    decreases items.len(),
{
    if items.len() == 0 {
        0
    } else if items.last().at_most(&item) {
        items.len() as int
    } else {
        place(items.drop_last(), item)
    }
}

/// The items with one more in its place.
pub open spec fn ranked_in<T: Ranked>(items: Seq<T>, item: T) -> Seq<T> {
    items.insert(place(items, item), item)
}

/// The items put in order one after the other, so that ties keep their order.
pub open spec fn ranked<T: Ranked>(items: Seq<T>) -> Seq<T>
    decreases items.len(),
{
    if items.len() == 0 {
        Seq::empty()
    } else {
        ranked_in(ranked(items.drop_last()), items.last())
    }
}

proof fn lemma_place<T: Ranked>(items: Seq<T>, item: T)
    requires
        in_order(items),
    ensures
        0 <= place(items, item) <= items.len(),
        forall|i: int| 0 <= i < place(items, item) ==> (#[trigger] items[i]).at_most(&item),
        forall|i: int| place(items, item) <= i < items.len() ==> !(#[trigger] items[i]).at_most(&item),
    decreases items.len(),
{
    if items.len() > 0 {
        let last = items.last();
        if last.at_most(&item) {
            assert forall|i: int| 0 <= i < items.len() implies (#[trigger] items[i]).at_most(
                &item,
            ) by {
                if i < items.len() - 1 {
                    T::lemma_transitive(&items[i], &items[items.len() - 1], &item);
                }
            }
        } else {
            let shorter = items.drop_last();
            assert(in_order(shorter));
            lemma_place(shorter, item);
            let at = place(shorter, item);
            assert forall|i: int| 0 <= i < at implies (#[trigger] items[i]).at_most(&item) by {
                assert(shorter[i] == items[i]);
            }
            assert forall|i: int| at <= i < items.len() implies !(#[trigger] items[i]).at_most(
                &item,
            ) by {
                if i < items.len() - 1 {
                    assert(shorter[i] == items[i]);
                }
            }
        }
    }
}

/// A new item in its place keeps the order and loses nothing.
pub proof fn lemma_ranked_in<T: Ranked>(items: Seq<T>, item: T)
    requires
        in_order(items),
    ensures
        0 <= place(items, item) <= items.len(),
        in_order(ranked_in(items, item)),
        ranked_in(items, item).to_multiset() == items.to_multiset().insert(item),
{
    lemma_place(items, item);
    let at = place(items, item);
    let more = ranked_in(items, item);
    items.insert_ensures(at, item);
    to_multiset_insert(items, at, item);
    assert forall|i: int, j: int|
        #![trigger more[i], more[j]]
        0 <= i < j < more.len() implies more[i].at_most(&more[j]) by {
        let left = if i < at { items[i] } else if i == at { item } else { items[i - 1] };
        let right = if j < at { items[j] } else if j == at { item } else { items[j - 1] };
        assert(more[i] == left);
        assert(more[j] == right);
        if i == at {
            item.lemma_total(&items[j - 1]);
        }
    }
}

/// Putting items in order loses none of them, and every item may then stand
/// before every later one.
pub proof fn law_ranked<T: Ranked>(items: Seq<T>)
    ensures
        in_order(ranked(items)),
        ranked(items).to_multiset() == items.to_multiset(),
        ranked(items).len() == items.len(),
    decreases items.len(),
{
    broadcast use vstd::seq_lib::group_to_multiset_ensures;

    if items.len() > 0 {
        law_ranked(items.drop_last());
        lemma_ranked_in(ranked(items.drop_last()), items.last());
        assert(items.drop_last().push(items.last()) =~= items);
    } else {
        assert(ranked(items) =~= items);
    }
}

/// An item stands among the ordered ones if and only if it was among them.
pub proof fn lemma_ranked_contains<T: Ranked>(items: Seq<T>, item: T)
    ensures
        ranked(items).contains(item) <==> items.contains(item),
{
    broadcast use vstd::seq_lib::group_to_multiset_ensures;

    law_ranked(items);
    assert(ranked(items).to_multiset().count(item) == items.to_multiset().count(item));
}

/// Put one more item in its place.
pub fn rank_in<T: Ranked>(items: &mut Vec<T>, item: T)
    requires
        in_order(old(items)@),
    ensures
        final(items)@ == ranked_in(old(items)@, item),
        in_order(final(items)@),
{
    let ghost all = items@;
    let mut at: usize = items.len();
    assert(all.take(at as int) =~= all);
    while at > 0 && !items[at - 1].is_at_most(&item)
        invariant
            at <= items@.len(),
            items@ == all,
            place(all, item) == place(all.take(at as int), item),
        decreases at,
    {
        assert(all.take(at as int).drop_last() =~= all.take(at - 1));
        at = at - 1;
    }
    proof {
        lemma_ranked_in(all, item);
        if at > 0 {
            assert(all.take(at as int).last() == all[at - 1]);
        }
    }
    items.insert(at, item);
}

/// Put items in order, keeping the order of those that tie.
pub fn rank<T: Ranked>(items: Vec<T>) -> (result: Vec<T>)
    ensures
        result@ == ranked(items@),
        in_order(result@),
{
    let ghost all = items@;
    let mut left: Vec<T> = items;
    let mut turned: Vec<T> = Vec::new();
    while left.len() > 0
        invariant
            all.len() == left@.len() + turned@.len(),
            left@ == all.take(left@.len() as int),
            turned@ == all.skip(left@.len() as int).reverse(),
        decreases left@.len(),
    {
        match left.pop() {
            Some(item) => {
                turned.push(item);
                assert(turned@ =~= all.skip(left@.len() as int).reverse());
                assert(left@ =~= all.take(left@.len() as int));
            },
            None => {},
        }
    }
    let mut result: Vec<T> = Vec::new();
    assert(ranked(all.take(0)) =~= Seq::<T>::empty());
    assert(all.skip(0) =~= all);
    while turned.len() > 0
        invariant
            turned@.len() <= all.len(),
            turned@ == all.skip(all.len() - turned@.len()).reverse(),
            result@ == ranked(all.take(all.len() - turned@.len())),
            in_order(result@),
        decreases turned@.len(),
    {
        let ghost done = all.len() - turned@.len();
        match turned.pop() {
            Some(item) => {
                proof {
                    assert(item == all[done]);
                    assert(turned@ =~= all.skip(done + 1).reverse());
                    assert(all.take(done + 1).drop_last() =~= all.take(done));
                }
                rank_in(&mut result, item);
            },
            None => {},
        }
    }
    assert(all.take(all.len() as int) =~= all);
    result
}

/// Items that tie with one another keep the order they came in.
pub proof fn law_ties_keep_their_order<T: Ranked>(items: Seq<T>, ties: spec_fn(T) -> bool)
    requires
        forall|a: T, b: T|
            ties(a) && ties(b) ==> #[trigger] a.at_most(&b),
    ensures
        ranked(items).filter(ties) == items.filter(ties),
    decreases items.len(),
{
    reveal(Seq::filter);
    if items.len() > 0 {
        let shorter = items.drop_last();
        let last = items.last();
        law_ties_keep_their_order(shorter, ties);
        law_ranked(shorter);
        let order = ranked(shorter);
        lemma_place(order, last);
        let at = place(order, last);
        lemma_filter_insert(order, at, last, ties);
        if ties(last) {
            assert forall|i: int| at <= i < order.len() implies !ties(#[trigger] order[i]) by {
                if ties(order[i]) {
                    assert(order[i].at_most(&last));
                }
            }
            lemma_filter_none(order.skip(at), ties);
        }
    } else {
        assert(ranked(items) =~= items);
    }
}

proof fn lemma_filter_none<T>(items: Seq<T>, keep: spec_fn(T) -> bool)
    requires
        forall|i: int| 0 <= i < items.len() ==> !keep(#[trigger] items[i]),
    ensures
        items.filter(keep).len() == 0,
    decreases items.len(),
{
    reveal(Seq::filter);
    if items.len() > 0 {
        let shorter = items.drop_last();
        assert forall|i: int| 0 <= i < shorter.len() implies !keep(#[trigger] shorter[i]) by {
            assert(shorter[i] == items[i]);
        }
        lemma_filter_none(shorter, keep);
        assert(!keep(items[items.len() - 1]));
    }
}

proof fn lemma_filter_insert<T>(items: Seq<T>, at: int, item: T, keep: spec_fn(T) -> bool)
    requires
        0 <= at <= items.len(),
    ensures
        items.filter(keep) == items.take(at).filter(keep) + items.skip(at).filter(keep),
        items.insert(at, item).filter(keep) == if keep(item) {
            items.take(at).filter(keep).push(item) + items.skip(at).filter(keep)
        } else {
            items.filter(keep)
        },
{
    let (left, right) = (items.take(at), items.skip(at));
    reveal(Seq::filter);
    Seq::<T>::filter_distributes_over_add(left, right, keep);
    assert(left + right =~= items);
    assert(items.insert(at, item) =~= left.push(item) + right);
    Seq::<T>::filter_distributes_over_add(left.push(item), right, keep);
    assert(left.push(item).drop_last() =~= left);
}

} // verus!
