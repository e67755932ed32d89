//! Sets of actors, held by their identities in increasing order.

use vstd::prelude::*;

verus! {

/// Every identity is below every later one, so none occurs twice.
pub open spec fn increasing(ids: Seq<u64>) -> bool {
    forall|i: int, j: int| #![trigger ids[i], ids[j]] 0 <= i < j < ids.len() ==> ids[i] < ids[j]
}

/// Add one identity to a set, unless it is there already.
pub fn include_identity(ids: &mut Vec<u64>, id: u64)
    requires
        increasing(old(ids)@),
    ensures
        increasing(final(ids)@),
        forall|other: u64| #[trigger]
            final(ids)@.contains(other) <==> (other == id || old(ids)@.contains(other)),
{
    let ghost before = ids@;
    let mut at: usize = ids.len();
    while at > 0 && ids[at - 1] > id
        invariant
            at <= ids@.len(),
            ids@ == before,
            forall|k: int| at <= k < before.len() ==> before[k] > id,
        decreases at,
    {
        at = at - 1;
    }
    if at > 0 && ids[at - 1] == id {
        assert(before[at - 1] == id);
        return;
    }
    ids.insert(at, id);
    proof {
        before.insert_ensures(at as int, id);
        let after = ids@;
        assert forall|k: int| 0 <= k < at implies before[k] < id by {
            assert(before[k] <= before[at - 1]);
        }
        assert forall|i: int, j: int|
            #![trigger after[i], after[j]]
            0 <= i < j < after.len() implies after[i] < after[j] by {
            let left = if i < at { before[i] } else if i == at { id } else { before[i - 1] };
            let right = if j < at { before[j] } else if j == at { id } else { before[j - 1] };
            assert(after[i] == left);
            assert(after[j] == right);
        }
        assert forall|other: u64| #[trigger]
            after.contains(other) <==> (other == id || before.contains(other)) by {
            if after.contains(other) {
                let k = choose|k: int| 0 <= k < after.len() && after[k] == other;
                if k < at {
                    assert(before[k] == other);
                } else if k > at {
                    assert(before[k - 1] == other);
                }
            }
            if other == id {
                assert(after[at as int] == id);
            } else if before.contains(other) {
                let k = choose|k: int| 0 <= k < before.len() && before[k] == other;
                if k < at {
                    assert(after[k] == other);
                } else {
                    assert(after[k + 1] == other);
                }
            }
        }
    }
}

/// Whether an identity is among these.
pub fn has_identity(ids: &[u64], id: u64) -> (found: bool)
    ensures
        found == ids@.contains(id),
{
    let mut index: usize = 0;
    while index < ids.len()
        invariant
            index <= ids@.len(),
            forall|k: int| 0 <= k < index ==> ids@[k] != id,
        decreases ids@.len() - index,
    {
        if ids[index] == id {
            return true;
        }
        index = index + 1;
    }
    false
}

/// Two sets with the same members are the same list.
pub proof fn law_sets_are_lists(left: Seq<u64>, right: Seq<u64>)
    requires
        increasing(left),
        increasing(right),
        forall|id: u64| #[trigger] left.contains(id) <==> right.contains(id),
    ensures
        left == right,
    decreases left.len(),
{
    if left.len() == 0 {
        if right.len() > 0 {
            let id = right[0];
            assert(right.contains(id));
            assert(left.contains(id));
        }
        assert(left =~= right);
    } else {
        let top = left.last();
        assert(left[left.len() - 1] == top);
        assert(left.contains(top));
        assert(right.contains(top));
        let high = right.last();
        assert(right[right.len() - 1] == high);
        assert(right.contains(high));
        assert(left.contains(high));
        assert(top == high) by {
            let i = choose|i: int| 0 <= i < left.len() && left[i] == high;
            let j = choose|j: int| 0 <= j < right.len() && right[j] == top;
            assert(left[i] <= left[left.len() - 1]);
            assert(right[j] <= right[right.len() - 1]);
        }
        let a = left.drop_last();
        let b = right.drop_last();
        assert(increasing(a));
        assert(increasing(b));
        assert forall|id: u64| #[trigger] a.contains(id) <==> b.contains(id) by {
            lemma_drop_last_contains(left, id);
            lemma_drop_last_contains(right, id);
        }
        law_sets_are_lists(a, b);
        assert(left =~= a.push(top));
        assert(right =~= b.push(high));
    }
}

proof fn lemma_drop_last_contains(ids: Seq<u64>, id: u64)
    requires
        increasing(ids),
        ids.len() > 0,
    ensures
        ids.drop_last().contains(id) <==> (ids.contains(id) && id != ids.last()),
{
    let shorter = ids.drop_last();
    if shorter.contains(id) {
        let k = choose|k: int| 0 <= k < shorter.len() && shorter[k] == id;
        assert(ids[k] == id);
        assert(ids[k] < ids[ids.len() - 1]);
    }
    if ids.contains(id) && id != ids.last() {
        let k = choose|k: int| 0 <= k < ids.len() && ids[k] == id;
        assert(shorter[k] == id);
    }
}

/// In a set of identities each is listed once and the lowest comes first.
pub proof fn law_sets_list_each_once(ids: Seq<u64>, id: u64)
    requires
        increasing(ids),
        ids.contains(id),
    ensures
        ids.no_duplicates(),
        ids[0] <= id <= ids.last(),
{
    let k = choose|k: int| 0 <= k < ids.len() && ids[k] == id;
    if 0 < k {
        assert(ids[0] < ids[k]);
    }
    if k < ids.len() - 1 {
        assert(ids[k] < ids[ids.len() - 1]);
    }
}

} // verus!
