use vstd::prelude::*;
use crate::value::Order;

verus! {

/// A key by which items are put in order.
pub trait SortKey: Sized {
    /// What all keys of one sort share (such as the directions of its columns).
    type Context;

    /// How this key compares with another.
    spec fn key_order(&self, other: &Self, ctx: &Self::Context) -> Order;

    /// Comparing the other way round gives the opposite order.
    proof fn lemma_key_order_flip(&self, other: &Self, ctx: &Self::Context)
        ensures
            other.key_order(self, ctx) == self.key_order(other, ctx).flip(),
    ;

    /// Compares this key with another.
    fn order_with(&self, other: &Self, ctx: &Self::Context) -> (r: Order)
        ensures
            r == self.key_order(other, ctx),
    ;
}

/// `p` lists each of `0..n` exactly once.
pub open spec fn is_permutation(p: Seq<usize>, n: nat) -> bool {
    &&& p.len() == n
    &&& forall|i: int| 0 <= i < p.len() ==> #[trigger] p[i] < n
    &&& forall|i: int, j: int| 0 <= i < j < p.len() ==> p[i] != p[j]
}

/// Neighbours in the arrangement `p` of the keys are in order, and neighbours with equal
/// keys keep the order they had among the keys.
pub open spec fn sorted_stably<K: SortKey>(keys: Seq<K>, p: Seq<usize>, ctx: &K::Context) -> bool {
    forall|k: int|
        #![trigger p[k], p[k + 1]]
        0 <= k < p.len() - 1 ==> {
            &&& keys[p[k] as int].key_order(&keys[p[k + 1] as int], ctx) != Order::Greater
            &&& (keys[p[k] as int].key_order(&keys[p[k + 1] as int], ctx) == Order::Equal ==> p[k] < p[k
                + 1])
        }
}

/// The arrangement of `0..keys.len()` that sorts the keys stably (an insertion sort).
pub fn stable_order<K: SortKey>(keys: &Vec<K>, ctx: &K::Context) -> (p: Vec<usize>)
    ensures
        is_permutation(p@, keys@.len()),
        sorted_stably(keys@, p@, ctx),
{
    let mut p: Vec<usize> = Vec::new();
    let mut i: usize = 0;
    while i < keys.len()
        invariant
            i <= keys.len(),
            is_permutation(p@, i as nat),
            sorted_stably(keys@, p@, ctx),
        decreases keys.len() - i,
    {
        let mut j: usize = p.len();
        while j > 0 && matches!(keys[p[j - 1]].order_with(&keys[i], ctx), Order::Greater)
            invariant
                j <= p.len(),
                p.len() == i,
                i < keys.len(),
                is_permutation(p@, i as nat),
                forall|t: int| j <= t < p.len() ==> #[trigger] keys@[p@[t] as int].key_order(&keys@[i as int], ctx)
                    == Order::Greater,
            decreases j,
        {
            j = j - 1;
        }
        let ghost old_p = p@;
        assert(j == 0 || keys@[old_p[j - 1] as int].key_order(&keys@[i as int], ctx) != Order::Greater);
        proof {
            if j < old_p.len() {
                keys@[old_p[j as int] as int].lemma_key_order_flip(&keys@[i as int], ctx);
            }
        }
        p.insert(j, i);
        proof {
            assert(p@ == old_p.insert(j as int, i));
            assert forall|a: int, b: int| 0 <= a < b < p@.len() implies p@[a] != p@[b] by {
                if a < j && b < j {
                } else if a < j && b == j {
                } else if a < j {
                    assert(p@[b] == old_p[b - 1]);
                } else if a == j {
                    assert(p@[b] == old_p[b - 1]);
                } else {
                    assert(p@[a] == old_p[a - 1]);
                    assert(p@[b] == old_p[b - 1]);
                }
            }
            assert forall|k: int| #![trigger p@[k], p@[k + 1]] 0 <= k < p@.len() - 1 implies {
                &&& keys@[p@[k] as int].key_order(&keys@[p@[k + 1] as int], ctx) != Order::Greater
                &&& (keys@[p@[k] as int].key_order(&keys@[p@[k + 1] as int], ctx) == Order::Equal ==> p@[k]
                    < p@[k + 1])
            } by {
                if k + 1 < j {
                    assert(p@[k] == old_p[k] && p@[k + 1] == old_p[k + 1]);
                } else if k + 1 == j {
                    assert(p@[k] == old_p[k]);
                    assert(p@[k + 1] == i);
                    assert(old_p[k] < i);
                } else if k == j {
                    assert(p@[k] == i);
                    assert(p@[k + 1] == old_p[k]);
                    assert(keys@[old_p[k] as int].key_order(&keys@[i as int], ctx) == Order::Greater);
                } else {
                    assert(p@[k] == old_p[k - 1] && p@[k + 1] == old_p[k]);
                }
            }
        }
        i = i + 1;
    }
    p
}

} // verus!
