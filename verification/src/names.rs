use vstd::prelude::*;
use crate::eval::texts;
use crate::value::{str_order, text_order, Order};

verus! {

/// Each text comes before every later one: the texts are sorted and distinct.
pub open spec fn strictly_sorted(v: Seq<Seq<char>>) -> bool {
    forall|i: int, j: int| 0 <= i < j < v.len() ==> text_order(#[trigger] v[i], #[trigger] v[j]) == Order::Less
}

/// The texts of a finite set in ascending order, each once (as a `BTreeSet` of strings
/// holds them).
pub open spec fn sorted_names(s: Set<Seq<char>>) -> Seq<Seq<char>> {
    choose|v: Seq<Seq<char>>| strictly_sorted(v) && v.to_set() == s
}

/// A text is equal to itself.
pub proof fn lemma_text_order_refl(a: Seq<char>)
    ensures
        text_order(a, a) == Order::Equal,
    decreases a.len(),
{
    if a.len() > 0 {
        lemma_text_order_refl(a.drop_first());
    }
}

/// Texts that compare equal are the same text.
pub proof fn lemma_text_order_equal(a: Seq<char>, b: Seq<char>)
    requires
        text_order(a, b) == Order::Equal,
    ensures
        a == b,
    decreases a.len(),
{
    if a.len() > 0 {
        lemma_text_order_equal(a.drop_first(), b.drop_first());
        vstd::utf8::char_u32_cast(a[0], a[0] as u32);
        vstd::utf8::char_u32_cast(b[0], b[0] as u32);
        assert(a[0] == b[0]);
        assert(a =~= seq![a[0]] + a.drop_first());
        assert(b =~= seq![b[0]] + b.drop_first());
    } else {
        assert(b.len() == 0);
        assert(a =~= b);
    }
}

/// The order of texts is transitive.
pub proof fn lemma_text_order_trans(a: Seq<char>, b: Seq<char>, c: Seq<char>)
    requires
        text_order(a, b) == Order::Less,
        text_order(b, c) == Order::Less,
    ensures
        text_order(a, c) == Order::Less,
    decreases a.len(),
{
    if a.len() > 0 && b.len() > 0 && c.len() > 0 && (a[0] as u32) == (b[0] as u32) && (b[0] as u32) == (
    c[0] as u32) {
        lemma_text_order_trans(a.drop_first(), b.drop_first(), c.drop_first());
    }
}

/// Two sorted lists of distinct texts with the same texts are the same list.
pub proof fn lemma_sorted_unique(a: Seq<Seq<char>>, b: Seq<Seq<char>>)
    requires
        strictly_sorted(a),
        strictly_sorted(b),
        a.to_set() == b.to_set(),
    ensures
        a == b,
    decreases a.len(),
{
    if a.len() == 0 {
        if b.len() > 0 {
            assert(b.to_set().contains(b[0]));
        }
        assert(a =~= b);
    } else {
        assert(a.to_set().contains(a[0]));
        assert(b.contains(a[0]));
        let j = choose|j: int| 0 <= j < b.len() && b[j] == a[0];
        assert(a.contains(b[0])) by {
            assert(b.to_set().contains(b[0]));
        }
        let i = choose|i: int| 0 <= i < a.len() && a[i] == b[0];
        if j > 0 {
            assert(text_order(b[0], b[j]) == Order::Less);
            if i > 0 {
                assert(text_order(a[0], a[i]) == Order::Less);
                crate::value::lemma_text_order_flip(a[0], a[i]);
            } else {
                lemma_text_order_refl(a[0]);
            }
        }
        assert(a[0] == b[0]);
        let a1 = a.drop_first();
        let b1 = b.drop_first();
        assert(strictly_sorted(a1)) by {
            assert forall|x: int, y: int| 0 <= x < y < a1.len() implies text_order(#[trigger] a1[x], #[trigger] a1[y])
                == Order::Less by {
                assert(a1[x] == a[x + 1] && a1[y] == a[y + 1]);
            }
        }
        assert(strictly_sorted(b1)) by {
            assert forall|x: int, y: int| 0 <= x < y < b1.len() implies text_order(#[trigger] b1[x], #[trigger] b1[y])
                == Order::Less by {
                assert(b1[x] == b[x + 1] && b1[y] == b[y + 1]);
            }
        }
        assert(a1.to_set() =~= b1.to_set()) by {
            assert forall|x: Seq<char>| a1.to_set().contains(x) implies b1.to_set().contains(x) by {
                let k = choose|k: int| 0 <= k < a1.len() && a1[k] == x;
                assert(a[k + 1] == x);
                assert(text_order(a[0], a[k + 1]) == Order::Less);
                lemma_text_order_refl(x);
                assert(a.to_set().contains(x));
                assert(b.contains(x));
                let m = choose|m: int| 0 <= m < b.len() && b[m] == x;
                assert(m != 0);
                assert(b1[m - 1] == x);
            }
            assert forall|x: Seq<char>| b1.to_set().contains(x) implies a1.to_set().contains(x) by {
                let k = choose|k: int| 0 <= k < b1.len() && b1[k] == x;
                assert(b[k + 1] == x);
                assert(text_order(b[0], b[k + 1]) == Order::Less);
                lemma_text_order_refl(x);
                assert(b.to_set().contains(x));
                assert(a.contains(x));
                let m = choose|m: int| 0 <= m < a.len() && a[m] == x;
                assert(m != 0);
                assert(a1[m - 1] == x);
            }
        }
        lemma_sorted_unique(a1, b1);
        assert(a =~= seq![a[0]] + a1);
        assert(b =~= seq![b[0]] + b1);
    }
}

/// A sorted list of distinct texts is the sorted list of its set.
pub proof fn lemma_sorted_names(v: Seq<Seq<char>>)
    requires
        strictly_sorted(v),
    ensures
        sorted_names(v.to_set()) == v,
{
    let w = sorted_names(v.to_set());
    assert(strictly_sorted(w) && w.to_set() == v.to_set());
    lemma_sorted_unique(w, v);
}

/// Adds a name to a sorted list of distinct names, where it is not there yet.
pub fn insert_name(v: &mut Vec<String>, x: String)
    requires
        strictly_sorted(texts(old(v)@)),
    ensures
        strictly_sorted(texts(final(v)@)),
        texts(final(v)@).to_set() == texts(old(v)@).to_set().insert(x@),
{
    let ghost old_t = texts(v@);
    let mut p: usize = 0;
    while p < v.len() && matches!(str_order(v[p].as_str(), x.as_str()), Order::Less)
        invariant
            p <= v.len(),
            old_t == texts(v@),
            strictly_sorted(old_t),
            forall|t: int| 0 <= t < p ==> text_order(#[trigger] old_t[t], x@) == Order::Less,
        decreases v.len() - p,
    {
        p = p + 1;
    }
    if p < v.len() && matches!(str_order(v[p].as_str(), x.as_str()), Order::Equal) {
        proof {
            lemma_text_order_equal(old_t[p as int], x@);
            assert(old_t.to_set().insert(x@) =~= old_t.to_set());
        }
        return;
    }
    proof {
        if p < v.len() {
            crate::value::lemma_text_order_flip(old_t[p as int], x@);
            assert(text_order(x@, old_t[p as int]) == Order::Less);
        }
    }
    v.insert(p, x);
    proof {
        let t = texts(v@);
        assert(t =~= old_t.insert(p as int, x@));
        assert forall|i: int, j: int| 0 <= i < j < t.len() implies text_order(#[trigger] t[i], #[trigger] t[j])
            == Order::Less by {
            if j < p {
                assert(t[i] == old_t[i] && t[j] == old_t[j]);
            } else if j == p {
                assert(t[i] == old_t[i]);
            } else if i < p {
                assert(t[i] == old_t[i] && t[j] == old_t[j - 1]);
                assert(text_order(x@, old_t[p as int]) == Order::Less);
                if j - 1 > p {
                    assert(text_order(old_t[p as int], old_t[j - 1]) == Order::Less);
                    lemma_text_order_trans(x@, old_t[p as int], old_t[j - 1]);
                }
                lemma_text_order_trans(old_t[i], x@, old_t[j - 1]);
            } else if i == p {
                assert(t[j] == old_t[j - 1]);
                if j - 1 > p {
                    assert(text_order(old_t[p as int], old_t[j - 1]) == Order::Less);
                    lemma_text_order_trans(x@, old_t[p as int], old_t[j - 1]);
                }
            } else {
                assert(t[i] == old_t[i - 1] && t[j] == old_t[j - 1]);
            }
        }
        assert(t.to_set() =~= old_t.to_set().insert(x@)) by {
            assert forall|y: Seq<char>| t.to_set().contains(y) implies old_t.to_set().insert(x@).contains(y) by {
                let k = choose|k: int| 0 <= k < t.len() && t[k] == y;
                if k < p {
                    assert(old_t[k] == y);
                } else if k > p {
                    assert(old_t[k - 1] == y);
                }
            }
            assert forall|y: Seq<char>| old_t.to_set().insert(x@).contains(y) implies t.to_set().contains(y) by {
                if y == x@ {
                    assert(t[p as int] == y);
                } else {
                    let k = choose|k: int| 0 <= k < old_t.len() && old_t[k] == y;
                    if k < p {
                        assert(t[k] == y);
                    } else {
                        assert(t[k + 1] == y);
                    }
                }
            }
        }
    }
}

} // verus!
