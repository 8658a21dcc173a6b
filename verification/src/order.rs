//! Arranging a finite set along a strict total order: the arrangement is
//! unique, so "sorted by this key, ties by that one" names one list.

use vstd::prelude::*;

verus! {

/// `lt` is a strict total order.
pub open spec fn strict_order<A>(lt: spec_fn(A, A) -> bool) -> bool {
    &&& forall|x: A| !(#[trigger] lt(x, x))
    &&& forall|x: A, y: A, z: A| #[trigger] lt(x, y) && #[trigger] lt(y, z) ==> lt(x, z)
    &&& forall|x: A, y: A| x != y ==> #[trigger] lt(x, y) || #[trigger] lt(y, x)
}

/// Every element of `s` comes before every later one.
pub open spec fn ordered_by<A>(s: Seq<A>, lt: spec_fn(A, A) -> bool) -> bool {
    forall|i: int, j: int| 0 <= i < j < s.len() ==> lt(#[trigger] s[i], #[trigger] s[j])
}

/// The elements of `set` listed along `lt`.
pub open spec fn arranged<A>(set: Set<A>, lt: spec_fn(A, A) -> bool) -> Seq<A> {
    choose|s: Seq<A>| ordered_by(s, lt) && s.to_set() == set
}

/// Two lists of the same elements, both along a strict total order, are the
/// same list.
pub proof fn lemma_ordered_unique<A>(a: Seq<A>, b: Seq<A>, lt: spec_fn(A, A) -> bool)
    requires
        strict_order(lt),
        ordered_by(a, lt),
        ordered_by(b, lt),
        a.to_set() == b.to_set(),
    ensures
        a == b,
    decreases a.len(),
{
    if a.len() == 0 {
        if b.len() > 0 {
            assert(b.to_set().contains(b[0]));
        }
        assert(a =~= b);
    } else {
        assert(a.to_set().contains(a[0]));
        assert(b.to_set().contains(b[0]));
        let k = choose|k: int| 0 <= k < b.len() && b[k] == a[0];
        let m = choose|m: int| 0 <= m < a.len() && a[m] == b[0];
        if k > 0 && m > 0 {
            assert(lt(b[0], b[k]));
            assert(lt(a[0], a[m]));
            assert(lt(a[0], a[0]));
        }
        assert(a[0] == b[0]);
        let a1 = a.drop_first();
        let b1 = b.drop_first();
        assert forall|x: A| a1.to_set().contains(x) == b1.to_set().contains(x) by {
            if a1.to_set().contains(x) {
                let i = choose|i: int| 0 <= i < a1.len() && a1[i] == x;
                assert(a[i + 1] == x);
                assert(lt(a[0], a[i + 1]));
                assert(a.to_set().contains(x));
                assert(b.to_set().contains(x));
                let j = choose|j: int| 0 <= j < b.len() && b[j] == x;
                assert(j != 0);
                assert(b1[j - 1] == x);
            }
            if b1.to_set().contains(x) {
                let i = choose|i: int| 0 <= i < b1.len() && b1[i] == x;
                assert(b[i + 1] == x);
                assert(lt(b[0], b[i + 1]));
                assert(b.to_set().contains(x));
                assert(a.to_set().contains(x));
                let j = choose|j: int| 0 <= j < a.len() && a[j] == x;
                assert(j != 0);
                assert(a1[j - 1] == x);
            }
        }
        assert(a1.to_set() =~= b1.to_set());
        assert forall|i: int, j: int| 0 <= i < j < a1.len() implies lt(#[trigger] a1[i], #[trigger] a1[j]) by {
            assert(lt(a[i + 1], a[j + 1]));
        }
        assert forall|i: int, j: int| 0 <= i < j < b1.len() implies lt(#[trigger] b1[i], #[trigger] b1[j]) by {
            assert(lt(b[i + 1], b[j + 1]));
        }
        lemma_ordered_unique(a1, b1, lt);
        assert forall|i: int| 0 <= i < a.len() implies a[i] == b[i] by {
            if i > 0 {
                assert(a[i] == a1[i - 1]);
                assert(b[i] == b1[i - 1]);
            }
        }
        assert(a =~= b);
    }
}

/// A list along a strict total order is the arrangement of its elements.
pub proof fn lemma_is_arranged<A>(s: Seq<A>, lt: spec_fn(A, A) -> bool)
    requires
        strict_order(lt),
        ordered_by(s, lt),
    ensures
        arranged(s.to_set(), lt) == s,
{
    let t = arranged(s.to_set(), lt);
    assert(ordered_by(t, lt) && t.to_set() == s.to_set());
    lemma_ordered_unique(t, s, lt);
}

/// Inserting `x` at `j`, after every element before it and before every
/// element from `j` on, keeps a list along `lt`.
pub proof fn lemma_insert_ordered<A>(s: Seq<A>, j: int, x: A, lt: spec_fn(A, A) -> bool)
    requires
        strict_order(lt),
        ordered_by(s, lt),
        0 <= j <= s.len(),
        forall|t: int| 0 <= t < j ==> lt(#[trigger] s[t], x),
        j < s.len() ==> lt(x, s[j]),
    ensures
        ordered_by(s.insert(j, x), lt),
        s.insert(j, x).to_set() == s.to_set().insert(x),
{
    let n = s.insert(j, x);
    assert forall|a: int, b: int| 0 <= a < b < n.len() implies lt(#[trigger] n[a], #[trigger] n[b]) by {
        if b < j {
            assert(lt(s[a], s[b]));
        } else if b == j {
            assert(lt(s[a], x));
        } else if a < j {
            assert(lt(s[a], x));
            assert(lt(x, s[j]));
            if b - 1 > j {
                assert(lt(s[j], s[b - 1]));
                assert(lt(x, s[b - 1]));
            }
            assert(lt(s[a], s[b - 1]));
        } else if a == j {
            assert(lt(x, s[j]));
            if b - 1 > j {
                assert(lt(s[j], s[b - 1]));
            }
        } else {
            assert(lt(s[a - 1], s[b - 1]));
        }
    }
    assert forall|y: A| n.to_set().contains(y) == s.to_set().insert(x).contains(y) by {
        if n.contains(y) {
            let k = choose|k: int| 0 <= k < n.len() && n[k] == y;
            if k < j {
                assert(s[k] == y);
            } else if k > j {
                assert(s[k - 1] == y);
            }
        }
        if s.contains(y) {
            let k = choose|k: int| 0 <= k < s.len() && s[k] == y;
            if k < j {
                assert(n[k] == y);
            } else {
                assert(n[k + 1] == y);
            }
        }
        if y == x {
            assert(n[j] == x);
        }
    }
    assert(n.to_set() =~= s.to_set().insert(x));
}

} // verus!
