//! Sequences in strictly ascending order, and the one such sequence of a finite set.

use vstd::prelude::*;

verus! {

/// `lt` is a strict total order: irreflexive, transitive, and deciding between
/// any two different values.
pub open spec fn strict_total_order<T>(lt: spec_fn(T, T) -> bool) -> bool {
    &&& forall|a: T| !#[trigger] lt(a, a)
    &&& forall|a: T, b: T, c: T| #[trigger] lt(a, b) && #[trigger] lt(b, c) ==> lt(a, c)
    &&& forall|a: T, b: T| a == b || #[trigger] lt(a, b) || lt(b, a)
}

/// Every item of `s` comes strictly before the items behind it.
pub open spec fn ascending<T>(s: Seq<T>, lt: spec_fn(T, T) -> bool) -> bool {
    forall|i: int, j: int| 0 <= i < j < s.len() ==> #[trigger] lt(s[i], s[j])
}

/// The items of the set `s` in ascending order.
pub open spec fn in_order<T>(s: Set<T>, lt: spec_fn(T, T) -> bool) -> Seq<T> {
    choose|q: Seq<T>| ascending(q, lt) && q.to_set() == s
}

/// Two ascending sequences that hold the same items are the same sequence.
pub proof fn lemma_ascending_unique<T>(a: Seq<T>, b: Seq<T>, lt: spec_fn(T, T) -> bool)
    requires
        strict_total_order(lt),
        ascending(a, lt),
        ascending(b, lt),
        a.to_set() == b.to_set(),
    ensures
        a == b,
    decreases a.len(),
{
    if a.len() == 0 {
        if b.len() > 0 {
            assert(b.to_set().contains(b[0]));
            assert(a.to_set().contains(b[0]));
        }
        assert(a =~= b);
    } else if b.len() == 0 {
        assert(a.to_set().contains(a[0]));
        assert(b.to_set().contains(a[0]));
    } else {
        // Both heads are the least item of the common set.
        assert(a.to_set().contains(a[0]));
        assert(b.to_set().contains(a[0]));
        let k = choose|k: int| 0 <= k < b.len() && b[k] == a[0];
        assert(b.to_set().contains(b[0]));
        assert(a.to_set().contains(b[0]));
        let m = choose|m: int| 0 <= m < a.len() && a[m] == b[0];
        if k > 0 {
            assert(lt(b[0], b[k]));
            if m > 0 {
                assert(lt(a[0], a[m]));
                assert(lt(a[0], a[0]));
            }
            assert(lt(a[0], a[0]));
        }
        assert(a[0] == b[0]);
        let ta = a.drop_first();
        let tb = b.drop_first();
        assert forall|x: T| ta.to_set().contains(x) <==> tb.to_set().contains(x) by {
            if ta.to_set().contains(x) {
                let j = choose|j: int| 0 <= j < ta.len() && ta[j] == x;
                assert(a[j + 1] == x);
                assert(a.to_set().contains(x));
                assert(b.to_set().contains(x));
                let l = choose|l: int| 0 <= l < b.len() && b[l] == x;
                assert(lt(a[0], a[j + 1]));
                assert(l != 0);
                assert(tb[l - 1] == x);
            }
            if tb.to_set().contains(x) {
                let j = choose|j: int| 0 <= j < tb.len() && tb[j] == x;
                assert(b[j + 1] == x);
                assert(b.to_set().contains(x));
                assert(a.to_set().contains(x));
                let l = choose|l: int| 0 <= l < a.len() && a[l] == x;
                assert(lt(b[0], b[j + 1]));
                assert(l != 0);
                assert(ta[l - 1] == x);
            }
        }
        assert(ta.to_set() =~= tb.to_set());
        assert forall|i: int, j: int| 0 <= i < j < ta.len() implies #[trigger] lt(ta[i], ta[j]) by {
            assert(lt(a[i + 1], a[j + 1]));
        }
        assert forall|i: int, j: int| 0 <= i < j < tb.len() implies #[trigger] lt(tb[i], tb[j]) by {
            assert(lt(b[i + 1], b[j + 1]));
        }
        lemma_ascending_unique(ta, tb, lt);
        assert(a =~= seq![a[0]] + ta);
        assert(b =~= seq![b[0]] + tb);
    }
}

/// An ascending sequence is the ordered form of the set of its items.
pub proof fn lemma_in_order_is<T>(q: Seq<T>, lt: spec_fn(T, T) -> bool)
    requires
        strict_total_order(lt),
        ascending(q, lt),
    ensures
        in_order(q.to_set(), lt) == q,
{
    let s = q.to_set();
    let r = in_order(s, lt);
    assert(ascending(q, lt) && q.to_set() == s);
    lemma_ascending_unique(r, q, lt);
}

} // verus!
