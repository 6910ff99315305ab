//! A deterministic, stable insertion sort at the specification level.
//!
//! The archive's contracts pin sorted results exactly — not merely "some
//! sorted permutation" — so that rebuilding from the same input provably
//! yields the same archive. `sort_ord` is that pinned order: it inserts
//! each element, in input order, before the first already-placed element
//! it may precede, so elements that compare equal keep their input order.

use vstd::prelude::*;

verus! {

/// Whether consecutive elements of `s` are all related by `leq`.
pub open spec fn ordered<T>(s: Seq<T>, leq: spec_fn(T, T) -> bool) -> bool {
    forall|i: int, j: int| 0 <= i < j < s.len() ==> leq(s[i], s[j])
}

/// `x` inserted before the first element of `s` that it may precede.
pub open spec fn insert_ord<T>(x: T, s: Seq<T>, leq: spec_fn(T, T) -> bool) -> Seq<T>
    decreases s.len(),
{
    if s.len() == 0 {
        seq![x]
    } else if leq(x, s[0]) {
        seq![x] + s
    } else {
        seq![s[0]] + insert_ord(x, s.drop_first(), leq)
    }
}

/// `s` sorted by repeated ordered insertion, front to back.
pub open spec fn sort_ord<T>(s: Seq<T>, leq: spec_fn(T, T) -> bool) -> Seq<T>
    decreases s.len(),
{
    if s.len() == 0 {
        Seq::empty()
    } else {
        insert_ord(s[0], sort_ord(s.drop_first(), leq), leq)
    }
}

/// Ordered insertion keeps the order, provided `leq` is total and
/// transitive.
pub proof fn lemma_insert_ord_ordered<T>(x: T, s: Seq<T>, leq: spec_fn(T, T) -> bool)
    requires
        ordered(s, leq),
        forall|a: T, b: T| #[trigger] leq(a, b) || leq(b, a),
        forall|a: T, b: T, c: T| #[trigger] leq(a, b) && #[trigger] leq(b, c) ==> leq(a, c),
    ensures
        ordered(insert_ord(x, s, leq), leq),
    decreases s.len(),
{
    if s.len() == 0 {
    } else if leq(x, s[0]) {
        let r = seq![x] + s;
        assert forall|i: int, j: int| 0 <= i < j < r.len() implies leq(r[i], r[j]) by {
            if i == 0 {
                if j == 1 {
                    assert(r[j] == s[0]);
                } else {
                    assert(leq(s[0], s[j - 1]));
                }
            } else {
                assert(leq(s[i - 1], s[j - 1]));
            }
        }
    } else {
        assert(ordered(s.drop_first(), leq)) by {
            assert(forall|i: int, j: int|
                0 <= i < j < s.drop_first().len() ==> leq(
                    #[trigger] s.drop_first()[i],
                    #[trigger] s.drop_first()[j],
                ));
        };
        lemma_insert_ord_ordered(x, s.drop_first(), leq);
        let t = insert_ord(x, s.drop_first(), leq);
        let r = seq![s[0]] + t;
        assert(leq(s[0], x));
        assert forall|i: int, j: int| 0 <= i < j < r.len() implies leq(r[i], r[j]) by {
            if i == 0 {
                assert(leq(s[0], t[j - 1])) by {
                    lemma_insert_ord_membership(x, s.drop_first(), leq, j - 1);
                }
            } else {
                assert(leq(t[i - 1], t[j - 1]));
            }
        }
    }
}

/// Every element of an ordered insertion is the inserted element or one of
/// the original elements.
pub proof fn lemma_insert_ord_membership<T>(
    x: T,
    s: Seq<T>,
    leq: spec_fn(T, T) -> bool,
    k: int,
)
    requires
        0 <= k < insert_ord(x, s, leq).len(),
    ensures
        insert_ord(x, s, leq).len() == s.len() + 1,
        insert_ord(x, s, leq)[k] == x || s.contains(insert_ord(x, s, leq)[k]),
    decreases s.len(),
{
    lemma_insert_ord_len(x, s, leq);
    if s.len() == 0 {
    } else if leq(x, s[0]) {
        if k > 0 {
            assert(insert_ord(x, s, leq)[k] == s[k - 1]);
        }
    } else {
        if k > 0 {
            lemma_insert_ord_membership(x, s.drop_first(), leq, k - 1);
            let e = insert_ord(x, s.drop_first(), leq)[k - 1];
            assert(insert_ord(x, s, leq)[k] == e);
            if e != x {
                let i = choose|i: int| 0 <= i < s.drop_first().len() && s.drop_first()[i] == e;
                assert(s[i + 1] == e);
            }
        }
    }
}

/// Ordered insertion adds exactly one element.
pub proof fn lemma_insert_ord_len<T>(x: T, s: Seq<T>, leq: spec_fn(T, T) -> bool)
    ensures
        insert_ord(x, s, leq).len() == s.len() + 1,
    decreases s.len(),
{
    if s.len() == 0 {
    } else if leq(x, s[0]) {
    } else {
        lemma_insert_ord_len(x, s.drop_first(), leq);
    }
}

/// Sorting keeps the length.
pub proof fn lemma_sort_ord_len<T>(s: Seq<T>, leq: spec_fn(T, T) -> bool)
    ensures
        sort_ord(s, leq).len() == s.len(),
    decreases s.len(),
{
    if s.len() > 0 {
        lemma_sort_ord_len(s.drop_first(), leq);
        lemma_insert_ord_len(s[0], sort_ord(s.drop_first(), leq), leq);
    }
}

/// The sorted sequence is ordered, provided `leq` is total and transitive.
pub proof fn lemma_sort_ord_ordered<T>(s: Seq<T>, leq: spec_fn(T, T) -> bool)
    requires
        forall|a: T, b: T| #[trigger] leq(a, b) || leq(b, a),
        forall|a: T, b: T, c: T| #[trigger] leq(a, b) && #[trigger] leq(b, c) ==> leq(a, c),
    ensures
        ordered(sort_ord(s, leq), leq),
    decreases s.len(),
{
    if s.len() == 0 {
    } else {
        lemma_sort_ord_ordered(s.drop_first(), leq);
        lemma_insert_ord_ordered(s[0], sort_ord(s.drop_first(), leq), leq);
    }
}

/// Sorting keeps the elements: the result is a permutation of the input.
pub proof fn lemma_sort_ord_multiset<T>(s: Seq<T>, leq: spec_fn(T, T) -> bool)
    ensures
        sort_ord(s, leq).to_multiset() == s.to_multiset(),
    decreases s.len(),
{
    broadcast use vstd::seq_lib::group_to_multiset_ensures;

    if s.len() == 0 {
    } else {
        lemma_sort_ord_multiset(s.drop_first(), leq);
        lemma_insert_ord_multiset(s[0], sort_ord(s.drop_first(), leq), leq);
        assert(s =~= seq![s[0]] + s.drop_first());
        lemma_multiset_of_cons(s[0], s.drop_first());
    }
}

/// Ordered insertion adds exactly the inserted element to the multiset.
pub proof fn lemma_insert_ord_multiset<T>(x: T, s: Seq<T>, leq: spec_fn(T, T) -> bool)
    ensures
        insert_ord(x, s, leq).to_multiset() == s.to_multiset().insert(x),
    decreases s.len(),
{
    broadcast use vstd::seq_lib::group_to_multiset_ensures;

    if s.len() == 0 {
        assert(seq![x] =~= Seq::<T>::empty().push(x));
    } else if leq(x, s[0]) {
        lemma_multiset_of_cons(x, s);
    } else {
        lemma_insert_ord_multiset(x, s.drop_first(), leq);
        lemma_multiset_of_cons(s[0], insert_ord(x, s.drop_first(), leq));
        lemma_multiset_of_cons(s[0], s.drop_first());
        assert(s =~= seq![s[0]] + s.drop_first());
        assert(s.to_multiset().insert(x) == s.drop_first().to_multiset().insert(s[0]).insert(x));
        lemma_multiset_insert_swap(s.drop_first().to_multiset(), x, s[0]);
    }
}

/// Prepending one element inserts it into the multiset.
pub proof fn lemma_multiset_of_cons<T>(x: T, s: Seq<T>)
    ensures
        (seq![x] + s).to_multiset() == s.to_multiset().insert(x),
    decreases s.len(),
{
    broadcast use vstd::seq_lib::group_to_multiset_ensures;

    if s.len() == 0 {
        assert(seq![x] + s =~= Seq::<T>::empty().push(x));
    } else {
        assert(seq![x] + s =~= (seq![x] + s.drop_last()).push(s.last()));
        assert(s =~= s.drop_last().push(s.last()));
        lemma_multiset_of_cons(x, s.drop_last());
        assert((seq![x] + s).to_multiset() == (seq![x] + s.drop_last()).to_multiset().insert(
            s.last(),
        ));
        assert(s.to_multiset() == s.drop_last().to_multiset().insert(s.last()));
        lemma_multiset_insert_swap(s.drop_last().to_multiset(), x, s.last());
    }
}

/// Two insertions into a multiset commute.
proof fn lemma_multiset_insert_swap<T>(m: vstd::multiset::Multiset<T>, x: T, y: T)
    ensures
        m.insert(x).insert(y) == m.insert(y).insert(x),
{
    broadcast use vstd::multiset::group_multiset_axioms;

    assert(m.insert(x).insert(y) =~= m.insert(y).insert(x));
}

/// Where the scan of an ordered insertion stops: if `x` may precede none of
/// the first `pos` elements but may precede the element at `pos` (or `pos`
/// is the end), the insertion splits `s` exactly there.
pub proof fn lemma_insert_ord_split<T>(x: T, s: Seq<T>, leq: spec_fn(T, T) -> bool, pos: int)
    requires
        0 <= pos <= s.len(),
        forall|k: int| 0 <= k < pos ==> !leq(x, #[trigger] s[k]),
        pos < s.len() ==> leq(x, s[pos]),
    ensures
        insert_ord(x, s, leq) == s.take(pos) + seq![x] + s.skip(pos),
    decreases pos,
{
    if pos == 0 {
        if s.len() == 0 {
            assert(insert_ord(x, s, leq) =~= s.take(0) + seq![x] + s.skip(0));
        } else {
            assert(leq(x, s[0]));
            assert(insert_ord(x, s, leq) =~= s.take(0) + seq![x] + s.skip(0));
        }
    } else {
        assert(!leq(x, s[0]));
        assert(forall|k: int|
            0 <= k < pos - 1 ==> !leq(x, #[trigger] s.drop_first()[k]) && s.drop_first()[k] == s[k
                + 1]);
        if pos - 1 < s.drop_first().len() {
            assert(s.drop_first()[pos - 1] == s[pos]);
        }
        lemma_insert_ord_split(x, s.drop_first(), leq, pos - 1);
        assert(insert_ord(x, s, leq) =~= s.take(pos) + seq![x] + s.skip(pos)) by {
            assert(insert_ord(x, s, leq) == seq![s[0]] + insert_ord(x, s.drop_first(), leq));
            assert(insert_ord(x, s.drop_first(), leq) == s.drop_first().take(pos - 1) + seq![x]
                + s.drop_first().skip(pos - 1));
            assert(s.drop_first().take(pos - 1) =~= s.take(pos).drop_first());
            assert(s.drop_first().skip(pos - 1) =~= s.skip(pos));
        };
    }
}

} // verus!
