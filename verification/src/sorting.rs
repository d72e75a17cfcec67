//! Stable insertion sort of values by an order on their views.
use vstd::prelude::*;

verus! {

/// An order on the views of `T`, with an executable comparison.
pub trait Order<T: View> {
    /// `a` may come before `b`.
    spec fn le(a: T::V, b: T::V) -> bool;

    fn exec_le(a: &T, b: &T) -> (r: bool)
        ensures
            r == Self::le(a@, b@),
    ;
}

pub open spec fn views<T: View>(s: Seq<T>) -> Seq<T::V> {
    s.map_values(|t: T| t@)
}

/// Inserts `x` after the last element of `s` that may come before it
/// (scanning from the end), as an insertion sort does.
pub open spec fn insert_ordered<T: View, O: Order<T>>(s: Seq<T::V>, x: T::V) -> Seq<T::V>
    decreases s.len(),
{
    if s.len() == 0 {
        seq![x]
    } else if O::le(s.last(), x) {
        s.push(x)
    } else {
        insert_ordered::<T, O>(s.drop_last(), x).push(s.last())
    }
}

/// The stable sort of `s` by the order `O`: equal elements keep their order.
pub open spec fn sort_ordered<T: View, O: Order<T>>(s: Seq<T::V>) -> Seq<T::V>
    decreases s.len(),
{
    if s.len() == 0 {
        s
    } else {
        insert_ordered::<T, O>(sort_ordered::<T, O>(s.drop_last()), s.last())
    }
}

/// Every pair of elements is in order.
pub open spec fn is_ordered<T: View, O: Order<T>>(s: Seq<T::V>) -> bool {
    forall|i: int, j: int| 0 <= i < j < s.len() ==> O::le(s[i], s[j])
}

/// `O` is a total preorder.
pub open spec fn total_preorder<T: View, O: Order<T>>() -> bool {
    &&& forall|a: T::V, b: T::V| O::le(a, b) || O::le(b, a)
    &&& forall|a: T::V, b: T::V, c: T::V| O::le(a, b) && O::le(b, c) ==> O::le(a, c)
}

fn insert_in_order<T: View, O: Order<T>>(v: &mut Vec<T>, x: T)
    ensures
        views(final(v)@) == insert_ordered::<T, O>(views(old(v)@), x@),
{
    let ghost vw = views(v@);
    let mut j = v.len();
    assert(vw.take(j as int) =~= vw);
    assert(vw.skip(j as int) =~= Seq::<T::V>::empty());
    loop
        invariant
            j <= v.len(),
            vw == views(v@),
            v@ == old(v)@,
            insert_ordered::<T, O>(vw, x@) == insert_ordered::<T, O>(vw.take(j as int), x@) + vw.skip(
                j as int,
            ),
        ensures
            j <= v.len(),
            vw == views(v@),
            v@ == old(v)@,
            insert_ordered::<T, O>(vw, x@) == insert_ordered::<T, O>(vw.take(j as int), x@) + vw.skip(
                j as int,
            ),
            j == 0 || O::le(vw[j - 1], x@),
        decreases j,
    {
        if j == 0 {
            break;
        }
        if O::exec_le(&v[j - 1], &x) {
            break;
        }
        proof {
            let t = vw.take(j as int);
            assert(t.drop_last() =~= vw.take(j - 1));
            assert(t.last() == vw[j - 1]);
            assert(insert_ordered::<T, O>(t, x@) == insert_ordered::<T, O>(vw.take(j - 1), x@).push(
                vw[j - 1],
            ));
            assert(insert_ordered::<T, O>(vw.take(j - 1), x@).push(vw[j - 1]) + vw.skip(j as int)
                =~= insert_ordered::<T, O>(vw.take(j - 1), x@) + vw.skip(j - 1));
        }
        j = j - 1;
    }
    proof {
        if j == 0 {
            assert(vw.take(0) =~= Seq::<T::V>::empty());
        } else {
            assert(vw.take(j as int).last() == vw[j - 1]);
        }
    }
    v.insert(j, x);
    assert(views(v@) =~= vw.take(j as int).push(x@) + vw.skip(j as int));
}

/// Sorts `v` stably by the order `O`.
pub fn sort_in_order<T: View, O: Order<T>>(v: Vec<T>) -> (r: Vec<T>)
    ensures
        views(r@) == sort_ordered::<T, O>(views(v@)),
{
    let ghost vv = views(v@);
    let mut rest = v;
    let mut sorted: Vec<T> = Vec::new();
    let n = rest.len();
    let mut k: usize = 0;
    assert(vv.skip(0) =~= vv);
    while rest.len() > 0
        invariant
            k + rest.len() == n,
            vv.len() == n,
            views(rest@) == vv.skip(k as int),
            views(sorted@) == sort_ordered::<T, O>(vv.take(k as int)),
        decreases rest.len(),
    {
        let ghost before = rest@;
        let x = rest.remove(0);
        proof {
            assert(views(before)[0] == vv[k as int]);
            assert(vv.take(k + 1).drop_last() =~= vv.take(k as int));
            assert(vv.take(k + 1).last() == vv[k as int]);
            assert(rest@ =~= before.skip(1));
            assert forall|i: int| 0 <= i < rest@.len() implies #[trigger] views(rest@)[i] == vv.skip(
                k + 1,
            )[i] by {
                assert(views(rest@)[i] == rest@[i]@);
                assert(rest@[i] == before[i + 1]);
                assert(views(before)[i + 1] == before[i + 1]@);
                assert(vv.skip(k as int)[i + 1] == vv.skip(k + 1)[i]);
            }
            assert(views(rest@) =~= vv.skip(k + 1));
        }
        insert_in_order::<T, O>(&mut sorted, x);
        k = k + 1;
    }
    assert(vv.take(k as int) =~= vv);
    sorted
}

/// Inserting adds one element.
pub proof fn lemma_insert_ordered_len<T: View, O: Order<T>>(s: Seq<T::V>, x: T::V)
    ensures
        insert_ordered::<T, O>(s, x).len() == s.len() + 1,
    decreases s.len(),
{
    if s.len() > 0 && !O::le(s.last(), x) {
        lemma_insert_ordered_len::<T, O>(s.drop_last(), x);
    }
}

/// Sorting keeps the length.
pub proof fn lemma_sort_ordered_len<T: View, O: Order<T>>(s: Seq<T::V>)
    ensures
        sort_ordered::<T, O>(s).len() == s.len(),
    decreases s.len(),
{
    if s.len() > 0 {
        lemma_sort_ordered_len::<T, O>(s.drop_last());
        lemma_insert_ordered_len::<T, O>(sort_ordered::<T, O>(s.drop_last()), s.last());
    }
}

proof fn lemma_insert_ordered<T: View, O: Order<T>>(s: Seq<T::V>, x: T::V)
    requires
        total_preorder::<T, O>(),
        is_ordered::<T, O>(s),
    ensures
        is_ordered::<T, O>(insert_ordered::<T, O>(s, x)),
        insert_ordered::<T, O>(s, x).to_multiset() == s.to_multiset().insert(x),
        forall|k: int|
            0 <= k < insert_ordered::<T, O>(s, x).len() ==> #[trigger] insert_ordered::<T, O>(s, x)[k]
                == x || s.contains(insert_ordered::<T, O>(s, x)[k]),
    decreases s.len(),
{
    broadcast use vstd::seq_lib::group_to_multiset_ensures;

    lemma_insert_ordered_len::<T, O>(s, x);
    if s.len() == 0 {
        assert(seq![x] =~= Seq::<T::V>::empty().push(x));
    } else if O::le(s.last(), x) {
        let r = s.push(x);
        assert forall|i: int, j: int| 0 <= i < j < r.len() implies O::le(r[i], r[j]) by {
            if j == s.len() && i < s.len() - 1 {
                assert(O::le(s[i], s.last()));
            }
        }
        assert forall|k: int| 0 <= k < r.len() implies #[trigger] r[k] == x || s.contains(r[k]) by {
            if k < s.len() {
                assert(s[k] == r[k]);
            }
        }
    } else {
        let t = s.drop_last();
        let l = s.last();
        assert(is_ordered::<T, O>(t));
        lemma_insert_ordered::<T, O>(t, x);
        let inner = insert_ordered::<T, O>(t, x);
        let r = inner.push(l);
        assert forall|i: int, j: int| 0 <= i < j < r.len() implies O::le(r[i], r[j]) by {
            if j == inner.len() {
                assert(r[i] == inner[i]);
                if inner[i] != x {
                    assert(t.contains(inner[i]));
                    let k = choose|k: int| 0 <= k < t.len() && t[k] == inner[i];
                    assert(s[k] == t[k]);
                }
            }
        }
        assert forall|k: int| 0 <= k < r.len() implies #[trigger] r[k] == x || s.contains(r[k]) by {
            if k < inner.len() {
                assert(r[k] == inner[k]);
                if inner[k] != x {
                    let m = choose|m: int| 0 <= m < t.len() && t[m] == inner[k];
                    assert(s[m] == t[m]);
                }
            } else {
                assert(s[s.len() - 1] == l);
            }
        }
        assert(s =~= t.push(l));
    }
}

/// For a total preorder, the sort gives the same elements, in order.
pub proof fn lemma_sort_ordered<T: View, O: Order<T>>(s: Seq<T::V>)
    requires
        total_preorder::<T, O>(),
    ensures
        is_ordered::<T, O>(sort_ordered::<T, O>(s)),
        sort_ordered::<T, O>(s).to_multiset() == s.to_multiset(),
        sort_ordered::<T, O>(s).len() == s.len(),
    decreases s.len(),
{
    broadcast use vstd::seq_lib::group_to_multiset_ensures;

    lemma_sort_ordered_len::<T, O>(s);
    if s.len() > 0 {
        lemma_sort_ordered::<T, O>(s.drop_last());
        lemma_insert_ordered::<T, O>(sort_ordered::<T, O>(s.drop_last()), s.last());
        assert(s =~= s.drop_last().push(s.last()));
    }
}

} // verus!
