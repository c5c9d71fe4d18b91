//! The dot product of two arrays.

use vstd::prelude::*;

use crate::scalar::{vals_of, Scalar};

verus! {

/// The sum of the pairwise products of `a` and `b`, taken from left to right over the
/// positions of `a`.
pub open spec fn dot_seq(a: Seq<int>, b: Seq<int>) -> int
    decreases a.len(),
{
    if a.len() == 0 {
        0
    } else {
        dot_seq(a.drop_last(), b) + a.last() * b[a.len() - 1]
    }
}

/// Every product and every partial sum of `dot_seq(a, b)` can be held by `T`.
pub open spec fn dot_fits<T: Scalar>(a: Seq<int>, b: Seq<int>) -> bool {
    forall|k: int|
        0 <= k < a.len() ==> #[trigger] T::fits(a[k] * b[k]) && T::fits(dot_seq(a.take(k + 1), b))
}

/// The dot product of two arrays of equal length, summed from left to right.
pub fn arr_dot<T: Scalar, const M: usize>(a: [T; M], b: [T; M]) -> (r: T)
    requires
        dot_fits::<T>(vals_of(a@), vals_of(b@)),
    ensures
        r.val() == dot_seq(vals_of(a@), vals_of(b@)),
{
    let ghost va = vals_of(a@);
    let ghost vb = vals_of(b@);
    let mut acc = T::zero();
    let mut i: usize = 0;
    assert(va.take(0) =~= Seq::<int>::empty());
    while i < M
        invariant
            0 <= i <= M,
            va.len() == M,
            vb.len() == M,
            va == vals_of(a@),
            vb == vals_of(b@),
            dot_fits::<T>(va, vb),
            acc.val() == dot_seq(va.take(i as int), vb),
        decreases M - i,
    {
        assert(T::fits(va[i as int] * vb[i as int]));
        let p = a[i].times(b[i]);
        assert(va.take(i as int + 1).drop_last() =~= va.take(i as int));
        acc = acc.plus(p);
        i = i + 1;
    }
    assert(va.take(M as int) =~= va);
    acc
}

/// The dot product when every product and partial sum fits in `T`; None exactly when one
/// does not.
pub fn checked_arr_dot<T: Scalar, const M: usize>(a: [T; M], b: [T; M]) -> (r: Option<T>)
    ensures
        r is Some <==> dot_fits::<T>(vals_of(a@), vals_of(b@)),
        r matches Some(d) ==> d.val() == dot_seq(vals_of(a@), vals_of(b@)),
{
    let ghost va = vals_of(a@);
    let ghost vb = vals_of(b@);
    let mut acc = T::zero();
    let mut i: usize = 0;
    assert(va.take(0) =~= Seq::<int>::empty());
    while i < M
        invariant
            0 <= i <= M,
            va.len() == M,
            vb.len() == M,
            va == vals_of(a@),
            vb == vals_of(b@),
            forall|k: int|
                0 <= k < i ==> T::fits(#[trigger] va[k] * vb[k]) && T::fits(
                    dot_seq(va.take(k + 1), vb),
                ),
            acc.val() == dot_seq(va.take(i as int), vb),
        decreases M - i,
    {
        assert(va.take(i as int + 1).drop_last() =~= va.take(i as int));
        let p = match a[i].checked_times(b[i]) {
            Some(p) => p,
            None => {
                assert(!T::fits(va[i as int] * vb[i as int]));
                return None;
            },
        };
        acc = match acc.checked_plus(p) {
            Some(s) => s,
            None => {
                assert(!T::fits(dot_seq(va.take(i as int + 1), vb)));
                return None;
            },
        };
        assert(T::fits(va[i as int] * vb[i as int]));
        assert(acc.val() == dot_seq(va.take(i as int + 1), vb));
        assert(T::fits(dot_seq(va.take(i as int + 1), vb))) by {
            T::lemma_val_fits(acc);
        }
        i = i + 1;
    }
    assert(va.take(M as int) =~= va);
    assert forall|k: int| 0 <= k < va.len() implies #[trigger] T::fits(va[k] * vb[k]) && T::fits(
        dot_seq(va.take(k + 1), vb),
    ) by {
        assert(T::fits(va[k] * vb[k]));
    }
    Some(acc)
}

} // verus!
