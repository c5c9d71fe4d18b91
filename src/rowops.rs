//! Row operations on a square row-major buffer: exchanging two rows, combining one row
//! with another, and finding a pivot.

use vstd::prelude::*;

use crate::mat::{lemma_flat_index, lemma_unflatten};
use crate::scalar::{vals_of, Scalar};

verus! {

/// Rows `i` and `p` of an `n x n` row-major buffer exchanged.
pub open spec fn swap_rows(s: Seq<int>, n: int, i: int, p: int) -> Seq<int> {
    Seq::new(
        s.len(),
        |x: int|
            if x / n == i {
                s[p * n + x % n]
            } else if x / n == p {
                s[i * n + x % n]
            } else {
                s[x]
            },
    )
}

/// Row `j` replaced by `c1 * row_j - c2 * row_i`.
pub open spec fn combine_rows(s: Seq<int>, n: int, j: int, i: int, c1: int, c2: int) -> Seq<int> {
    Seq::new(
        s.len(),
        |x: int|
            if x / n == j {
                c1 * s[x] - c2 * s[i * n + x % n]
            } else {
                s[x]
            },
    )
}

/// Every value that `combine_rows(s, n, j, i, c1, c2)` computes fits in `T`.
pub open spec fn combine_fits<T: Scalar>(s: Seq<int>, n: int, j: int, i: int, c1: int, c2: int) -> bool {
    forall|k: int|
        0 <= k < n ==> {
            &&& T::fits(c1 * #[trigger] s[j * n + k])
            &&& T::fits(c2 * s[i * n + k])
            &&& T::fits(c1 * s[j * n + k] - c2 * s[i * n + k])
        }
}

/// The first row at or after `p` whose element in column `i` is not zero, or `n` if none is.
pub open spec fn find_pivot(s: Seq<int>, n: int, i: int, p: int) -> int
    decreases n - p,
{
    if p >= n {
        n
    } else if s[p * n + i] != 0 {
        p
    } else {
        find_pivot(s, n, i, p + 1)
    }
}

/// The pivot search ends between its start and `n`, on a non-zero element if before `n`.
pub(crate) proof fn lemma_find_pivot_range(s: Seq<int>, n: int, i: int, p: int)
    requires
        0 <= p <= n,
    ensures
        p <= find_pivot(s, n, i, p) <= n,
        find_pivot(s, n, i, p) < n ==> s[find_pivot(s, n, i, p) * n + i] != 0,
    decreases n - p,
{
    if p < n && s[p * n + i] == 0 {
        lemma_find_pivot_range(s, n, i, p + 1);
    }
}

/// The first row at or after `i` whose element in column `i` is not zero, or `n`.
pub(crate) fn pivot_row<T: Scalar, const LEN: usize>(a: &[T; LEN], n: usize, i: usize) -> (p: usize)
    requires
        n * n == LEN,
        i < n,
    ensures
        p as int == find_pivot(vals_of(a@), n as int, i as int, i as int),
        i <= p <= n,
{
    let ghost s = vals_of(a@);
    let mut p: usize = i;
    while p < n
        invariant
            i <= p <= n,
            n * n == LEN,
            s == vals_of(a@),
            find_pivot(s, n as int, i as int, i as int) == find_pivot(s, n as int, i as int, p as int),
        decreases n - p,
    {
        proof {
            lemma_flat_index(p as int, i as int, n as int, n as int);
        }
        if !a[p * n + i].is_zero() {
            return p;
        }
        p = p + 1;
    }
    p
}

/// Exchanges rows `i` and `p` of an `n x n` buffer.
pub(crate) fn swap_rows_in<T: Scalar, const LEN: usize>(a: &mut [T; LEN], n: usize, i: usize, p: usize)
    requires
        n * n == LEN,
        i < n,
        p < n,
    ensures
        vals_of(final(a)@) == swap_rows(vals_of(old(a)@), n as int, i as int, p as int),
{
    let ghost s = vals_of(a@);
    let ghost ni = n as int;
    proof {
        assert forall|r: int, q: int| 0 <= r < n && 0 <= q < n implies #[trigger] a@[r * ni
            + q].val() == s[r * ni + q] by {
            lemma_flat_index(r, q, ni, ni);
        }
    }
    let mut c: usize = 0;
    while c < n
        invariant
            0 <= c <= n,
            ni == n as int,
            n * n == LEN,
            i < n,
            p < n,
            s.len() == LEN,
            forall|r: int, k: int|
                0 <= r < n && 0 <= k < n ==> #[trigger] a@[r * ni + k].val() == if k < c {
                    if r == i {
                        s[p * ni + k]
                    } else if r == p {
                        s[i * ni + k]
                    } else {
                        s[r * ni + k]
                    }
                } else {
                    s[r * ni + k]
                },
        decreases n - c,
    {
        proof {
            lemma_flat_index(i as int, c as int, ni, ni);
            lemma_flat_index(p as int, c as int, ni, ni);
        }
        let tmp = a[p * n + c];
        a[p * n + c] = a[i * n + c];
        a[i * n + c] = tmp;
        proof {
            assert forall|r: int, k: int| 0 <= r < n && 0 <= k < n implies #[trigger] a@[r * ni
                + k].val() == if k < c + 1 {
                if r == i {
                    s[p * ni + k]
                } else if r == p {
                    s[i * ni + k]
                } else {
                    s[r * ni + k]
                }
            } else {
                s[r * ni + k]
            } by {
                lemma_flat_index(r, k, ni, ni);
            }
        }
        c = c + 1;
    }
    proof {
        let t = swap_rows(s, ni, i as int, p as int);
        assert forall|x: int| 0 <= x < LEN implies vals_of(a@)[x] == t[x] by {
            lemma_unflatten(x, ni, ni);
            lemma_flat_index(x / ni, x % ni, ni, ni);
            lemma_flat_index(i as int, x % ni, ni, ni);
            lemma_flat_index(p as int, x % ni, ni, ni);
        }
        assert(vals_of(a@) =~= t);
    }
}

/// Replaces row `j` of an `n x n` buffer by `c1 * row_j - c2 * row_i`.
pub(crate) fn combine_rows_in<T: Scalar, const LEN: usize>(
    a: &mut [T; LEN],
    n: usize,
    j: usize,
    i: usize,
    c1: T,
    c2: T,
)
    requires
        n * n == LEN,
        i < n,
        j < n,
        i != j,
        combine_fits::<T>(vals_of(old(a)@), n as int, j as int, i as int, c1.val(), c2.val()),
    ensures
        vals_of(final(a)@) == combine_rows(
            vals_of(old(a)@),
            n as int,
            j as int,
            i as int,
            c1.val(),
            c2.val(),
        ),
{
    let ghost s = vals_of(a@);
    let ghost ni = n as int;
    proof {
        assert forall|r: int, q: int| 0 <= r < n && 0 <= q < n implies #[trigger] a@[r * ni
            + q].val() == s[r * ni + q] by {
            lemma_flat_index(r, q, ni, ni);
        }
    }
    let mut k: usize = 0;
    while k < n
        invariant
            0 <= k <= n,
            ni == n as int,
            n * n == LEN,
            i < n,
            j < n,
            i != j,
            s.len() == LEN,
            combine_fits::<T>(s, ni, j as int, i as int, c1.val(), c2.val()),
            forall|r: int, q: int|
                0 <= r < n && 0 <= q < n ==> #[trigger] a@[r * ni + q].val() == if r == j && q < k {
                    c1.val() * s[r * ni + q] - c2.val() * s[i * ni + q]
                } else {
                    s[r * ni + q]
                },
        decreases n - k,
    {
        proof {
            lemma_flat_index(i as int, k as int, ni, ni);
            lemma_flat_index(j as int, k as int, ni, ni);
            assert(a@[j * ni + k].val() == s[j * ni + k]);
            assert(a@[i * ni + k].val() == s[i * ni + k]);
            assert(T::fits(c1.val() * s[j * ni + k]));
        }
        let x = c1.times(a[j * n + k]);
        let y = c2.times(a[i * n + k]);
        a[j * n + k] = x.minus(y);
        proof {
            assert forall|r: int, q: int| 0 <= r < n && 0 <= q < n implies #[trigger] a@[r * ni
                + q].val() == if r == j && q < k + 1 {
                c1.val() * s[r * ni + q] - c2.val() * s[i * ni + q]
            } else {
                s[r * ni + q]
            } by {
                lemma_flat_index(r, q, ni, ni);
            }
        }
        k = k + 1;
    }
    proof {
        let t = combine_rows(s, ni, j as int, i as int, c1.val(), c2.val());
        assert forall|x: int| 0 <= x < LEN implies vals_of(a@)[x] == t[x] by {
            lemma_unflatten(x, ni, ni);
            lemma_flat_index(x / ni, x % ni, ni, ni);
            lemma_flat_index(i as int, x % ni, ni, ni);
        }
        assert(vals_of(a@) =~= t);
    }
}

/// One value of `combine_rows` that does not fit rules out `combine_fits`.
proof fn lemma_not_combine_fits<T: Scalar>(s: Seq<int>, n: int, j: int, i: int, c1: int, c2: int, k: int)
    requires
        0 <= k < n,
        !(T::fits(c1 * s[j * n + k]) && T::fits(c2 * s[i * n + k]) && T::fits(
            c1 * s[j * n + k] - c2 * s[i * n + k],
        )),
    ensures
        !combine_fits::<T>(s, n, j, i, c1, c2),
{
}

/// Replaces row `j` of an `n x n` buffer by `c1 * row_j - c2 * row_i` when every value
/// computed fits in `T`, and says whether it did.
pub(crate) fn checked_combine_rows_in<T: Scalar, const LEN: usize>(
    a: &mut [T; LEN],
    n: usize,
    j: usize,
    i: usize,
    c1: T,
    c2: T,
) -> (ok: bool)
    requires
        n * n == LEN,
        i < n,
        j < n,
        i != j,
    ensures
        ok == combine_fits::<T>(vals_of(old(a)@), n as int, j as int, i as int, c1.val(), c2.val()),
        ok ==> vals_of(final(a)@) == combine_rows(
            vals_of(old(a)@),
            n as int,
            j as int,
            i as int,
            c1.val(),
            c2.val(),
        ),
{
    let ghost s = vals_of(a@);
    let ghost ni = n as int;
    proof {
        assert forall|r: int, q: int| 0 <= r < n && 0 <= q < n implies #[trigger] a@[r * ni
            + q].val() == s[r * ni + q] by {
            lemma_flat_index(r, q, ni, ni);
        }
    }
    let mut k: usize = 0;
    while k < n
        invariant
            0 <= k <= n,
            ni == n as int,
            n * n == LEN,
            i < n,
            j < n,
            i != j,
            s.len() == LEN,
            s == vals_of(old(a)@),
            forall|q: int|
                0 <= q < k ==> {
                    &&& T::fits(c1.val() * #[trigger] s[j * ni + q])
                    &&& T::fits(c2.val() * s[i * ni + q])
                    &&& T::fits(c1.val() * s[j * ni + q] - c2.val() * s[i * ni + q])
                },
            forall|r: int, q: int|
                0 <= r < n && 0 <= q < n ==> #[trigger] a@[r * ni + q].val() == if r == j && q < k {
                    c1.val() * s[r * ni + q] - c2.val() * s[i * ni + q]
                } else {
                    s[r * ni + q]
                },
        decreases n - k,
    {
        proof {
            lemma_flat_index(i as int, k as int, ni, ni);
            lemma_flat_index(j as int, k as int, ni, ni);
            assert(a@[j * ni + k].val() == s[j * ni + k]);
            assert(a@[i * ni + k].val() == s[i * ni + k]);
        }
        let x = match c1.checked_times(a[j * n + k]) {
            Some(x) => x,
            None => {
                return false;
            },
        };
        let y = match c2.checked_times(a[i * n + k]) {
            Some(y) => y,
            None => {
                proof {
                    lemma_not_combine_fits::<T>(s, ni, j as int, i as int, c1.val(), c2.val(), k as int);
                }
                return false;
            },
        };
        let d = match x.checked_minus(y) {
            Some(d) => d,
            None => {
                proof {
                    lemma_not_combine_fits::<T>(s, ni, j as int, i as int, c1.val(), c2.val(), k as int);
                }
                return false;
            },
        };
        a[j * n + k] = d;
        proof {
            assert forall|r: int, q: int| 0 <= r < n && 0 <= q < n implies #[trigger] a@[r * ni
                + q].val() == if r == j && q < k + 1 {
                c1.val() * s[r * ni + q] - c2.val() * s[i * ni + q]
            } else {
                s[r * ni + q]
            } by {
                lemma_flat_index(r, q, ni, ni);
            }
        }
        k = k + 1;
    }
    proof {
        let t = combine_rows(s, ni, j as int, i as int, c1.val(), c2.val());
        assert forall|x: int| 0 <= x < LEN implies vals_of(a@)[x] == t[x] by {
            lemma_unflatten(x, ni, ni);
            lemma_flat_index(x / ni, x % ni, ni, ni);
            lemma_flat_index(i as int, x % ni, ni, ni);
        }
        assert(vals_of(a@) =~= t);
        assert forall|q: int| 0 <= q < ni implies {
            &&& T::fits(c1.val() * #[trigger] s[j * ni + q])
            &&& T::fits(c2.val() * s[i * ni + q])
            &&& T::fits(c1.val() * s[j * ni + q] - c2.val() * s[i * ni + q])
        } by {}
        assert(combine_fits::<T>(s, ni, j as int, i as int, c1.val(), c2.val()));
    }
    true
}

} // verus!
