//! The determinant and the inverse, with the elimination each is computed by written out
//! as a spec function over integers.

use vstd::prelude::*;

use crate::errors::MatrixOperationError;
use crate::identities::Identity;
use crate::mat::{identity_vals, lemma_flat_index, lemma_unflatten, Matrix};
use crate::rowops::{
    checked_combine_rows_in, combine_fits, combine_rows, combine_rows_in, find_pivot, lemma_find_pivot_range, pivot_row,
    swap_rows, swap_rows_in,
};
use crate::scalar::{trunc_div, vals_of, Scalar};

verus! {

/// Clears column `i` below the pivot, from row `j` down: each row `r` becomes
/// `piv * row_r - s[r][i] * row_i`, and the scaling `total` is multiplied by `piv` once per
/// row. Gives the rows and the new scaling.
pub open spec fn elim_below(s: Seq<int>, total: int, n: int, i: int, j: int) -> (Seq<int>, int)
    decreases n - j,
{
    if j >= n {
        (s, total)
    } else {
        let piv = s[i * n + i];
        elim_below(combine_rows(s, n, j, i, piv, s[j * n + i]), total * piv, n, i, j + 1)
    }
}

/// Every value computed by `elim_below(s, total, n, i, j)` fits in `T`.
pub open spec fn elim_fits<T: Scalar>(s: Seq<int>, total: int, n: int, i: int, j: int) -> bool
    decreases n - j,
{
    if j >= n {
        true
    } else {
        let piv = s[i * n + i];
        &&& combine_fits::<T>(s, n, j, i, piv, s[j * n + i])
        &&& T::fits(total * piv)
        &&& elim_fits::<T>(combine_rows(s, n, j, i, piv, s[j * n + i]), total * piv, n, i, j + 1)
    }
}

/// The elimination state: the rows, the sign of the row exchanges so far, and the scaling
/// that the eliminations introduced.
pub open spec fn det_step(st: (Seq<int>, int, int), n: int, i: int) -> (Seq<int>, int, int) {
    let p = find_pivot(st.0, n, i, i);
    if p >= n {
        st
    } else {
        let b = if p == i { st.0 } else { swap_rows(st.0, n, i, p) };
        let sign = if p == i { st.1 } else { -st.1 };
        let e = elim_below(b, st.2, n, i, i + 1);
        (e.0, sign, e.1)
    }
}

/// The elimination state after columns `0 .. i`, starting from `a` with sign and scaling 1.
pub open spec fn det_run(a: Seq<int>, n: int, i: int) -> (Seq<int>, int, int)
    decreases i,
{
    if i <= 0 {
        (a, 1, 1)
    } else {
        det_step(det_run(a, n, i - 1), n, i - 1)
    }
}

/// Every value computed at column `i` fits in `T`.
pub open spec fn step_fits<T: Scalar>(st: (Seq<int>, int, int), n: int, i: int) -> bool {
    let p = find_pivot(st.0, n, i, i);
    p < n ==> {
        let b = if p == i { st.0 } else { swap_rows(st.0, n, i, p) };
        &&& (p != i ==> T::fits(-st.1))
        &&& elim_fits::<T>(b, st.2, n, i, i + 1)
    }
}

/// The product of the first `k` diagonal elements of an `n x n` buffer.
pub open spec fn diag_prod(s: Seq<int>, n: int, k: int) -> int
    decreases k,
{
    if k <= 0 {
        1
    } else {
        diag_prod(s, n, k - 1) * s[(k - 1) * n + (k - 1)]
    }
}

/// The determinant of the `n x n` matrix `a` by Gaussian elimination with row pivoting:
/// the sign of the row exchanges times the product of the diagonal, divided (rounding
/// toward zero) by the scaling that the eliminations introduced.
pub open spec fn det_of(a: Seq<int>, n: int) -> int {
    let st = det_run(a, n, n);
    trunc_div(st.1 * diag_prod(st.0, n, n), st.2)
}

/// Every value that computing `det_of(a, n)` goes through fits in `T`.
pub open spec fn det_fits<T: Scalar>(a: Seq<int>, n: int) -> bool {
    let st = det_run(a, n, n);
    &&& forall|i: int| 0 <= i < n ==> #[trigger] step_fits::<T>(det_run(a, n, i), n, i)
    &&& forall|k: int| 1 <= k <= n ==> T::fits(st.1 * #[trigger] diag_prod(st.0, n, k))
    &&& T::fits(trunc_div(st.1 * diag_prod(st.0, n, n), st.2))
}

/// The inverse of a 2 x 2 matrix `[[a, b], [c, d]]` by its closed form: the adjugate
/// `[[d, -b], [-c, a]]` divided by `det`, each quotient rounded toward zero.
pub open spec fn inverse_2x2_of(v: Seq<int>, det: int) -> Seq<int> {
    seq![trunc_div(v[3], det), trunc_div(-v[1], det), trunc_div(-v[2], det), trunc_div(v[0], det)]
}

/// Every value that computing `inverse_2x2_of(v, det)` goes through fits in `T`.
pub open spec fn inverse_2x2_fits<T: Scalar>(v: Seq<int>, det: int) -> bool {
    &&& T::fits(-v[1])
    &&& T::fits(-v[2])
    &&& T::fits(trunc_div(v[3], det))
    &&& T::fits(trunc_div(-v[1], det))
    &&& T::fits(trunc_div(-v[2], det))
    &&& T::fits(trunc_div(v[0], det))
}

/// Clears column `i` in every row but `i`, from row `q` on, without division: row `r`
/// becomes `piv * row_r - l[r][i] * row_i`, where `piv = l[i][i]`, on the left block and
/// on the right block alike.
pub open spec fn clear_column(l: Seq<int>, r: Seq<int>, n: int, i: int, q: int) -> (Seq<int>, Seq<int>)
    decreases n - q,
{
    if q >= n {
        (l, r)
    } else if q == i {
        clear_column(l, r, n, i, q + 1)
    } else {
        let piv = l[i * n + i];
        let f = l[q * n + i];
        clear_column(
            combine_rows(l, n, q, i, piv, f),
            combine_rows(r, n, q, i, piv, f),
            n,
            i,
            q + 1,
        )
    }
}

/// Every value computed by `clear_column(l, r, n, i, q)` fits in `T`.
pub open spec fn clear_fits<T: Scalar>(l: Seq<int>, r: Seq<int>, n: int, i: int, q: int) -> bool
    decreases n - q,
{
    if q >= n {
        true
    } else if q == i {
        clear_fits::<T>(l, r, n, i, q + 1)
    } else {
        let piv = l[i * n + i];
        let f = l[q * n + i];
        &&& combine_fits::<T>(l, n, q, i, piv, f)
        &&& combine_fits::<T>(r, n, q, i, piv, f)
        &&& clear_fits::<T>(
            combine_rows(l, n, q, i, piv, f),
            combine_rows(r, n, q, i, piv, f),
            n,
            i,
            q + 1,
        )
    }
}

/// The augmented matrix `[l | r]` with the pivot row of column `i` moved into row `i`.
pub open spec fn gj_pivoted(l: Seq<int>, r: Seq<int>, n: int, i: int) -> (Seq<int>, Seq<int>) {
    let p = find_pivot(l, n, i, i);
    if p == i {
        (l, r)
    } else {
        (swap_rows(l, n, i, p), swap_rows(r, n, i, p))
    }
}

/// One column of fraction-free Gauss-Jordan elimination on `[l | r]`. A column without a
/// non-zero pivot is left as it is.
pub open spec fn gj_step(st: (Seq<int>, Seq<int>), n: int, i: int) -> (Seq<int>, Seq<int>) {
    if find_pivot(st.0, n, i, i) >= n {
        st
    } else {
        let pv = gj_pivoted(st.0, st.1, n, i);
        clear_column(pv.0, pv.1, n, i, 0)
    }
}

/// Fraction-free Gauss-Jordan elimination on `[a | I]` over columns `0 .. i`.
pub open spec fn gj_run(a: Seq<int>, n: int, i: int) -> (Seq<int>, Seq<int>)
    decreases i,
{
    if i <= 0 {
        (a, identity_vals(n))
    } else {
        gj_step(gj_run(a, n, i - 1), n, i - 1)
    }
}

/// The result of Gauss-Jordan elimination on `[a | I]`: once the left block is diagonal,
/// row `r` of the right block divided by the left block's diagonal element `r`, each
/// quotient rounded toward zero (0 where that divisor is 0).
pub open spec fn gj_inverse_of(a: Seq<int>, n: int) -> Seq<int> {
    let st = gj_run(a, n, n);
    Seq::new(
        (n * n) as nat,
        |x: int|
            if st.0[(x / n) * n + x / n] == 0 {
                0
            } else {
                trunc_div(st.1[x], st.0[(x / n) * n + x / n])
            },
    )
}

/// Every value that computing `gj_inverse_of(a, n)` goes through fits in `T`.
pub open spec fn gj_fits<T: Scalar>(a: Seq<int>, n: int) -> bool {
    let fin = gj_run(a, n, n);
    &&& forall|i: int|
        0 <= i < n ==> {
            let st = #[trigger] gj_run(a, n, i);
            let pv = gj_pivoted(st.0, st.1, n, i);
            find_pivot(st.0, n, i, i) < n ==> clear_fits::<T>(pv.0, pv.1, n, i, 0)
        }
    &&& forall|r: int, c: int|
        0 <= r < n && 0 <= c < n && fin.0[r * n + r] != 0 ==> T::fits(
            trunc_div(#[trigger] fin.1[r * n + c], fin.0[r * n + r]),
        )
}

/// The inverse of the `n x n` matrix `a`, for a non-zero determinant: by its closed form
/// when `n == 2`, else by Gauss-Jordan elimination on `[a | I]`.
pub open spec fn inverse_of(a: Seq<int>, n: int) -> Seq<int> {
    if n == 2 {
        inverse_2x2_of(a, det_of(a, 2))
    } else {
        gj_inverse_of(a, n)
    }
}

/// Every value that computing the inverse of `a` goes through fits in `T`: the
/// determinant, and for a non-zero determinant the inverse itself.
pub open spec fn inverse_fits<T: Scalar>(a: Seq<int>, n: int) -> bool {
    &&& det_fits::<T>(a, n)
    &&& (det_of(a, n) != 0 ==> if n == 2 {
        inverse_2x2_fits::<T>(a, det_of(a, 2))
    } else {
        gj_fits::<T>(a, n)
    })
}

/// Offsets of earlier rows, or of earlier columns in the same row, come first.
proof fn lemma_row_before(a: int, b: int, i: int, j: int, n: int)
    requires
        0 <= b < n,
        0 <= j < n,
        0 <= a < i,
    ensures
        a * n + b != i * n + j,
{
    assert(a * n + b < i * n + j) by (nonlinear_arith)
        requires
            0 <= b < n,
            0 <= j < n,
            0 <= a < i,
    ;
}

impl<T: Scalar, const M: usize, const LEN: usize> Matrix<T, M, M, LEN> {
    /// The inverse. Fails with `InvalidDeterminant` exactly when the determinant is zero;
    /// otherwise it is the closed form for a 2 x 2 matrix, and Gauss-Jordan elimination
    /// for any other size.
    pub fn inverse(&self) -> (r: Result<Self, MatrixOperationError>)
        requires
            inverse_fits::<T>(self.vals(), M as int),
        ensures
            r is Err <==> det_of(self.vals(), M as int) == 0,
            r matches Err(e) ==> e == MatrixOperationError::InvalidDeterminant,
            r matches Ok(m) ==> m.vals() == inverse_of(self.vals(), M as int),
    {
        let det = self.det();
        if det.is_zero() {
            return Err(MatrixOperationError::InvalidDeterminant);
        }
        if M == 2 {
            Ok(self.inverse_2x2(det))
        } else {
            Ok(self.inverse_gauss_jordan())
        }
    }

    fn inverse_2x2(&self, det: T) -> (r: Self)
        requires
            M == 2,
            det.val() != 0,
            inverse_2x2_fits::<T>(self.vals(), det.val()),
        ensures
            r.vals() == inverse_2x2_of(self.vals(), det.val()),
    {
        proof {
            use_type_invariant(self);
            self.lemma_view_is_data();
        }
        let ghost v = self.vals();
        let mut out = [T::zero(); LEN];
        out[0] = self.data[3].quot(det);
        out[1] = T::zero().minus(self.data[1]).quot(det);
        out[2] = T::zero().minus(self.data[2]).quot(det);
        out[3] = self.data[0].quot(det);
        let r = Matrix { data: out };
        proof {
            r.lemma_view_is_data();
            assert(LEN == 4);
        }
        assert(r.vals() =~= inverse_2x2_of(v, det.val()));
        r
    }

    fn inverse_gauss_jordan(&self) -> (r: Self)
        requires
            gj_fits::<T>(self.vals(), M as int),
        ensures
            r.vals() == gj_inverse_of(self.vals(), M as int),
    {
        proof {
            use_type_invariant(self);
            self.lemma_view_is_data();
            T::lemma_has_identity();
        }
        let ghost a = self.vals();
        let ghost n = M as int;
        let mut left = self.data;
        let id = Self::identity();
        proof {
            id.lemma_view_is_data();
        }
        let mut right = id.data;
        let mut i: usize = 0;
        while i < M
            invariant
                0 <= i <= M,
                n == M as int,
                M * M == LEN,
                a == self.vals(),
                gj_fits::<T>(a, n),
                gj_run(a, n, i as int) == (vals_of(left@), vals_of(right@)),
            decreases M - i,
        {
            let ghost l0 = vals_of(left@);
            let ghost r0 = vals_of(right@);
            assert(gj_run(a, n, i as int) == (l0, r0));
            let p = pivot_row(&left, M, i);
            if p < M {
                proof {
                    lemma_find_pivot_range(l0, n, i as int, i as int);
                }
                if p != i {
                    swap_rows_in(&mut left, M, i, p);
                    swap_rows_in(&mut right, M, i, p);
                }
                let ghost pv = gj_pivoted(l0, r0, n, i as int);
                assert(pv == (vals_of(left@), vals_of(right@)));
                proof {
                    lemma_flat_index(i as int, i as int, n, n);
                }
                let piv = left[i * M + i];
                let mut q: usize = 0;
                while q < M
                    invariant
                        0 <= q <= M,
                        i < M,
                        n == M as int,
                        M * M == LEN,
                        piv.val() == vals_of(left@)[i * n + i],
                        clear_fits::<T>(vals_of(left@), vals_of(right@), n, i as int, q as int),
                        clear_column(vals_of(left@), vals_of(right@), n, i as int, q as int)
                            == clear_column(pv.0, pv.1, n, i as int, 0),
                    decreases M - q,
                {
                    if q != i {
                        proof {
                            lemma_flat_index(q as int, i as int, n, n);
                        }
                        let f = left[q * M + i];
                        let ghost before = vals_of(left@);
                        combine_rows_in(&mut left, M, q, i, piv, f);
                        combine_rows_in(&mut right, M, q, i, piv, f);
                        proof {
                            lemma_flat_index(i as int, i as int, n, n);
                            assert(vals_of(left@)[i * n + i] == before[i * n + i]);
                        }
                    }
                    q = q + 1;
                }
            }
            i = i + 1;
        }
        let ghost fin = gj_run(a, n, n);
        let mut out = [T::zero(); LEN];
        let mut r: usize = 0;
        while r < M
            invariant
                0 <= r <= M,
                n == M as int,
                M * M == LEN,
                a == self.vals(),
                gj_fits::<T>(a, n),
                fin == gj_run(a, n, n),
                fin == (vals_of(left@), vals_of(right@)),
                forall|rr: int, c: int|
                    0 <= rr < r && 0 <= c < n ==> #[trigger] out@[rr * n + c].val() == if fin.0[rr * n
                        + rr] == 0 {
                        0
                    } else {
                        trunc_div(fin.1[rr * n + c], fin.0[rr * n + rr])
                    },
            decreases M - r,
        {
            proof {
                lemma_flat_index(r as int, r as int, n, n);
            }
            let d = left[r * M + r];
            let mut c: usize = 0;
            while c < M
                invariant
                    0 <= c <= M,
                    r < M,
                    n == M as int,
                    M * M == LEN,
                    gj_fits::<T>(a, n),
                    fin == gj_run(a, n, n),
                    fin == (vals_of(left@), vals_of(right@)),
                    d.val() == fin.0[r * n + r],
                    forall|rr: int, cc: int|
                        0 <= rr < r && 0 <= cc < n ==> #[trigger] out@[rr * n + cc].val() == if fin.0[rr
                            * n + rr] == 0 {
                            0
                        } else {
                            trunc_div(fin.1[rr * n + cc], fin.0[rr * n + rr])
                        },
                    forall|cc: int|
                        0 <= cc < c ==> #[trigger] out@[r * n + cc].val() == if d.val() == 0 {
                            0
                        } else {
                            trunc_div(fin.1[r * n + cc], d.val())
                        },
                decreases M - c,
            {
                proof {
                    lemma_flat_index(r as int, c as int, n, n);
                }
                if d.is_zero() {
                    out[r * M + c] = T::zero();
                } else {
                    assert(T::fits(trunc_div(fin.1[r * n + c], fin.0[r * n + r])));
                    out[r * M + c] = right[r * M + c].quot(d);
                }
                proof {
                    assert forall|rr: int, cc: int| 0 <= rr < r && 0 <= cc < n implies #[trigger] out@[rr
                        * n + cc].val() == if fin.0[rr * n + rr] == 0 {
                        0
                    } else {
                        trunc_div(fin.1[rr * n + cc], fin.0[rr * n + rr])
                    } by {
                        lemma_flat_index(rr, cc, n, n);
                        lemma_row_before(rr, cc, r as int, c as int, n);
                    }
                    assert forall|cc: int| 0 <= cc < c + 1 implies #[trigger] out@[r * n + cc].val()
                        == if d.val() == 0 {
                        0
                    } else {
                        trunc_div(fin.1[r * n + cc], d.val())
                    } by {
                        lemma_flat_index(r as int, cc, n, n);
                    }
                }
                c = c + 1;
            }
            r = r + 1;
        }
        let res = Matrix { data: out };
        proof {
            res.lemma_view_is_data();
            let want = gj_inverse_of(a, n);
            assert forall|x: int| 0 <= x < LEN implies res.vals()[x] == want[x] by {
                lemma_unflatten(x, n, n);
                assert(out@[(x / n) * n + x % n].val() == res.vals()[x]);
            }
            assert(res.vals() =~= want);
        }
        res
    }

    /// The inverse as `inverse` gives it when every value its computation goes through
    /// fits in `T`; None exactly when one does not.
    pub fn checked_inverse(&self) -> (r: Option<Result<Self, MatrixOperationError>>)
        ensures
            r is Some <==> inverse_fits::<T>(self.vals(), M as int),
            r matches Some(res) ==> (res is Err <==> det_of(self.vals(), M as int) == 0),
            r matches Some(res) ==> (res matches Err(e) ==> e
                == MatrixOperationError::InvalidDeterminant),
            r matches Some(res) ==> (res matches Ok(m) ==> m.vals() == inverse_of(
                self.vals(),
                M as int,
            )),
    {
        let det = match self.checked_det() {
            Some(d) => d,
            None => {
                return None;
            },
        };
        if det.is_zero() {
            return Some(Err(MatrixOperationError::InvalidDeterminant));
        }
        let inv = if M == 2 {
            self.checked_inverse_2x2(det)
        } else {
            self.checked_inverse_gauss_jordan()
        };
        match inv {
            Some(m) => Some(Ok(m)),
            None => None,
        }
    }

    fn checked_inverse_2x2(&self, det: T) -> (r: Option<Self>)
        requires
            M == 2,
            det.val() != 0,
        ensures
            r is Some <==> inverse_2x2_fits::<T>(self.vals(), det.val()),
            r matches Some(m) ==> m.vals() == inverse_2x2_of(self.vals(), det.val()),
    {
        proof {
            use_type_invariant(self);
            self.lemma_view_is_data();
        }
        let ghost v = self.vals();
        let nb = match T::zero().checked_minus(self.data[1]) {
            Some(x) => x,
            None => {
                return None;
            },
        };
        let nc = match T::zero().checked_minus(self.data[2]) {
            Some(x) => x,
            None => {
                return None;
            },
        };
        let q0 = match self.data[3].checked_quot(det) {
            Some(x) => x,
            None => {
                return None;
            },
        };
        let q1 = match nb.checked_quot(det) {
            Some(x) => x,
            None => {
                return None;
            },
        };
        let q2 = match nc.checked_quot(det) {
            Some(x) => x,
            None => {
                return None;
            },
        };
        let q3 = match self.data[0].checked_quot(det) {
            Some(x) => x,
            None => {
                return None;
            },
        };
        let mut out = [T::zero(); LEN];
        out[0] = q0;
        out[1] = q1;
        out[2] = q2;
        out[3] = q3;
        let r = Matrix { data: out };
        proof {
            r.lemma_view_is_data();
            assert(LEN == 4);
        }
        assert(r.vals() =~= inverse_2x2_of(v, det.val()));
        Some(r)
    }

    fn checked_inverse_gauss_jordan(&self) -> (r: Option<Self>)
        ensures
            r is Some <==> gj_fits::<T>(self.vals(), M as int),
            r matches Some(m) ==> m.vals() == gj_inverse_of(self.vals(), M as int),
    {
        proof {
            use_type_invariant(self);
            self.lemma_view_is_data();
            T::lemma_has_identity();
        }
        let ghost a = self.vals();
        let ghost n = M as int;
        let mut left = self.data;
        let id = Self::identity();
        proof {
            id.lemma_view_is_data();
        }
        let mut right = id.data;
        let mut i: usize = 0;
        while i < M
            invariant
                0 <= i <= M,
                n == M as int,
                M * M == LEN,
                a == self.vals(),
                forall|k: int|
                    0 <= k < i ==> {
                        let st = #[trigger] gj_run(a, n, k);
                        let pv = gj_pivoted(st.0, st.1, n, k);
                        find_pivot(st.0, n, k, k) < n ==> clear_fits::<T>(pv.0, pv.1, n, k, 0)
                    },
                gj_run(a, n, i as int) == (vals_of(left@), vals_of(right@)),
            decreases M - i,
        {
            let ghost l0 = vals_of(left@);
            let ghost r0 = vals_of(right@);
            assert(gj_run(a, n, i as int) == (l0, r0));
            let p = pivot_row(&left, M, i);
            if p < M {
                proof {
                    lemma_find_pivot_range(l0, n, i as int, i as int);
                }
                if p != i {
                    swap_rows_in(&mut left, M, i, p);
                    swap_rows_in(&mut right, M, i, p);
                }
                let ghost pv = gj_pivoted(l0, r0, n, i as int);
                assert(pv == (vals_of(left@), vals_of(right@)));
                proof {
                    lemma_flat_index(i as int, i as int, n, n);
                }
                let piv = left[i * M + i];
                let mut q: usize = 0;
                while q < M
                    invariant
                        0 <= q <= M,
                        i < M,
                        n == M as int,
                        M * M == LEN,
                        piv.val() == vals_of(left@)[i * n + i],
                        a == self.vals(),
                        gj_run(a, n, i as int) == (l0, r0),
                        pv == gj_pivoted(l0, r0, n, i as int),
                        find_pivot(l0, n, i as int, i as int) < n,
                        clear_fits::<T>(pv.0, pv.1, n, i as int, 0) == clear_fits::<T>(
                            vals_of(left@),
                            vals_of(right@),
                            n,
                            i as int,
                            q as int,
                        ),
                        clear_column(vals_of(left@), vals_of(right@), n, i as int, q as int)
                            == clear_column(pv.0, pv.1, n, i as int, 0),
                    decreases M - q,
                {
                    if q != i {
                        proof {
                            lemma_flat_index(q as int, i as int, n, n);
                        }
                        let f = left[q * M + i];
                        let ghost before = vals_of(left@);
                        let ghost rbefore = vals_of(right@);
                        if !checked_combine_rows_in(&mut left, M, q, i, piv, f) {
                            assert(!clear_fits::<T>(pv.0, pv.1, n, i as int, 0));
                            assert(!gj_fits::<T>(a, n));
                            return None;
                        }
                        if !checked_combine_rows_in(&mut right, M, q, i, piv, f) {
                            assert(!combine_fits::<T>(rbefore, n, q as int, i as int, piv.val(), f.val()));
                            assert(!clear_fits::<T>(pv.0, pv.1, n, i as int, 0));
                            assert(!gj_fits::<T>(a, n));
                            return None;
                        }
                        proof {
                            lemma_flat_index(i as int, i as int, n, n);
                            assert(vals_of(left@)[i * n + i] == before[i * n + i]);
                        }
                    }
                    q = q + 1;
                }
                assert(clear_fits::<T>(pv.0, pv.1, n, i as int, 0));
            }
            i = i + 1;
        }
        let ghost fin = gj_run(a, n, n);
        let mut out = [T::zero(); LEN];
        let mut r: usize = 0;
        while r < M
            invariant
                0 <= r <= M,
                n == M as int,
                M * M == LEN,
                a == self.vals(),
                forall|k: int|
                    0 <= k < n ==> {
                        let st = #[trigger] gj_run(a, n, k);
                        let pv = gj_pivoted(st.0, st.1, n, k);
                        find_pivot(st.0, n, k, k) < n ==> clear_fits::<T>(pv.0, pv.1, n, k, 0)
                    },
                forall|rr: int, cc: int|
                    0 <= rr < r && 0 <= cc < n && fin.0[rr * n + rr] != 0 ==> T::fits(
                        trunc_div(#[trigger] fin.1[rr * n + cc], fin.0[rr * n + rr]),
                    ),
                fin == gj_run(a, n, n),
                fin == (vals_of(left@), vals_of(right@)),
                forall|rr: int, c: int|
                    0 <= rr < r && 0 <= c < n ==> #[trigger] out@[rr * n + c].val() == if fin.0[rr * n
                        + rr] == 0 {
                        0
                    } else {
                        trunc_div(fin.1[rr * n + c], fin.0[rr * n + rr])
                    },
            decreases M - r,
        {
            proof {
                lemma_flat_index(r as int, r as int, n, n);
            }
            let d = left[r * M + r];
            let mut c: usize = 0;
            while c < M
                invariant
                    0 <= c <= M,
                    r < M,
                    n == M as int,
                    M * M == LEN,
                    a == self.vals(),
                    forall|k: int|
                        0 <= k < n ==> {
                            let st = #[trigger] gj_run(a, n, k);
                            let pv = gj_pivoted(st.0, st.1, n, k);
                            find_pivot(st.0, n, k, k) < n ==> clear_fits::<T>(pv.0, pv.1, n, k, 0)
                        },
                    forall|rr: int, cc: int|
                        0 <= rr < r && 0 <= cc < n && fin.0[rr * n + rr] != 0 ==> T::fits(
                            trunc_div(#[trigger] fin.1[rr * n + cc], fin.0[rr * n + rr]),
                        ),
                    forall|cc: int|
                        0 <= cc < c && d.val() != 0 ==> T::fits(
                            trunc_div(#[trigger] fin.1[r * n + cc], d.val()),
                        ),
                    fin == gj_run(a, n, n),
                    fin == (vals_of(left@), vals_of(right@)),
                    d.val() == fin.0[r * n + r],
                    forall|rr: int, cc: int|
                        0 <= rr < r && 0 <= cc < n ==> #[trigger] out@[rr * n + cc].val() == if fin.0[rr
                            * n + rr] == 0 {
                            0
                        } else {
                            trunc_div(fin.1[rr * n + cc], fin.0[rr * n + rr])
                        },
                    forall|cc: int|
                        0 <= cc < c ==> #[trigger] out@[r * n + cc].val() == if d.val() == 0 {
                            0
                        } else {
                            trunc_div(fin.1[r * n + cc], d.val())
                        },
                decreases M - c,
            {
                proof {
                    lemma_flat_index(r as int, c as int, n, n);
                }
                if d.is_zero() {
                    out[r * M + c] = T::zero();
                } else {
                    out[r * M + c] = match right[r * M + c].checked_quot(d) {
                        Some(v) => v,
                        None => {
                            assert(!T::fits(trunc_div(fin.1[r * n + c], fin.0[r * n + r])));
                            return None;
                        },
                    };
                }
                proof {
                    assert forall|rr: int, cc: int| 0 <= rr < r && 0 <= cc < n implies #[trigger] out@[rr
                        * n + cc].val() == if fin.0[rr * n + rr] == 0 {
                        0
                    } else {
                        trunc_div(fin.1[rr * n + cc], fin.0[rr * n + rr])
                    } by {
                        lemma_flat_index(rr, cc, n, n);
                        lemma_row_before(rr, cc, r as int, c as int, n);
                    }
                    assert forall|cc: int| 0 <= cc < c + 1 implies #[trigger] out@[r * n + cc].val()
                        == if d.val() == 0 {
                        0
                    } else {
                        trunc_div(fin.1[r * n + cc], d.val())
                    } by {
                        lemma_flat_index(r as int, cc, n, n);
                    }
                }
                c = c + 1;
            }
            r = r + 1;
        }
        let res = Matrix { data: out };
        proof {
            res.lemma_view_is_data();
            let want = gj_inverse_of(a, n);
            assert forall|x: int| 0 <= x < LEN implies res.vals()[x] == want[x] by {
                lemma_unflatten(x, n, n);
                assert(out@[(x / n) * n + x % n].val() == res.vals()[x]);
            }
            assert(res.vals() =~= want);
        }
        assert(gj_fits::<T>(a, n));
        Some(res)
    }

    /// The determinant when every value its computation goes through fits in `T`; None
    /// exactly when one does not, so that `det` may then not be called.
    pub fn checked_det(&self) -> (r: Option<T>)
        ensures
            r is Some <==> det_fits::<T>(self.vals(), M as int),
            r matches Some(d) ==> d.val() == det_of(self.vals(), M as int),
    {
        proof {
            use_type_invariant(self);
            self.lemma_view_is_data();
            T::lemma_has_identity();
        }
        let ghost a = self.vals();
        let ghost n = M as int;
        let mut mat = self.data;
        let one = T::identity();
        proof {
            T::lemma_identity_is_one(one);
        }
        let mut total = one;
        let mut det = one;
        let mut i: usize = 0;
        while i < M
            invariant
                0 <= i <= M,
                n == M as int,
                M * M == LEN,
                a == self.vals(),
                forall|k: int| 0 <= k < i ==> #[trigger] step_fits::<T>(det_run(a, n, k), n, k),
                vals_of(mat@) == det_run(a, n, i as int).0,
                det.val() == det_run(a, n, i as int).1,
                total.val() == det_run(a, n, i as int).2,
                total.val() != 0,
            decreases M - i,
        {
            let ghost st = det_run(a, n, i as int);
            let p = pivot_row(&mat, M, i);
            if p < M {
                proof {
                    lemma_find_pivot_range(st.0, n, i as int, i as int);
                }
                if p != i {
                    swap_rows_in(&mut mat, M, i, p);
                    det = match T::zero().checked_minus(det) {
                        Some(d) => d,
                        None => {
                            assert(!step_fits::<T>(det_run(a, n, i as int), n, i as int));
                            return None;
                        },
                    };
                }
                let ghost b = vals_of(mat@);
                proof {
                    lemma_flat_index(i as int, i as int, n, n);
                    if p != i {
                        lemma_flat_index(p as int, i as int, n, n);
                        assert(b[i * n + i] == st.0[p * n + i]);
                    }
                }
                let piv = mat[i * M + i];
                let mut j: usize = i + 1;
                while j < M
                    invariant
                        i < j <= M,
                        i < M,
                        n == M as int,
                        M * M == LEN,
                        a == self.vals(),
                        st == det_run(a, n, i as int),
                        piv.val() != 0,
                        total.val() != 0,
                        piv.val() == vals_of(mat@)[i * n + i],
                        step_fits::<T>(st, n, i as int) == elim_fits::<T>(
                            vals_of(mat@),
                            total.val(),
                            n,
                            i as int,
                            j as int,
                        ),
                        elim_below(vals_of(mat@), total.val(), n, i as int, j as int)
                            == elim_below(b, st.2, n, i as int, i as int + 1),
                    decreases M - j,
                {
                    proof {
                        lemma_flat_index(j as int, i as int, n, n);
                    }
                    let f = mat[j * M + i];
                    let ghost before = vals_of(mat@);
                    if !checked_combine_rows_in(&mut mat, M, j, i, piv, f) {
                        assert(!step_fits::<T>(det_run(a, n, i as int), n, i as int));
                        return None;
                    }
                    proof {
                        lemma_flat_index(i as int, i as int, n, n);
                        assert(vals_of(mat@)[i * n + i] == before[i * n + i]);
                        vstd::arithmetic::mul::lemma_mul_nonzero(total.val(), piv.val());
                    }
                    total = match total.checked_times(piv) {
                        Some(t) => t,
                        None => {
                            assert(!step_fits::<T>(det_run(a, n, i as int), n, i as int));
                            return None;
                        },
                    };
                    j = j + 1;
                }
                assert(step_fits::<T>(det_run(a, n, i as int), n, i as int));
            }
            assert(step_fits::<T>(det_run(a, n, i as int), n, i as int));
            i = i + 1;
        }
        let ghost fin = det_run(a, n, n);
        let mut k: usize = 0;
        while k < M
            invariant
                0 <= k <= M,
                n == M as int,
                M * M == LEN,
                fin == det_run(a, n, n),
                a == self.vals(),
                forall|q: int| 0 <= q < n ==> #[trigger] step_fits::<T>(det_run(a, n, q), n, q),
                forall|q: int| 1 <= q <= k ==> T::fits(fin.1 * #[trigger] diag_prod(fin.0, n, q)),
                total.val() == fin.2,
                total.val() != 0,
                vals_of(mat@) == fin.0,
                det.val() == fin.1 * diag_prod(fin.0, n, k as int),
            decreases M - k,
        {
            proof {
                lemma_flat_index(k as int, k as int, n, n);
                vstd::arithmetic::mul::lemma_mul_is_associative(
                    fin.1,
                    diag_prod(fin.0, n, k as int),
                    fin.0[k * n + k],
                );
            }
            det = match det.checked_times(mat[k * M + k]) {
                Some(d) => d,
                None => {
                    assert(!T::fits(fin.1 * diag_prod(fin.0, n, k + 1)));
                    return None;
                },
            };
            k = k + 1;
        }
        det.checked_quot(total)
    }

    /// The determinant, by Gaussian elimination with row pivoting on a copy of the matrix.
    /// A column without a non-zero pivot leaves a zero on the diagonal, and the
    /// elimination goes on with the next column.
    pub fn det(&self) -> (r: T)
        requires
            det_fits::<T>(self.vals(), M as int),
        ensures
            r.val() == det_of(self.vals(), M as int),
    {
        proof {
            use_type_invariant(self);
            self.lemma_view_is_data();
            T::lemma_has_identity();
        }
        let ghost a = self.vals();
        let ghost n = M as int;
        let mut mat = self.data;
        let one = T::identity();
        proof {
            T::lemma_identity_is_one(one);
        }
        let mut total = one;
        let mut det = one;
        let mut i: usize = 0;
        while i < M
            invariant
                0 <= i <= M,
                n == M as int,
                M * M == LEN,
                a == self.vals(),
                det_fits::<T>(a, n),
                vals_of(mat@) == det_run(a, n, i as int).0,
                det.val() == det_run(a, n, i as int).1,
                total.val() == det_run(a, n, i as int).2,
                total.val() != 0,
            decreases M - i,
        {
            let ghost st = det_run(a, n, i as int);
            assert(step_fits::<T>(det_run(a, n, i as int), n, i as int));
            let p = pivot_row(&mat, M, i);
            if p < M {
                proof {
                    lemma_find_pivot_range(st.0, n, i as int, i as int);
                }
                if p != i {
                    swap_rows_in(&mut mat, M, i, p);
                    det = T::zero().minus(det);
                }
                let ghost b = vals_of(mat@);
                proof {
                    lemma_flat_index(i as int, i as int, n, n);
                    if p != i {
                        lemma_flat_index(p as int, i as int, n, n);
                        assert(b[i * n + i] == st.0[p * n + i]);
                    }
                }
                let piv = mat[i * M + i];
                let mut j: usize = i + 1;
                while j < M
                    invariant
                        i < j <= M,
                        i < M,
                        n == M as int,
                        M * M == LEN,
                        piv.val() != 0,
                        total.val() != 0,
                        piv.val() == vals_of(mat@)[i * n + i],
                        elim_fits::<T>(vals_of(mat@), total.val(), n, i as int, j as int),
                        elim_below(vals_of(mat@), total.val(), n, i as int, j as int)
                            == elim_below(b, st.2, n, i as int, i as int + 1),
                    decreases M - j,
                {
                    proof {
                        lemma_flat_index(j as int, i as int, n, n);
                    }
                    let f = mat[j * M + i];
                    let ghost before = vals_of(mat@);
                    combine_rows_in(&mut mat, M, j, i, piv, f);
                    proof {
                        lemma_flat_index(i as int, i as int, n, n);
                        assert(vals_of(mat@)[i * n + i] == before[i * n + i]);
                        vstd::arithmetic::mul::lemma_mul_nonzero(total.val(), piv.val());
                    }
                    total = total.times(piv);
                    j = j + 1;
                }
            }
            i = i + 1;
        }
        let ghost fin = det_run(a, n, n);
        let mut k: usize = 0;
        while k < M
            invariant
                0 <= k <= M,
                n == M as int,
                M * M == LEN,
                fin == det_run(a, n, n),
                det_fits::<T>(a, n),
                vals_of(mat@) == fin.0,
                det.val() == fin.1 * diag_prod(fin.0, n, k as int),
            decreases M - k,
        {
            proof {
                lemma_flat_index(k as int, k as int, n, n);
                assert(T::fits(fin.1 * diag_prod(fin.0, n, k + 1)));
                vstd::arithmetic::mul::lemma_mul_is_associative(
                    fin.1,
                    diag_prod(fin.0, n, k as int),
                    fin.0[k * n + k],
                );
            }
            det = det.times(mat[k * M + k]);
            k = k + 1;
        }
        det.quot(total)
    }
}

} // verus!
