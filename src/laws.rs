//! Properties that relate several operations, proved over the integer views of the
//! matrices.

use vstd::prelude::*;

use crate::mat::{
    add_seq, col_of, identity_vals, lemma_flat_index, lemma_unflatten, mat_mul, mul_fits, row_of,
    sub_seq, Matrix,
};
use crate::math::{dot_fits, dot_seq};
use crate::linalg::{det_of, det_run, det_step, diag_prod, elim_below};
use crate::rowops::{combine_rows, find_pivot, swap_rows};
use crate::scalar::{abs, trunc_div, Scalar};

verus! {

/// A dot product against a unit vector (one at `p`, zeros elsewhere) picks out position `p`.
proof fn lemma_dot_unit_right(u: Seq<int>, e: Seq<int>, p: int, t: int)
    requires
        0 <= p < u.len(),
        u.len() <= e.len(),
        0 <= t <= u.len(),
        forall|k: int| 0 <= k < u.len() ==> #[trigger] e[k] == if k == p { 1int } else { 0int },
    ensures
        dot_seq(u.take(t), e) == if p < t { u[p] } else { 0 },
    decreases t,
{
    if t > 0 {
        lemma_dot_unit_right(u, e, p, t - 1);
        assert(u.take(t).drop_last() =~= u.take(t - 1));
    }
}

/// A unit vector (one at `p`, zeros elsewhere) against any vector picks out position `p`.
proof fn lemma_dot_unit_left(e: Seq<int>, v: Seq<int>, p: int, t: int)
    requires
        0 <= p < e.len(),
        e.len() <= v.len(),
        0 <= t <= e.len(),
        forall|k: int| 0 <= k < e.len() ==> #[trigger] e[k] == if k == p { 1int } else { 0int },
    ensures
        dot_seq(e.take(t), v) == if p < t { v[p] } else { 0 },
    decreases t,
{
    if t > 0 {
        lemma_dot_unit_left(e, v, p, t - 1);
        assert(e.take(t).drop_last() =~= e.take(t - 1));
    }
}

/// One element of a product with the identity, and that its sums stay within `T`.
proof fn lemma_identity_entry<T: Scalar>(av: Seq<int>, m: int, i: int, j: int)
    requires
        av.len() == m * m,
        0 <= i < m,
        0 <= j < m,
        T::fits(0),
        forall|x: int| 0 <= x < m * m ==> T::fits(#[trigger] av[x]),
    ensures
        dot_seq(row_of(av, m, i), col_of(identity_vals(m), m, m, j)) == av[i * m + j],
        dot_seq(row_of(identity_vals(m), m, i), col_of(av, m, m, j)) == av[i * m + j],
        dot_fits::<T>(row_of(av, m, i), col_of(identity_vals(m), m, m, j)),
        dot_fits::<T>(row_of(identity_vals(m), m, i), col_of(av, m, m, j)),
{
    let id = identity_vals(m);
        lemma_flat_index(i, j, m, m);
    let row = row_of(av, m, i);
    let col = col_of(id, m, m, j);
    let erow = row_of(id, m, i);
    let acol = col_of(av, m, m, j);
    assert forall|k: int| 0 <= k < m implies #[trigger] col[k] == if k == j { 1int } else { 0int } by {
        lemma_flat_index(k, j, m, m);
    }
    assert forall|k: int| 0 <= k < m implies #[trigger] erow[k] == if k == i { 1int } else { 0int } by {
        lemma_flat_index(i, k, m, m);
    }
    assert forall|k: int| 0 <= k < m implies #[trigger] acol[k] == av[k * m + j] by {
        lemma_flat_index(k, j, m, m);
    }
    lemma_dot_unit_right(row, col, j, m);
    lemma_dot_unit_left(erow, acol, i, m);
    assert(row.take(m) =~= row);
    assert(erow.take(m) =~= erow);
    assert forall|k: int| 0 <= k < m implies #[trigger] T::fits(row[k] * col[k]) && T::fits(
        dot_seq(row.take(k + 1), col),
    ) by {
        lemma_flat_index(i, k, m, m);
        lemma_dot_unit_right(row, col, j, k + 1);
    }
    assert forall|k: int| 0 <= k < m implies #[trigger] T::fits(erow[k] * acol[k]) && T::fits(
        dot_seq(erow.take(k + 1), acol),
    ) by {
        lemma_flat_index(k, j, m, m);
        lemma_dot_unit_left(erow, acol, i, k + 1);
    }
}

/// Multiplying a square matrix by the identity, on either side, gives the matrix back, and
/// no intermediate sum of either product leaves the element type.
pub proof fn law_identity_neutral<T: Scalar, const M: usize, const LEN: usize>(
    a: Matrix<T, M, M, LEN>,
)
    requires
        M * M == LEN,
    ensures
        mul_fits::<T>(a.vals(), identity_vals(M as int), M as int, M as int, M as int),
        mul_fits::<T>(identity_vals(M as int), a.vals(), M as int, M as int, M as int),
        mat_mul(a.vals(), identity_vals(M as int), M as int, M as int, M as int) == a.vals(),
        mat_mul(identity_vals(M as int), a.vals(), M as int, M as int, M as int) == a.vals(),
{
    let m = M as int;
    let av = a.vals();
    let id = identity_vals(m);
    a.lemma_len();
    T::lemma_fits_zero();
    assert forall|x: int| 0 <= x < LEN implies T::fits(#[trigger] av[x]) by {
        T::lemma_val_fits(a@[x]);
    }
    assert forall|i: int, j: int| 0 <= i < m && 0 <= j < m implies #[trigger] dot_fits::<T>(
        row_of(av, m, i),
        col_of(id, m, m, j),
    ) && dot_fits::<T>(row_of(id, m, i), col_of(av, m, m, j)) by {
        lemma_identity_entry::<T>(av, m, i, j);
    }
    assert forall|i: int, j: int| 0 <= i < m && 0 <= j < m implies #[trigger] dot_fits::<T>(
        row_of(id, m, i),
        col_of(av, m, m, j),
    ) by {
        lemma_identity_entry::<T>(av, m, i, j);
    }
    assert forall|x: int| 0 <= x < LEN implies mat_mul(av, id, m, m, m)[x] == av[x] && mat_mul(
        id,
        av,
        m,
        m,
        m,
    )[x] == av[x] by {
        lemma_unflatten(x, m, m);
        lemma_identity_entry::<T>(av, m, x / m, x % m);
    }
    assert(mat_mul(av, id, m, m, m) =~= av);
    assert(mat_mul(id, av, m, m, m) =~= av);
}

/// Adding a matrix and then subtracting it again gives the first matrix back; whenever the
/// sum can be computed, so can the difference.
pub proof fn law_add_then_sub<T: Scalar, const M: usize, const N: usize, const LEN: usize>(
    a: Matrix<T, M, N, LEN>,
    b: Matrix<T, M, N, LEN>,
)
    ensures
        sub_seq(add_seq(a.vals(), b.vals()), b.vals()) == a.vals(),
        forall|i: int|
            0 <= i < LEN ==> T::fits(#[trigger] add_seq(a.vals(), b.vals())[i] - b.vals()[i]),
{
    a.lemma_len();
    b.lemma_len();
    assert forall|i: int| 0 <= i < LEN implies T::fits(
        #[trigger] add_seq(a.vals(), b.vals())[i] - b.vals()[i],
    ) by {
        T::lemma_val_fits(a@[i]);
    }
    assert(sub_seq(add_seq(a.vals(), b.vals()), b.vals()) =~= a.vals());
}

/// Reading element `c` of the copy of row `r` reads the element at `(r, c)`; reading
/// element `r` of the copy of column `c` reads the same element.
pub proof fn law_row_col_round_trip<T, const M: usize, const N: usize, const LEN: usize>(
    a: Matrix<T, M, N, LEN>,
    r: int,
    c: int,
)
    requires
        M * N == LEN,
        0 <= r < M,
        0 <= c < N,
    ensures
        row_of(a@, N as int, r)[c] == a@[r * N + c],
        col_of(a@, N as int, M as int, c)[r] == a@[r * N + c],
{
    lemma_flat_index(r, c, M as int, N as int);
    a.lemma_len();
}

/// An exact division rounds nowhere.
proof fn lemma_trunc_div_exact(a: int, k: int)
    requires
        a != 0,
    ensures
        trunc_div(a * k, a) == k,
{
    assert(abs(a * k) == abs(a) * abs(k)) by (nonlinear_arith)
        requires
            a != 0,
    {
        if a < 0 && k < 0 {
            assert(a * k == (-a) * (-k)) by (nonlinear_arith);
        } else if a < 0 {
            assert(-(a * k) == (-a) * k) by (nonlinear_arith);
            assert(a * k <= 0) by (nonlinear_arith)
                requires
                    a < 0,
                    k >= 0,
            ;
        } else if k < 0 {
            assert(-(a * k) == a * (-k)) by (nonlinear_arith);
            assert(a * k <= 0) by (nonlinear_arith)
                requires
                    a > 0,
                    k < 0,
            ;
        } else {
            assert(a * k >= 0) by (nonlinear_arith)
                requires
                    a > 0,
                    k >= 0,
            ;
        }
    }
    vstd::arithmetic::div_mod::lemma_div_multiples_vanish(abs(k), abs(a));
    assert(abs(a) * abs(k) == abs(k) * abs(a)) by (nonlinear_arith);
    if k != 0 {
        assert((a * k < 0) == ((a < 0) != (k < 0))) by (nonlinear_arith)
            requires
                a != 0,
                k != 0,
        ;
    }
}

/// For a 2 x 2 matrix `[[a, b], [c, d]]` the elimination gives the determinant
/// `a * d - b * c`.
pub proof fn law_det_2x2(v: Seq<int>)
    requires
        v.len() == 4,
    ensures
        det_of(v, 2) == v[0] * v[3] - v[1] * v[2],
{
    let k = v[0] * v[3] - v[1] * v[2];
    let s0 = det_run(v, 2, 0);
    assert(s0 == (v, 1int, 1int));
    let s1 = det_run(v, 2, 1);
    assert(s1 == det_step(s0, 2, 0));
    let s2 = det_run(v, 2, 2);
    assert(s2 == det_step(s1, 2, 1));
    if v[0] != 0 {
        assert(find_pivot(v, 2, 0, 0) == 0);
        let w = combine_rows(v, 2, 1, 0, v[0], v[2]);
        assert(elim_below(w, v[0], 2, 0, 2) == (w, v[0]));
        assert(elim_below(v, 1, 2, 0, 1) == elim_below(w, 1 * v[0], 2, 0, 2));
        assert(s1 == (w, 1int, v[0]));
        assert(w[0] == v[0]);
        assert(w[3] == v[0] * v[3] - v[2] * v[1]);
        assert(find_pivot(w, 2, 1, 1) == if w[3] != 0 { 1int } else { find_pivot(w, 2, 1, 2) });
        assert(elim_below(w, v[0], 2, 1, 2) == (w, v[0]));
        assert(s2 == s1);
        assert(diag_prod(w, 2, 1) == w[0]) by {
            assert(diag_prod(w, 2, 0) == 1);
        }
        assert(diag_prod(w, 2, 2) == w[0] * w[3]);
        assert(1 * diag_prod(w, 2, 2) == v[0] * k) by (nonlinear_arith)
            requires
                diag_prod(w, 2, 2) == w[0] * w[3],
                w[0] == v[0],
                w[3] == v[0] * v[3] - v[2] * v[1],
                k == v[0] * v[3] - v[1] * v[2],
        ;
        lemma_trunc_div_exact(v[0], k);
    } else if v[2] != 0 {
        assert(find_pivot(v, 2, 0, 0) == find_pivot(v, 2, 0, 1));
        assert(find_pivot(v, 2, 0, 1) == 1);
        let b = swap_rows(v, 2, 0, 1);
        assert(b[0] == v[2]);
        assert(b[1] == v[3]);
        assert(b[2] == v[0]);
        assert(b[3] == v[1]);
        let w = combine_rows(b, 2, 1, 0, b[0], b[2]);
        assert(elim_below(w, v[2], 2, 0, 2) == (w, v[2]));
        assert(elim_below(b, 1, 2, 0, 1) == elim_below(w, 1 * v[2], 2, 0, 2));
        assert(s1 == (w, -1int, v[2]));
        assert(w[0] == v[2]);
        assert(w[3] == v[2] * v[1] - v[0] * v[3]);
        assert(find_pivot(w, 2, 1, 1) == if w[3] != 0 { 1int } else { find_pivot(w, 2, 1, 2) });
        assert(elim_below(w, v[2], 2, 1, 2) == (w, v[2]));
        assert(s2 == s1);
        assert(diag_prod(w, 2, 1) == w[0]) by {
            assert(diag_prod(w, 2, 0) == 1);
        }
        assert(diag_prod(w, 2, 2) == w[0] * w[3]);
        assert(-1 * diag_prod(w, 2, 2) == v[2] * k) by (nonlinear_arith)
            requires
                diag_prod(w, 2, 2) == w[0] * w[3],
                w[0] == v[2],
                w[3] == v[2] * v[1] - v[0] * v[3],
                k == v[0] * v[3] - v[1] * v[2],
                v[0] == 0,
        ;
        lemma_trunc_div_exact(v[2], k);
    } else {
        assert(find_pivot(v, 2, 0, 0) == find_pivot(v, 2, 0, 1));
        assert(find_pivot(v, 2, 0, 1) == find_pivot(v, 2, 0, 2));
        assert(s1 == s0);
        assert(find_pivot(v, 2, 1, 1) == if v[3] != 0 { 1int } else { find_pivot(v, 2, 1, 2) });
        assert(elim_below(v, 1, 2, 1, 2) == (v, 1int));
        assert(s2 == s0);
        assert(diag_prod(v, 2, 1) == v[0]) by {
            assert(diag_prod(v, 2, 0) == 1);
        }
        assert(diag_prod(v, 2, 2) == v[0] * v[3]);
        assert(v[0] * v[3] == 0);
        assert(k == 0);
        assert(trunc_div(0, 1) == 0);
    }
}

} // verus!
