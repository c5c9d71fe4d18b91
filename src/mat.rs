//! The matrix type: construction, element access, rows and columns, and arithmetic.

use vstd::prelude::*;

use crate::errors::{MatrixOperationError, NewMatrixError};
use crate::identities::Identity;
use crate::math::{arr_dot, checked_arr_dot, dot_fits, dot_seq};
use crate::position::Position;
use crate::scalar::{vals_of, Scalar};

verus! {

/// Row `r` of a row-major buffer with `n` columns.
pub open spec fn row_of<A>(s: Seq<A>, n: int, r: int) -> Seq<A> {
    s.subrange(r * n, r * n + n)
}

/// Column `c` of a row-major buffer with `n` columns and `m` rows.
pub open spec fn col_of<A>(s: Seq<A>, n: int, m: int, c: int) -> Seq<A> {
    Seq::new(m as nat, |i: int| s[i * n + c])
}

/// Element-wise sum.
pub open spec fn add_seq(a: Seq<int>, b: Seq<int>) -> Seq<int> {
    Seq::new(a.len(), |i: int| a[i] + b[i])
}

/// Element-wise difference.
pub open spec fn sub_seq(a: Seq<int>, b: Seq<int>) -> Seq<int> {
    Seq::new(a.len(), |i: int| a[i] - b[i])
}

/// Every element multiplied by `s`.
pub open spec fn scale_seq(a: Seq<int>, s: int) -> Seq<int> {
    Seq::new(a.len(), |i: int| a[i] * s)
}

/// The `m x o` product of an `m x n` and an `n x o` row-major matrix: the element at
/// `(i, j)` is the dot product of row `i` of `a` with column `j` of `b`.
pub open spec fn mat_mul(a: Seq<int>, b: Seq<int>, m: int, n: int, o: int) -> Seq<int> {
    Seq::new((m * o) as nat, |x: int| dot_seq(row_of(a, n, x / o), col_of(b, o, n, x % o)))
}

/// Each dot product of `mat_mul(a, b, m, n, o)` can be computed within `T`.
pub open spec fn mul_fits<T: Scalar>(a: Seq<int>, b: Seq<int>, m: int, n: int, o: int) -> bool {
    forall|i: int, j: int|
        0 <= i < m && 0 <= j < o ==> #[trigger] dot_fits::<T>(row_of(a, n, i), col_of(b, o, n, j))
}

/// The `m x m` identity: ones on the diagonal, zeros elsewhere.
pub open spec fn identity_vals(m: int) -> Seq<int> {
    Seq::new((m * m) as nat, |x: int| if x / m == x % m { 1int } else { 0int })
}

/// Where `(i, j)` lands in a row-major buffer with `n` columns, and back.
pub proof fn lemma_flat_index(i: int, j: int, m: int, n: int)
    requires
        0 <= i < m,
        0 <= j < n,
    ensures
        0 <= i * n + j < m * n,
        (i * n + j) / n == i,
        (i * n + j) % n == j,
        i * n + n <= m * n,
{
    assert(0 <= i * n + j < m * n && i * n + n <= m * n) by (nonlinear_arith)
        requires
            0 <= i < m,
            0 <= j < n,
    ;
    vstd::arithmetic::div_mod::lemma_fundamental_div_mod_converse(i * n + j, n, i, j);
}

/// A mutable reference to element `i` of an array.
fn element_mut<T, const L: usize>(a: &mut [T; L], i: usize) -> (r: &mut T)
    requires
        i < L,
    ensures
        *r == old(a)@[i as int],
        final(a)@ == old(a)@.update(i as int, *final(r)),
    no_unwind
{
    &mut a[i]
}

/// A matrix of `M` rows and `N` columns, stored as `LEN == M * N` elements in row-major
/// order: the element at `(r, c)` sits at offset `r * N + c`.
#[derive(Debug, Copy)]
pub struct Matrix<T, const M: usize, const N: usize, const LEN: usize> {
    pub(crate) data: [T; LEN],
}

impl<T, const M: usize, const N: usize, const LEN: usize> View for Matrix<T, M, N, LEN> {
    type V = Seq<T>;

    closed spec fn view(&self) -> Seq<T> {
        self.data@
    }
}

impl<T: Copy, const M: usize, const N: usize, const LEN: usize> Clone for Matrix<T, M, N, LEN> {
    fn clone(&self) -> (r: Self)
        ensures
            r@ == self@,
    {
        *self
    }
}

impl<T: Scalar, const M: usize, const N: usize, const LEN: usize> PartialEq for Matrix<
    T,
    M,
    N,
    LEN,
> {
    fn eq(&self, o: &Self) -> (r: bool) {
        let mut i: usize = 0;
        while i < LEN
            invariant
                0 <= i <= LEN,
                forall|k: int| 0 <= k < i ==> #[trigger] self.data@[k].val() == o.data@[k].val(),
            decreases LEN - i,
        {
            if !self.data[i].equals(&o.data[i]) {
                assert(vals_of(self@)[i as int] != vals_of(o@)[i as int]);
                return false;
            }
            i = i + 1;
        }
        assert(vals_of(self@) =~= vals_of(o@));
        true
    }
}

impl<T: Scalar, const M: usize, const N: usize, const LEN: usize> vstd::std_specs::cmp::PartialEqSpecImpl for Matrix<
    T,
    M,
    N,
    LEN,
> {
    open spec fn obeys_eq_spec() -> bool {
        true
    }

    open spec fn eq_spec(&self, o: &Self) -> bool {
        vals_of(self@) == vals_of(o@)
    }
}

impl<T, const M: usize, const N: usize, const LEN: usize> Matrix<T, M, N, LEN> {
    /// The shape of every matrix agrees with the length of its buffer.
    #[verifier::type_invariant]
    pub open spec fn shape_holds(&self) -> bool {
        M * N == LEN
    }

    /// The view is the buffer.
    pub(crate) proof fn lemma_view_is_data(&self)
        ensures
            self@ == self.data@,
    {
    }

    /// A matrix's buffer holds `LEN` elements.
    pub proof fn lemma_len(&self)
        ensures
            self@.len() == LEN,
    {
    }

    /// Builds a matrix from its row-major elements. Fails with `IllegalGenerics` exactly
    /// when `M * N != LEN`.
    pub fn new(data: [T; LEN]) -> (r: Result<Self, NewMatrixError>)
        ensures
            r is Ok <==> M * N == LEN,
            r matches Ok(mat) ==> mat@ == data@,
            r matches Err(e) ==> e == NewMatrixError::IllegalGenerics,
    {
        match M.checked_mul(N) {
            Some(p) if p == LEN => Ok(Matrix { data }),
            _ => Err(NewMatrixError::IllegalGenerics),
        }
    }

    /// The row-major elements.
    pub fn as_flat_array(&self) -> (r: &[T; LEN])
        ensures
            r@ == self@,
    {
        &self.data
    }

    /// The number of rows, `M`.
    pub fn rows(&self) -> (r: usize)
        ensures
            r == M,
    {
        M
    }

    /// The number of columns, `N`.
    pub fn cols(&self) -> (r: usize)
        ensures
            r == N,
    {
        N
    }

    /// The number of elements, `LEN`.
    pub fn vol(&self) -> (r: usize)
        ensures
            r == LEN,
    {
        LEN
    }
}

impl<T: Scalar, const M: usize, const N: usize, const LEN: usize> Matrix<T, M, N, LEN> {
    /// The integers that the elements stand for, in row-major order.
    pub open spec fn vals(&self) -> Seq<int> {
        vals_of(self@)
    }

    /// A matrix of zeros. Fails with `IllegalGenerics` exactly when `M * N != LEN`.
    pub fn empty() -> (r: Result<Self, NewMatrixError>)
        ensures
            r is Ok <==> M * N == LEN,
            r matches Ok(mat) ==> mat.vals() == Seq::new(LEN as nat, |i: int| 0int),
            r matches Err(e) ==> e == NewMatrixError::IllegalGenerics,
    {
        let z = T::zero();
        let data = [z; LEN];
        let r = Self::new(data);
        proof {
            if let Ok(mat) = r {
                assert(mat.vals() =~= Seq::new(LEN as nat, |i: int| 0int));
            }
        }
        r
    }

    /// Builds a matrix from a row count, a column count and row-major elements, as a
    /// serialized matrix holds them. Fails with `GenericArgumentMismatch` when the counts
    /// are not `M` and `N`, with `IllegalArguments` when the elements are not
    /// `rows * cols`, and with `IllegalGenerics` when `M * N != LEN`.
    pub fn from_parts(rows: usize, cols: usize, data: &Vec<T>) -> (r: Result<
        Self,
        NewMatrixError,
    >)
        ensures
            rows != M || cols != N ==> r == Err::<Self, NewMatrixError>(
                NewMatrixError::GenericArgumentMismatch,
            ),
            rows == M && cols == N && rows * cols != data@.len() ==> r == Err::<
                Self,
                NewMatrixError,
            >(NewMatrixError::IllegalArguments),
            rows == M && cols == N && rows * cols == data@.len() && M * N != LEN ==> r == Err::<
                Self,
                NewMatrixError,
            >(NewMatrixError::IllegalGenerics),
            rows == M && cols == N && rows * cols == data@.len() && M * N == LEN ==> (r matches Ok(
                mat,
            ) && mat@ == data@),
    {
        if rows != M || cols != N {
            return Err(NewMatrixError::GenericArgumentMismatch);
        }
        let len = data.len();
        match rows.checked_mul(cols) {
            Some(p) if p == len => {},
            _ => {
                return Err(NewMatrixError::IllegalArguments);
            },
        }
        if data.len() != LEN {
            return Err(NewMatrixError::IllegalGenerics);
        }
        let mut flat = [T::zero(); LEN];
        let mut i: usize = 0;
        while i < LEN
            invariant
                0 <= i <= LEN,
                data@.len() == LEN,
                forall|k: int| 0 <= k < i ==> #[trigger] flat@[k] == data@[k],
            decreases LEN - i,
        {
            flat[i] = data[i];
            i = i + 1;
        }
        assert(flat@ =~= data@);
        Self::new(flat)
    }

    /// Builds a matrix from its rows. Fails with `IllegalGenerics` exactly when
    /// `M * N != LEN`.
    pub fn from_rows(data: [[T; N]; M]) -> (r: Result<Self, NewMatrixError>)
        ensures
            r is Ok <==> M * N == LEN,
            r matches Ok(mat) ==> forall|i: int, j: int|
                0 <= i < M && 0 <= j < N ==> mat@[i * N + j] == #[trigger] data@[i]@[j],
            r matches Err(e) ==> e == NewMatrixError::IllegalGenerics,
    {
        match M.checked_mul(N) {
            Some(p) if p == LEN => {},
            _ => {
                return Err(NewMatrixError::IllegalGenerics);
            },
        }
        let mut flat = [T::zero(); LEN];
        let mut i: usize = 0;
        while i < M
            invariant
                0 <= i <= M,
                M * N == LEN,
                forall|a: int, b: int|
                    0 <= a < i && 0 <= b < N ==> flat@[a * N + b] == #[trigger] data@[a]@[b],
            decreases M - i,
        {
            let row = data[i];
            let mut j: usize = 0;
            while j < N
                invariant
                    0 <= i < M,
                    0 <= j <= N,
                    M * N == LEN,
                    row == data@[i as int],
                    forall|a: int, b: int|
                        0 <= a < i && 0 <= b < N ==> flat@[a * N + b] == #[trigger] data@[a]@[b],
                    forall|b: int| 0 <= b < j ==> flat@[i * N + b] == #[trigger] data@[i as int]@[b],
                decreases N - j,
            {
                proof {
                    lemma_flat_index(i as int, j as int, M as int, N as int);
                }
                let ghost before = flat@;
                flat[i * N + j] = row[j];
                proof {
                    assert forall|a: int, b: int| 0 <= a < i && 0 <= b < N implies flat@[a * N
                        + b] == #[trigger] data@[a]@[b] by {
                        lemma_flat_index(a, b, M as int, N as int);
                        lemma_row_order(a, b, i as int, j as int, N as int);
                    }
                    assert forall|b: int| 0 <= b < j + 1 implies flat@[i * N + b]
                        == #[trigger] data@[i as int]@[b] by {
                        lemma_flat_index(i as int, b, M as int, N as int);
                    }
                }
                j = j + 1;
            }
            i = i + 1;
        }
        Self::new(flat)
    }

    /// The element at `pos = [row, col]`.
    pub fn index(&self, pos: [usize; 2]) -> (r: &T)
        requires
            pos[0] < M,
            pos[1] < N,
        ensures
            *r == self@[pos[0] * N + pos[1]],
    {
        proof {
            use_type_invariant(self);
            lemma_flat_index(pos[0] as int, pos[1] as int, M as int, N as int);
        }
        &self.data[pos[0] * N + pos[1]]
    }

    /// A mutable reference to the element at `pos = [row, col]`.
    pub fn index_mut(&mut self, pos: [usize; 2]) -> (r: &mut T)
        requires
            pos[0] < M,
            pos[1] < N,
        ensures
            *r == old(self)@[pos[0] * N + pos[1]],
            final(self)@ == old(self)@.update(pos[0] * N + pos[1], *final(r)),
    {
        proof {
            use_type_invariant(&*self);
            lemma_flat_index(pos[0] as int, pos[1] as int, M as int, N as int);
        }
        element_mut(&mut self.data, pos[0] * N + pos[1])
    }

    /// Overwrites the element at `pos = [row, col]`.
    pub fn set(&mut self, pos: [usize; 2], val: T)
        requires
            pos[0] < M,
            pos[1] < N,
        ensures
            final(self)@ == old(self)@.update(pos[0] * N + pos[1], val),
    {
        proof {
            use_type_invariant(&*self);
            lemma_flat_index(pos[0] as int, pos[1] as int, M as int, N as int);
        }
        self.data[pos[0] * N + pos[1]] = val;
    }

    /// The element at `pos`.
    pub fn index_pos(&self, pos: Position) -> (r: &T)
        requires
            pos.0 < M,
            pos.1 < N,
        ensures
            *r == self@[pos.0 * N + pos.1],
    {
        self.index([pos.0, pos.1])
    }

    /// Overwrites the element at `pos`.
    pub fn set_pos(&mut self, pos: Position, val: T)
        requires
            pos.0 < M,
            pos.1 < N,
        ensures
            final(self)@ == old(self)@.update(pos.0 * N + pos.1, val),
    {
        self.set([pos.0, pos.1], val)
    }

    /// Row `row`, copied into a fresh vector of `N` elements.
    pub fn get_row(&self, row: usize) -> (r: Matrix<T, N, 1, N>)
        requires
            row < M,
        ensures
            r@ == row_of(self@, N as int, row as int),
    {
        proof {
            use_type_invariant(self);
            assert(row * N + N <= M * N) by (nonlinear_arith)
                requires
                    row < M,
            ;
        }
        let mut out = [T::zero(); N];
        let mut i: usize = 0;
        while i < N
            invariant
                0 <= i <= N,
                row * N + N <= LEN,
                forall|k: int| 0 <= k < i ==> #[trigger] out@[k] == self@[row * N + k],
            decreases N - i,
        {
            out[i] = self.data[row * N + i];
            i = i + 1;
        }
        assert forall|k: int| 0 <= k < N implies out@[k] == row_of(
            self@,
            N as int,
            row as int,
        )[k] by {
            assert(out@[k] == self@[row * N + k]);
        }
        assert(out@ =~= row_of(self@, N as int, row as int));
        Matrix { data: out }
    }

    /// Column `col`, copied into a fresh vector of `M` elements.
    pub fn get_col(&self, col: usize) -> (r: Matrix<T, M, 1, M>)
        requires
            col < N,
        ensures
            r@ == col_of(self@, N as int, M as int, col as int),
    {
        proof {
            use_type_invariant(self);
        }
        let mut out = [T::zero(); M];
        let mut i: usize = 0;
        while i < M
            invariant
                0 <= i <= M,
                col < N,
                M * N == LEN,
                forall|k: int| 0 <= k < i ==> out@[k] == #[trigger] self@[k * N + col],
            decreases M - i,
        {
            out[i] = *self.index([i, col]);
            i = i + 1;
        }
        assert(out@ =~= col_of(self@, N as int, M as int, col as int));
        Matrix { data: out }
    }
}

impl<T: Scalar, const M: usize, const N: usize, const LEN: usize> Matrix<T, M, N, LEN> {
    /// Every element multiplied by `scalar`.
    pub fn mul_scalar(&self, scalar: T) -> (r: Self)
        requires
            forall|i: int| 0 <= i < LEN ==> T::fits(#[trigger] self.vals()[i] * scalar.val()),
        ensures
            r.vals() == scale_seq(self.vals(), scalar.val()),
    {
        let mut out = [T::zero(); LEN];
        let mut i: usize = 0;
        while i < LEN
            invariant
                0 <= i <= LEN,
                forall|j: int| 0 <= j < LEN ==> T::fits(#[trigger] self.vals()[j] * scalar.val()),
                forall|k: int| 0 <= k < i ==> #[trigger] out@[k].val() == self@[k].val() * scalar.val(),
            decreases LEN - i,
        {
            assert(T::fits(self.vals()[i as int] * scalar.val()));
            out[i] = self.data[i].times(scalar);
            i = i + 1;
        }
        proof {
            use_type_invariant(self);
        }
        let r = Matrix { data: out };
        assert(r.vals() =~= scale_seq(self.vals(), scalar.val()));
        r
    }

    /// The element-wise sum of two matrices of the same shape.
    pub fn add(self, rhs: Self) -> (r: Self)
        requires
            forall|i: int| 0 <= i < LEN ==> T::fits(#[trigger] self.vals()[i] + rhs.vals()[i]),
        ensures
            r.vals() == add_seq(self.vals(), rhs.vals()),
    {
        let mut out = [T::zero(); LEN];
        let mut i: usize = 0;
        while i < LEN
            invariant
                0 <= i <= LEN,
                forall|j: int| 0 <= j < LEN ==> T::fits(#[trigger] self.vals()[j] + rhs.vals()[j]),
                forall|k: int| 0 <= k < i ==> #[trigger] out@[k].val() == self@[k].val() + rhs@[k].val(),
            decreases LEN - i,
        {
            assert(T::fits(self.vals()[i as int] + rhs.vals()[i as int]));
            out[i] = self.data[i].plus(rhs.data[i]);
            i = i + 1;
        }
        proof {
            use_type_invariant(&self);
        }
        let r = Matrix { data: out };
        assert(r.vals() =~= add_seq(self.vals(), rhs.vals()));
        r
    }

    /// The element-wise difference of two matrices of the same shape.
    pub fn sub(self, rhs: Self) -> (r: Self)
        requires
            forall|i: int| 0 <= i < LEN ==> T::fits(#[trigger] self.vals()[i] - rhs.vals()[i]),
        ensures
            r.vals() == sub_seq(self.vals(), rhs.vals()),
    {
        let mut out = [T::zero(); LEN];
        let mut i: usize = 0;
        while i < LEN
            invariant
                0 <= i <= LEN,
                forall|j: int| 0 <= j < LEN ==> T::fits(#[trigger] self.vals()[j] - rhs.vals()[j]),
                forall|k: int| 0 <= k < i ==> #[trigger] out@[k].val() == self@[k].val() - rhs@[k].val(),
            decreases LEN - i,
        {
            assert(T::fits(self.vals()[i as int] - rhs.vals()[i as int]));
            out[i] = self.data[i].minus(rhs.data[i]);
            i = i + 1;
        }
        proof {
            use_type_invariant(&self);
        }
        let r = Matrix { data: out };
        assert(r.vals() =~= sub_seq(self.vals(), rhs.vals()));
        r
    }

    /// The `M x O` product of this `M x N` matrix with an `N x O` matrix: the element at
    /// `(i, j)` is the dot product of row `i` of `self` with column `j` of `other`.
    pub fn multiply<const O: usize, const Q: usize, const RES_LEN: usize>(
        &self,
        other: &Matrix<T, N, O, Q>,
    ) -> (r: Matrix<T, M, O, RES_LEN>)
        requires
            M * O == RES_LEN,
            mul_fits::<T>(self.vals(), other.vals(), M as int, N as int, O as int),
        ensures
            r.vals() == mat_mul(self.vals(), other.vals(), M as int, N as int, O as int),
    {
        let ghost va = self.vals();
        let ghost vb = other.vals();
        let mut out = [T::zero(); RES_LEN];
        let mut i: usize = 0;
        while i < M
            invariant
                0 <= i <= M,
                M * O == RES_LEN,
                va == self.vals(),
                vb == other.vals(),
                mul_fits::<T>(va, vb, M as int, N as int, O as int),
                forall|a: int, b: int|
                    0 <= a < i && 0 <= b < O ==> #[trigger] out@[a * O + b].val() == dot_seq(
                        row_of(va, N as int, a),
                        col_of(vb, O as int, N as int, b),
                    ),
            decreases M - i,
        {
            let row = self.get_row(i);
            proof {
                use_type_invariant(self);
                assert(0 <= i * N && i * N + N <= M * N) by (nonlinear_arith)
                    requires
                        i < M,
                ;
                lemma_vals_row(self@, N as int, i as int);
            }
            let mut j: usize = 0;
            while j < O
                invariant
                    0 <= i < M,
                    0 <= j <= O,
                    M * O == RES_LEN,
                    va == self.vals(),
                    vb == other.vals(),
                    row.vals() == row_of(va, N as int, i as int),
                    mul_fits::<T>(va, vb, M as int, N as int, O as int),
                    forall|a: int, b: int|
                        0 <= a < i && 0 <= b < O ==> #[trigger] out@[a * O + b].val() == dot_seq(
                            row_of(va, N as int, a),
                            col_of(vb, O as int, N as int, b),
                        ),
                    forall|b: int|
                        0 <= b < j ==> #[trigger] out@[i * O + b].val() == dot_seq(
                            row_of(va, N as int, i as int),
                            col_of(vb, O as int, N as int, b),
                        ),
                decreases O - j,
            {
                let col = other.get_col(j);
                proof {
                    use_type_invariant(other);
                    assert forall|k: int| 0 <= k < N implies 0 <= #[trigger] (k * O) + j
                        < other@.len() by {
                        lemma_flat_index(k, j as int, N as int, O as int);
                    }
                    lemma_vals_col(other@, O as int, N as int, j as int);
                    assert(dot_fits::<T>(
                        row_of(va, N as int, i as int),
                        col_of(vb, O as int, N as int, j as int),
                    ));
                    lemma_flat_index(i as int, j as int, M as int, O as int);
                }
                let d = row.dot(&col);
                out[i * O + j] = d;
                proof {
                    assert forall|a: int, b: int| 0 <= a < i && 0 <= b < O implies #[trigger] out@[a
                        * O + b].val() == dot_seq(
                        row_of(va, N as int, a),
                        col_of(vb, O as int, N as int, b),
                    ) by {
                        lemma_flat_index(a, b, M as int, O as int);
                        lemma_row_order(a, b, i as int, j as int, O as int);
                    }
                    assert forall|b: int| 0 <= b < j + 1 implies #[trigger] out@[i * O + b].val()
                        == dot_seq(
                        row_of(va, N as int, i as int),
                        col_of(vb, O as int, N as int, b),
                    ) by {
                        lemma_flat_index(i as int, b, M as int, O as int);
                    }
                }
                j = j + 1;
            }
            i = i + 1;
        }
        let r = Matrix { data: out };
        proof {
            let mm = mat_mul(va, vb, M as int, N as int, O as int);
            assert forall|x: int| 0 <= x < RES_LEN implies r.vals()[x] == mm[x] by {
                lemma_unflatten(x, M as int, O as int);
                assert(r.vals()[x] == out@[x].val());
                assert(out@[(x / O as int) * O + x % (O as int)].val() == dot_seq(
                    row_of(va, N as int, x / O as int),
                    col_of(vb, O as int, N as int, x % O as int),
                ));
            }
            assert(r.vals() =~= mm);
        }
        r
    }

    /// The product as `multiply` gives it when every value its computation goes through
    /// fits in `T`; None exactly when one does not.
    pub fn checked_multiply<const O: usize, const Q: usize, const RES_LEN: usize>(
        &self,
        other: &Matrix<T, N, O, Q>,
    ) -> (r: Option<Matrix<T, M, O, RES_LEN>>)
        requires
            M * O == RES_LEN,
        ensures
            r is Some <==> mul_fits::<T>(self.vals(), other.vals(), M as int, N as int, O as int),
            r matches Some(p) ==> p.vals() == mat_mul(
                self.vals(),
                other.vals(),
                M as int,
                N as int,
                O as int,
            ),
    {
        let ghost va = self.vals();
        let ghost vb = other.vals();
        let mut out = [T::zero(); RES_LEN];
        let mut i: usize = 0;
        while i < M
            invariant
                0 <= i <= M,
                M * O == RES_LEN,
                va == self.vals(),
                vb == other.vals(),
                forall|a: int, b: int|
                    0 <= a < i && 0 <= b < O ==> #[trigger] dot_fits::<T>(
                        row_of(va, N as int, a),
                        col_of(vb, O as int, N as int, b),
                    ),
                forall|a: int, b: int|
                    0 <= a < i && 0 <= b < O ==> #[trigger] out@[a * O + b].val() == dot_seq(
                        row_of(va, N as int, a),
                        col_of(vb, O as int, N as int, b),
                    ),
            decreases M - i,
        {
            let row = self.get_row(i);
            proof {
                use_type_invariant(self);
                assert(0 <= i * N && i * N + N <= M * N) by (nonlinear_arith)
                    requires
                        i < M,
                ;
                lemma_vals_row(self@, N as int, i as int);
            }
            let mut j: usize = 0;
            while j < O
                invariant
                    0 <= i < M,
                    0 <= j <= O,
                    M * O == RES_LEN,
                    va == self.vals(),
                    vb == other.vals(),
                    row.vals() == row_of(va, N as int, i as int),
                    forall|a: int, b: int|
                        0 <= a < i && 0 <= b < O ==> #[trigger] dot_fits::<T>(
                            row_of(va, N as int, a),
                            col_of(vb, O as int, N as int, b),
                        ),
                    forall|b: int|
                        0 <= b < j ==> #[trigger] dot_fits::<T>(
                            row_of(va, N as int, i as int),
                            col_of(vb, O as int, N as int, b),
                        ),
                    forall|a: int, b: int|
                        0 <= a < i && 0 <= b < O ==> #[trigger] out@[a * O + b].val() == dot_seq(
                            row_of(va, N as int, a),
                            col_of(vb, O as int, N as int, b),
                        ),
                    forall|b: int|
                        0 <= b < j ==> #[trigger] out@[i * O + b].val() == dot_seq(
                            row_of(va, N as int, i as int),
                            col_of(vb, O as int, N as int, b),
                        ),
                decreases O - j,
            {
                let col = other.get_col(j);
                proof {
                    use_type_invariant(other);
                    assert forall|k: int| 0 <= k < N implies 0 <= #[trigger] (k * O) + j
                        < other@.len() by {
                        lemma_flat_index(k, j as int, N as int, O as int);
                    }
                    lemma_vals_col(other@, O as int, N as int, j as int);
                    row.lemma_view_is_data();
                    col.lemma_view_is_data();
                    lemma_flat_index(i as int, j as int, M as int, O as int);
                }
                let d = match checked_arr_dot(row.data, col.data) {
                    Some(d) => d,
                    None => {
                        assert(!dot_fits::<T>(
                            row_of(va, N as int, i as int),
                            col_of(vb, O as int, N as int, j as int),
                        ));
                        return None;
                    },
                };
                out[i * O + j] = d;
                proof {
                    assert forall|a: int, b: int| 0 <= a < i && 0 <= b < O implies #[trigger] out@[a
                        * O + b].val() == dot_seq(
                        row_of(va, N as int, a),
                        col_of(vb, O as int, N as int, b),
                    ) by {
                        lemma_flat_index(a, b, M as int, O as int);
                        lemma_row_order(a, b, i as int, j as int, O as int);
                    }
                    assert forall|b: int| 0 <= b < j + 1 implies #[trigger] out@[i * O + b].val()
                        == dot_seq(
                        row_of(va, N as int, i as int),
                        col_of(vb, O as int, N as int, b),
                    ) by {
                        lemma_flat_index(i as int, b, M as int, O as int);
                    }
                }
                assert(dot_fits::<T>(
                    row_of(va, N as int, i as int),
                    col_of(vb, O as int, N as int, j as int),
                ));
                j = j + 1;
            }
            i = i + 1;
        }
        let r = Matrix { data: out };
        proof {
            let mm = mat_mul(va, vb, M as int, N as int, O as int);
            assert forall|x: int| 0 <= x < RES_LEN implies r.vals()[x] == mm[x] by {
                lemma_unflatten(x, M as int, O as int);
                assert(r.vals()[x] == out@[x].val());
                assert(out@[(x / O as int) * O + x % (O as int)].val() == dot_seq(
                    row_of(va, N as int, x / O as int),
                    col_of(vb, O as int, N as int, x % O as int),
                ));
            }
            assert(r.vals() =~= mm);
        }
        assert(mul_fits::<T>(va, vb, M as int, N as int, O as int));
        Some(r)
    }
}

/// The `m x m` matrix with `d` on the diagonal and zeros elsewhere.
pub open spec fn diag_vals(m: int, d: int) -> Seq<int> {
    Seq::new((m * m) as nat, |x: int| if x / m == x % m { d } else { 0int })
}

impl<T: Scalar, const M: usize, const LEN: usize> Matrix<T, M, M, LEN> {
    /// The square matrix with `val` on the diagonal and zeros elsewhere.
    pub fn diag(val: T) -> (r: Self)
        requires
            M * M == LEN,
        ensures
            r.vals() == diag_vals(M as int, val.val()),
    {
        let mut data = [T::zero(); LEN];
        let mut i: usize = 0;
        while i < M
            invariant
                0 <= i <= M,
                M * M == LEN,
                forall|x: int|
                    0 <= x < LEN ==> #[trigger] data@[x].val() == (if x / (M as int) == x % (M as int)
                        && x / (M as int) < i {
                        val.val()
                    } else {
                        0
                    }),
            decreases M - i,
        {
            proof {
                lemma_flat_index(i as int, i as int, M as int, M as int);
            }
            data[i * M + i] = val;
            proof {
                assert forall|x: int| 0 <= x < LEN implies #[trigger] data@[x].val() == (if x / (
                M as int) == x % (M as int) && x / (M as int) < i + 1 {
                    val.val()
                } else {
                    0
                }) by {
                    lemma_unflatten(x, M as int, M as int);
                }
            }
            i = i + 1;
        }
        let r = Matrix { data };
        proof {
            let want = diag_vals(M as int, val.val());
            assert forall|x: int| 0 <= x < LEN implies r.vals()[x] == want[x] by {
                lemma_unflatten(x, M as int, M as int);
                assert(r.vals()[x] == data@[x].val());
            }
        }
        assert(r.vals() =~= diag_vals(M as int, val.val()));
        r
    }
}

impl<T: Scalar, const M: usize, const LEN: usize> Identity for Matrix<T, M, M, LEN> {
    /// A square matrix has an identity when its shape is consistent.
    open spec fn has_identity() -> bool {
        M * M == LEN
    }

    open spec fn is_identity(&self) -> bool {
        self.vals() == identity_vals(M as int)
    }

    /// The identity matrix: the element type's identity on the diagonal, zeros elsewhere.
    fn identity() -> (r: Self) {
        proof {
            T::lemma_has_identity();
        }
        let one = T::identity();
        proof {
            T::lemma_identity_is_one(one);
        }
        let r = Self::diag(one);
        assert(diag_vals(M as int, 1) =~= identity_vals(M as int));
        r
    }
}

impl<T: Scalar, const M: usize> Matrix<T, M, 1, M> {
    /// The dot product of two vectors, summed from left to right.
    pub fn dot(&self, other: &Self) -> (r: T)
        requires
            dot_fits::<T>(self.vals(), other.vals()),
        ensures
            r.val() == dot_seq(self.vals(), other.vals()),
    {
        arr_dot(self.data, other.data)
    }
}

/// Splits a row-major offset `x < m * n` into its row and column.
pub proof fn lemma_unflatten(x: int, m: int, n: int)
    requires
        0 <= m,
        0 <= x < m * n,
    ensures
        0 <= x / n < m,
        0 <= x % n < n,
        x == (x / n) * n + x % n,
{
    if n <= 0 {
        assert(m * n <= 0) by (nonlinear_arith)
            requires
                m >= 0,
                n <= 0,
        ;
    }
    vstd::arithmetic::div_mod::lemma_fundamental_div_mod(x, n);
    vstd::arithmetic::div_mod::lemma_mod_pos_bound(x, n);
    let q = x / n;
    let r = x % n;
    assert(0 <= q < m && x == q * n + r) by (nonlinear_arith)
        requires
            x == n * q + r,
            0 <= r < n,
            0 <= x < m * n,
    ;
}

/// Taking the integers of a row commutes with taking the row.
proof fn lemma_vals_row<T: Scalar>(s: Seq<T>, n: int, r: int)
    requires
        0 <= r * n,
        0 <= n,
        r * n + n <= s.len(),
    ensures
        vals_of(row_of(s, n, r)) == row_of(vals_of(s), n, r),
{
    assert(vals_of(row_of(s, n, r)) =~= row_of(vals_of(s), n, r));
}

/// Taking the integers of a column commutes with taking the column.
proof fn lemma_vals_col<T: Scalar>(s: Seq<T>, n: int, m: int, c: int)
    requires
        0 <= m,
        forall|i: int| 0 <= i < m ==> 0 <= #[trigger] (i * n) + c < s.len(),
    ensures
        vals_of(col_of(s, n, m, c)) == col_of(vals_of(s), n, m, c),
{
    assert forall|i: int| 0 <= i < m implies vals_of(col_of(s, n, m, c))[i] == col_of(
        vals_of(s),
        n,
        m,
        c,
    )[i] by {
        assert(0 <= i * n + c < s.len());
    }
    assert(vals_of(col_of(s, n, m, c)).len() == m);
    assert(col_of(vals_of(s), n, m, c).len() == m);
    assert(vals_of(col_of(s, n, m, c)) =~= col_of(vals_of(s), n, m, c));
}

/// Offsets of earlier rows, or of earlier columns in the same row, come first.
proof fn lemma_row_order(a: int, b: int, i: int, j: int, n: int)
    requires
        0 <= b < n,
        0 <= j < n,
        0 <= a,
        a < i || (a == i && b < j),
    ensures
        a * n + b < i * n + j,
{
    assert(a * n + b < i * n + j) by (nonlinear_arith)
        requires
            0 <= b < n,
            0 <= j < n,
            0 <= a,
            a < i || (a == i && b < j),
    ;
}

} // verus!
