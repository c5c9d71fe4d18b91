//! Iterators over the elements, the rows and the columns of a matrix. Each `next` says what
//! it hands out and that, once the last item is out, every later call gives `None`.

use vstd::prelude::*;

use crate::mat::Matrix;
use crate::scalar::Scalar;

verus! {

/// Consumes a matrix and hands out its elements by value, in row-major order.
#[derive(Debug)]
pub struct IntoIter<T, const M: usize, const N: usize, const LEN: usize> {
    i: usize,
    data: [T; LEN],
}

/// Hands out references to the elements of a matrix, in row-major order.
#[derive(Debug)]
pub struct Iter<'a, T, const M: usize, const N: usize, const LEN: usize> {
    i: usize,
    data: &'a [T; LEN],
}

/// Consumes a matrix and hands out `N` vectors of `M` consecutive elements each.
#[derive(Debug)]
pub struct IntoIterRow<T, const M: usize, const N: usize, const LEN: usize> {
    i: usize,
    data: [T; LEN],
}

/// Hands out `N` vectors of references to `M` consecutive elements each.
#[derive(Debug)]
pub struct IterRow<'a, T, const M: usize, const N: usize, const LEN: usize> {
    i: usize,
    data: &'a [T; LEN],
}

/// Consumes a matrix and hands out its `M` columns.
#[derive(Debug)]
pub struct IntoIterCol<T, const M: usize, const N: usize, const LEN: usize> {
    i: usize,
    data: [T; LEN],
}

/// Hands out the `M` columns of a matrix as vectors of references.
#[derive(Debug)]
pub struct IterCol<'a, T, const M: usize, const N: usize, const LEN: usize> {
    i: usize,
    data: &'a [T; LEN],
}

/// The `i`-th run of `m` consecutive elements.
pub open spec fn chunk_of<A>(s: Seq<A>, m: int, i: int) -> Seq<A> {
    s.subrange(i * m, i * m + m)
}

/// The elements `s[j * m + i]` for `j < n`.
pub open spec fn stride_of<A>(s: Seq<A>, m: int, n: int, i: int) -> Seq<A> {
    Seq::new(n as nat, |j: int| s[j * m + i])
}

/// `v` holds references to the elements of `s`, in the same order.
pub open spec fn refs_to<A>(v: Seq<&A>, s: Seq<A>) -> bool {
    v.len() == s.len() && forall|k: int| 0 <= k < s.len() ==> *#[trigger] v[k] == s[k]
}

proof fn lemma_chunk_bounds(i: int, m: int, n: int)
    requires
        0 <= i < n,
        0 <= m,
    ensures
        0 <= i * m,
        i * m + m <= n * m,
{
    assert(0 <= i * m && i * m + m <= n * m) by (nonlinear_arith)
        requires
            0 <= i < n,
            0 <= m,
    ;
}

proof fn lemma_stride_bounds(i: int, j: int, m: int, n: int)
    requires
        0 <= i < m,
        0 <= j < n,
    ensures
        0 <= j * m + i < n * m,
{
    assert(0 <= j * m + i < n * m) by (nonlinear_arith)
        requires
            0 <= i < m,
            0 <= j < n,
    ;
}

impl<T, const M: usize, const N: usize, const LEN: usize> Matrix<T, M, N, LEN> {
    /// An iterator over references to the elements, in row-major order.
    pub fn iter(&self) -> (r: Iter<'_, T, M, N, LEN>)
        ensures
            r.consumed() == 0,
            r.items() == self@,
    {
        proof {
            self.lemma_view_is_data();
        }
        Iter { i: 0, data: &self.data }
    }

    /// An iterator over `N` vectors of references to `M` consecutive elements each.
    pub fn iter_row(&self) -> (r: IterRow<'_, T, M, N, LEN>)
        ensures
            r.consumed() == 0,
            r.items() == self@,
    {
        proof {
            use_type_invariant(self);
            self.lemma_view_is_data();
        }
        IterRow { i: 0, data: &self.data }
    }

    /// An iterator over the `M` columns, as vectors of references.
    pub fn iter_col(&self) -> (r: IterCol<'_, T, M, N, LEN>)
        ensures
            r.consumed() == 0,
            r.items() == self@,
    {
        proof {
            use_type_invariant(self);
            self.lemma_view_is_data();
        }
        IterCol { i: 0, data: &self.data }
    }
}

impl<T: Scalar, const M: usize, const N: usize, const LEN: usize> Matrix<T, M, N, LEN> {
    /// Consumes the matrix into an iterator over its elements, in row-major order.
    pub fn into_iter(self) -> (r: IntoIter<T, M, N, LEN>)
        ensures
            r.consumed() == 0,
            r.items() == self@,
    {
        proof {
            self.lemma_view_is_data();
        }
        IntoIter { i: 0, data: self.data }
    }

    /// Consumes the matrix into an iterator over `N` vectors of `M` consecutive elements.
    pub fn into_iter_row(self) -> (r: IntoIterRow<T, M, N, LEN>)
        ensures
            r.consumed() == 0,
            r.items() == self@,
    {
        proof {
            use_type_invariant(&self);
            self.lemma_view_is_data();
        }
        IntoIterRow { i: 0, data: self.data }
    }

    /// Consumes the matrix into an iterator over its `M` columns.
    pub fn into_iter_col(self) -> (r: IntoIterCol<T, M, N, LEN>)
        ensures
            r.consumed() == 0,
            r.items() == self@,
    {
        proof {
            use_type_invariant(&self);
            self.lemma_view_is_data();
        }
        IntoIterCol { i: 0, data: self.data }
    }
}

impl<T: Scalar, const M: usize, const N: usize, const LEN: usize> IntoIter<T, M, N, LEN> {
    /// How many elements have been handed out.
    pub closed spec fn consumed(&self) -> int {
        self.i as int
    }

    /// The elements, in row-major order.
    pub closed spec fn items(&self) -> Seq<T> {
        self.data@
    }

    /// The next element; None once all `LEN` have been handed out, and on every call
    /// after that.
    pub fn next(&mut self) -> (r: Option<T>)
        ensures
            final(self).items() == old(self).items(),
            old(self).consumed() < LEN ==> r == Some(old(self).items()[old(self).consumed()])
                && final(self).consumed() == old(self).consumed() + 1,
            old(self).consumed() >= LEN ==> r is None && final(self).consumed() == old(
                self,
            ).consumed(),
    {
        if self.i >= LEN {
            None
        } else {
            let val = self.data[self.i];
            self.i = self.i + 1;
            Some(val)
        }
    }
}

impl<'a, T, const M: usize, const N: usize, const LEN: usize> Iter<'a, T, M, N, LEN> {
    /// How many elements have been handed out.
    pub closed spec fn consumed(&self) -> int {
        self.i as int
    }

    /// The elements, in row-major order.
    pub closed spec fn items(&self) -> Seq<T> {
        self.data@
    }

    /// A reference to the next element; None once all `LEN` have been handed out, and on
    /// every call after that.
    pub fn next(&mut self) -> (r: Option<&'a T>)
        ensures
            final(self).items() == old(self).items(),
            old(self).consumed() < LEN ==> r == Some(&old(self).items()[old(self).consumed()])
                && final(self).consumed() == old(self).consumed() + 1,
            old(self).consumed() >= LEN ==> r is None && final(self).consumed() == old(
                self,
            ).consumed(),
    {
        if self.i >= LEN {
            None
        } else {
            let data: &'a [T; LEN] = self.data;
            let val = &data[self.i];
            self.i = self.i + 1;
            Some(val)
        }
    }
}

impl<T, const M: usize, const N: usize, const LEN: usize> IntoIterRow<T, M, N, LEN> {
    #[verifier::type_invariant]
    pub open spec fn shape_holds(&self) -> bool {
        M * N == LEN
    }

    /// How many vectors have been handed out.
    pub closed spec fn consumed(&self) -> int {
        self.i as int
    }

    /// The elements, in row-major order.
    pub closed spec fn items(&self) -> Seq<T> {
        self.data@
    }
}

impl<T: Scalar, const M: usize, const N: usize, const LEN: usize> IntoIterRow<T, M, N, LEN> {
    /// The next run of `M` consecutive elements; None once `N` have been handed out, and
    /// on every call after that.
    pub fn next(&mut self) -> (r: Option<Matrix<T, M, 1, M>>)
        ensures
            final(self).items() == old(self).items(),
            old(self).consumed() < N ==> final(self).consumed() == old(self).consumed() + 1,
            old(self).consumed() < N ==> (r matches Some(v) && v@ == chunk_of(
                old(self).items(),
                M as int,
                old(self).consumed(),
            )),
            old(self).consumed() >= N ==> r is None && final(self).consumed() == old(
                self,
            ).consumed(),
    {
        proof {
            use_type_invariant(&*self);
        }
        if self.i >= N {
            return None;
        }
        proof {
            lemma_chunk_bounds(self.i as int, M as int, N as int);
        }
        let offset = self.i * M;
        let mut row = [T::zero(); M];
        let mut j: usize = 0;
        while j < M
            invariant
                0 <= j <= M,
                offset + M <= LEN,
                offset == self.i * M,
                forall|k: int| 0 <= k < j ==> #[trigger] row@[k] == self.data@[offset + k],
            decreases M - j,
        {
            row[j] = self.data[offset + j];
            j = j + 1;
        }
        assert(row@ =~= chunk_of(self.data@, M as int, self.i as int));
        self.i = self.i + 1;
        let v = Matrix::<T, M, 1, M>::new(row);
        match v {
            Ok(mat) => Some(mat),
            Err(_) => None,
        }
    }
}

impl<'a, T, const M: usize, const N: usize, const LEN: usize> IterRow<'a, T, M, N, LEN> {
    #[verifier::type_invariant]
    pub open spec fn shape_holds(&self) -> bool {
        M * N == LEN
    }

    /// How many vectors have been handed out.
    pub closed spec fn consumed(&self) -> int {
        self.i as int
    }

    /// The elements, in row-major order.
    pub closed spec fn items(&self) -> Seq<T> {
        self.data@
    }

    /// References to the next run of `M` consecutive elements; None once `N` have been
    /// handed out, and on every call after that.
    pub fn next(&mut self) -> (r: Option<Matrix<&'a T, M, 1, M>>)
        requires
            M > 0,
        ensures
            final(self).items() == old(self).items(),
            old(self).consumed() < N ==> final(self).consumed() == old(self).consumed() + 1,
            old(self).consumed() < N ==> (r matches Some(v) && refs_to(v@, chunk_of(
                old(self).items(),
                M as int,
                old(self).consumed(),
            ))),
            old(self).consumed() >= N ==> r is None && final(self).consumed() == old(
                self,
            ).consumed(),
    {
        proof {
            use_type_invariant(&*self);
        }
        if self.i >= N {
            return None;
        }
        proof {
            lemma_chunk_bounds(self.i as int, M as int, N as int);
        }
        let data: &'a [T; LEN] = self.data;
        let offset = self.i * M;
        let mut row: [&'a T; M] = [&data[offset]; M];
        let mut j: usize = 0;
        while j < M
            invariant
                0 <= j <= M,
                offset + M <= LEN,
                offset == self.i * M,
                data == self.data,
                forall|k: int| 0 <= k < j ==> #[trigger] row@[k] == data@[offset + k],
            decreases M - j,
        {
            row[j] = &data[offset + j];
            j = j + 1;
        }
        assert(refs_to(row@, chunk_of(self.data@, M as int, self.i as int)));
        self.i = self.i + 1;
        let v = Matrix::<&'a T, M, 1, M>::new(row);
        match v {
            Ok(mat) => Some(mat),
            Err(_) => None,
        }
    }
}

impl<T, const M: usize, const N: usize, const LEN: usize> IntoIterCol<T, M, N, LEN> {
    #[verifier::type_invariant]
    pub open spec fn shape_holds(&self) -> bool {
        M * N == LEN
    }

    /// How many columns have been handed out.
    pub closed spec fn consumed(&self) -> int {
        self.i as int
    }

    /// The elements, in row-major order.
    pub closed spec fn items(&self) -> Seq<T> {
        self.data@
    }
}

impl<T: Scalar, const M: usize, const N: usize, const LEN: usize> IntoIterCol<T, M, N, LEN> {
    /// The next column, `N` elements `M` apart; None once `M` have been handed out, and on
    /// every call after that.
    pub fn next(&mut self) -> (r: Option<Matrix<T, 1, N, N>>)
        ensures
            final(self).items() == old(self).items(),
            old(self).consumed() < M ==> final(self).consumed() == old(self).consumed() + 1,
            old(self).consumed() < M ==> (r matches Some(v) && v@ == stride_of(
                old(self).items(),
                M as int,
                N as int,
                old(self).consumed(),
            )),
            old(self).consumed() >= M ==> r is None && final(self).consumed() == old(
                self,
            ).consumed(),
    {
        proof {
            use_type_invariant(&*self);
        }
        if self.i >= M {
            return None;
        }
        let mut col = [T::zero(); N];
        let mut j: usize = 0;
        while j < N
            invariant
                0 <= j <= N,
                self.i < M,
                M * N == LEN,
                forall|k: int| 0 <= k < j ==> #[trigger] col@[k] == self.data@[k * M + self.i],
            decreases N - j,
        {
            proof {
                lemma_stride_bounds(self.i as int, j as int, M as int, N as int);
            }
            col[j] = self.data[M * j + self.i];
            j = j + 1;
        }
        assert(col@ =~= stride_of(self.data@, M as int, N as int, self.i as int));
        self.i = self.i + 1;
        let v = Matrix::<T, 1, N, N>::new(col);
        match v {
            Ok(mat) => Some(mat),
            Err(_) => None,
        }
    }
}

impl<'a, T, const M: usize, const N: usize, const LEN: usize> IterCol<'a, T, M, N, LEN> {
    #[verifier::type_invariant]
    pub open spec fn shape_holds(&self) -> bool {
        M * N == LEN
    }

    /// How many columns have been handed out.
    pub closed spec fn consumed(&self) -> int {
        self.i as int
    }

    /// The elements, in row-major order.
    pub closed spec fn items(&self) -> Seq<T> {
        self.data@
    }

    /// References to the next column, `N` elements `M` apart; None once `M` have been
    /// handed out, and on every call after that.
    pub fn next(&mut self) -> (r: Option<Matrix<&'a T, 1, N, N>>)
        requires
            N > 0,
        ensures
            final(self).items() == old(self).items(),
            old(self).consumed() < M ==> final(self).consumed() == old(self).consumed() + 1,
            old(self).consumed() < M ==> (r matches Some(v) && refs_to(v@, stride_of(
                old(self).items(),
                M as int,
                N as int,
                old(self).consumed(),
            ))),
            old(self).consumed() >= M ==> r is None && final(self).consumed() == old(
                self,
            ).consumed(),
    {
        proof {
            use_type_invariant(&*self);
        }
        if self.i >= M {
            return None;
        }
        proof {
            lemma_stride_bounds(self.i as int, 0, M as int, N as int);
        }
        let data: &'a [T; LEN] = self.data;
        let mut col: [&'a T; N] = [&data[self.i]; N];
        let mut j: usize = 0;
        while j < N
            invariant
                0 <= j <= N,
                self.i < M,
                M * N == LEN,
                data == self.data,
                forall|k: int| 0 <= k < j ==> #[trigger] col@[k] == data@[k * M + self.i],
            decreases N - j,
        {
            proof {
                lemma_stride_bounds(self.i as int, j as int, M as int, N as int);
            }
            col[j] = &data[M * j + self.i];
            j = j + 1;
        }
        assert(refs_to(col@, stride_of(self.data@, M as int, N as int, self.i as int)));
        self.i = self.i + 1;
        let v = Matrix::<&'a T, 1, N, N>::new(col);
        match v {
            Ok(mat) => Some(mat),
            Err(_) => None,
        }
    }
}

} // verus!
