//! The dense GF(256) matrix: a height x width grid of field elements
//! in row-major contiguous storage, with the in-place mutations a
//! Gaussian-elimination solver needs — row scaling, fused multiply-add
//! of one row into another, row swap, and column swap.

use vstd::prelude::*;
use crate::octet::{gf_add, gf_mul, lemma_gf_mul_one_left, Octet};
use crate::octets::{
    add_assign, bit_value, fused_addassign_mul_scalar, fused_addassign_mul_scalar_binary,
    mulassign_scalar, BinaryOctetVec,
};

verus! {

/// A dense matrix over GF(256). The element at `(i, j)` lives at
/// offset `i * width + j` of the backing buffer, which holds exactly
/// `height * width` bytes.
#[derive(Clone, Debug, PartialEq, PartialOrd, Eq, Ord, Hash)]
pub struct DenseOctetMatrix {
    pub height: usize,
    pub width: usize,
    pub elements: Vec<u8>,
}

impl DenseOctetMatrix {
    /// The shape invariant: the backing buffer holds exactly one byte
    /// per logical coordinate.
    pub open spec fn wf(self) -> bool {
        self.elements@.len() == self.height * self.width
    }

    /// The field element stored at `(i, j)`, as a byte.
    pub open spec fn entry(self, i: int, j: int) -> u8 {
        self.elements@[i * self.width + j]
    }

    /// Whether `(i, j)` is a logical coordinate of this matrix.
    pub open spec fn valid_coord(self, i: int, j: int) -> bool {
        0 <= i < self.height && 0 <= j < self.width
    }

    /// Whether two matrices have the same dimensions.
    pub open spec fn same_shape(self, other: Self) -> bool {
        self.height == other.height && self.width == other.width
    }
}

/// `post` is `pre` with the full contents of rows `i` and `j`
/// exchanged and every other row unchanged (for `i == j` this says the
/// matrix is unchanged).
pub open spec fn rows_swapped(pre: DenseOctetMatrix, post: DenseOctetMatrix, i: int, j: int) -> bool {
    &&& post.same_shape(pre)
    &&& forall|c: int| 0 <= c < pre.width ==> #[trigger] post.entry(i, c) == pre.entry(j, c)
    &&& forall|c: int| 0 <= c < pre.width ==> #[trigger] post.entry(j, c) == pre.entry(i, c)
    &&& forall|r: int, c: int|
        pre.valid_coord(r, c) && r != i && r != j ==> #[trigger] post.entry(r, c) == pre.entry(r, c)
}

/// `post` is `pre` with the values in columns `i` and `j` exchanged on
/// every row from `start_row` on, and the rows before `start_row` as
/// well as all other columns unchanged.
pub open spec fn columns_swapped(
    pre: DenseOctetMatrix,
    post: DenseOctetMatrix,
    i: int,
    j: int,
    start_row: int,
) -> bool {
    &&& post.same_shape(pre)
    &&& forall|r: int|
        start_row <= r < pre.height ==> #[trigger] post.entry(r, i) == pre.entry(r, j)
    &&& forall|r: int|
        start_row <= r < pre.height ==> #[trigger] post.entry(r, j) == pre.entry(r, i)
    &&& forall|r: int, c: int|
        pre.valid_coord(r, c) && (r < start_row || (c != i && c != j)) ==> #[trigger] post.entry(
            r,
            c,
        ) == pre.entry(r, c)
}

/// Every in-range coordinate maps into the buffer, and a row offset
/// alone cannot overflow past it.
proof fn lemma_index_bound(h: int, w: int, i: int, j: int)
    by (nonlinear_arith)
    requires
        0 <= i < h,
        0 <= j < w,
    ensures
        0 <= i * w,
        i * w + j < h * w,
{
}

/// A whole row `[i * w, i * w + w)` lies inside the buffer.
proof fn lemma_row_span(h: int, w: int, i: int)
    by (nonlinear_arith)
    requires
        0 <= i < h,
        0 <= w,
    ensures
        0 <= i * w,
        i * w + w <= h * w,
{
}

/// Distinct coordinates map to distinct offsets (row-major layout is
/// injective).
proof fn lemma_distinct_cells(w: int, r1: int, c1: int, r2: int, c2: int)
    by (nonlinear_arith)
    requires
        0 <= r1,
        0 <= r2,
        0 <= c1 < w,
        0 <= c2 < w,
        !(r1 == r2 && c1 == c2),
    ensures
        r1 * w + c1 != r2 * w + c2,
{
}

/// An offset of one row lies outside the span of any other row.
proof fn lemma_other_row_offset(w: int, row: int, r: int, c: int)
    by (nonlinear_arith)
    requires
        0 <= row,
        0 <= r,
        r != row,
        0 <= c < w,
    ensures
        r * w + c < row * w || r * w + c >= row * w + w,
{
}

/// The spans of two distinct rows are disjoint.
proof fn lemma_rows_disjoint(w: int, a: int, b: int)
    by (nonlinear_arith)
    requires
        0 <= a,
        0 <= b,
        a != b,
        0 <= w,
    ensures
        a * w + w <= b * w || b * w + w <= a * w,
{
}

/// Every buffer offset is reached by exactly one coordinate: it
/// decomposes as `k == (k / w) * w + k % w` with an in-range row and
/// column.
proof fn lemma_flat_decompose(h: int, w: int, k: int)
    by (nonlinear_arith)
    requires
        0 <= h,
        0 <= w,
        0 <= k < h * w,
    ensures
        0 < w,
        0 <= k / w < h,
        0 <= k % w < w,
        k == (k / w) * w + k % w,
{
}

/// Two well-formed matrices of the same shape whose entries agree at
/// every coordinate have identical backing buffers.
pub proof fn lemma_entrywise_eq(a: DenseOctetMatrix, b: DenseOctetMatrix)
    requires
        a.wf(),
        b.wf(),
        a.same_shape(b),
        forall|r: int, c: int| a.valid_coord(r, c) ==> #[trigger] a.entry(r, c) == b.entry(r, c),
    ensures
        a.elements@ == b.elements@,
{
    assert forall|k: int| 0 <= k < a.elements@.len() implies a.elements@[k] == b.elements@[k] by {
        lemma_flat_decompose(a.height as int, a.width as int, k);
        let r = k / (a.width as int);
        let c = k % (a.width as int);
        assert(a.entry(r, c) == b.entry(r, c));
    }
    assert(a.elements@ =~= b.elements@);
}

/// Swapping the same pair of rows twice restores the original matrix
/// exactly.
pub proof fn lemma_swap_rows_twice(
    m0: DenseOctetMatrix,
    m1: DenseOctetMatrix,
    m2: DenseOctetMatrix,
    i: int,
    j: int,
)
    requires
        m0.wf(),
        m1.wf(),
        m2.wf(),
        0 <= i < m0.height,
        0 <= j < m0.height,
        rows_swapped(m0, m1, i, j),
        rows_swapped(m1, m2, i, j),
    ensures
        m2.same_shape(m0),
        m2.elements@ == m0.elements@,
{
    assert forall|r: int, c: int| m2.valid_coord(r, c) implies #[trigger] m2.entry(r, c)
        == m0.entry(r, c) by {
        if r == i {
            assert(m2.entry(i, c) == m1.entry(j, c));
            assert(m1.entry(j, c) == m0.entry(i, c));
        } else if r == j {
            assert(m2.entry(j, c) == m1.entry(i, c));
            assert(m1.entry(i, c) == m0.entry(j, c));
        } else {
            assert(m1.entry(r, c) == m0.entry(r, c));
        }
    }
    lemma_entrywise_eq(m2, m0);
}

/// Swapping a row with itself is a no-op.
pub proof fn lemma_swap_rows_self_noop(m0: DenseOctetMatrix, m1: DenseOctetMatrix, i: int)
    requires
        m0.wf(),
        m1.wf(),
        0 <= i < m0.height,
        rows_swapped(m0, m1, i, i),
    ensures
        m1.same_shape(m0),
        m1.elements@ == m0.elements@,
{
    assert forall|r: int, c: int| m1.valid_coord(r, c) implies #[trigger] m1.entry(r, c)
        == m0.entry(r, c) by {
        if r == i {
            assert(m1.entry(i, c) == m0.entry(i, c));
        } else {
            assert(m1.entry(r, c) == m0.entry(r, c));
        }
    }
    lemma_entrywise_eq(m1, m0);
}

/// Swapping the same pair of columns twice, from the same starting
/// row, restores the original matrix exactly.
pub proof fn lemma_swap_columns_twice(
    m0: DenseOctetMatrix,
    m1: DenseOctetMatrix,
    m2: DenseOctetMatrix,
    i: int,
    j: int,
    start_row: int,
)
    requires
        m0.wf(),
        m1.wf(),
        m2.wf(),
        0 <= i < m0.width,
        0 <= j < m0.width,
        0 <= start_row,
        columns_swapped(m0, m1, i, j, start_row),
        columns_swapped(m1, m2, i, j, start_row),
    ensures
        m2.same_shape(m0),
        m2.elements@ == m0.elements@,
{
    assert forall|r: int, c: int| m2.valid_coord(r, c) implies #[trigger] m2.entry(r, c)
        == m0.entry(r, c) by {
        if start_row <= r && c == i {
            assert(m2.entry(r, i) == m1.entry(r, j));
            assert(m1.entry(r, j) == m0.entry(r, i));
        } else if start_row <= r && c == j {
            assert(m2.entry(r, j) == m1.entry(r, i));
            assert(m1.entry(r, i) == m0.entry(r, j));
        } else {
            assert(m1.entry(r, c) == m0.entry(r, c));
        }
    }
    lemma_entrywise_eq(m2, m0);
}

/// Swapping a column with itself changes no entry, from whatever
/// starting row.
pub proof fn lemma_swap_columns_self_noop(
    m0: DenseOctetMatrix,
    m1: DenseOctetMatrix,
    i: int,
    start_row: int,
)
    requires
        m0.wf(),
        m1.wf(),
        0 <= i < m0.width,
        0 <= start_row,
        columns_swapped(m0, m1, i, i, start_row),
    ensures
        m1.same_shape(m0),
        m1.elements@ == m0.elements@,
{
    assert forall|r: int, c: int| m1.valid_coord(r, c) implies #[trigger] m1.entry(r, c)
        == m0.entry(r, c) by {
        if start_row <= r && c == i {
            assert(m1.entry(r, i) == m0.entry(r, i));
        } else {
            assert(m1.entry(r, c) == m0.entry(r, c));
        }
    }
    lemma_entrywise_eq(m1, m0);
}

/// Scaling a row by the multiplicative identity leaves the matrix
/// unchanged: a matrix that relates to another as `mul_assign_row`
/// with scalar one says is that other matrix.
pub proof fn lemma_scale_row_identity(pre: DenseOctetMatrix, post: DenseOctetMatrix, row: int)
    requires
        pre.wf(),
        post.wf(),
        post.same_shape(pre),
        0 <= row < pre.height,
        forall|c: int|
            0 <= c < pre.width ==> #[trigger] post.entry(row, c) == gf_mul(1, pre.entry(row, c)),
        forall|r: int, c: int|
            pre.valid_coord(r, c) && r != row ==> #[trigger] post.entry(r, c) == pre.entry(r, c),
    ensures
        post.elements@ == pre.elements@,
{
    assert forall|r: int, c: int| post.valid_coord(r, c) implies #[trigger] post.entry(r, c)
        == pre.entry(r, c) by {
        if r == row {
            lemma_gf_mul_one_left(pre.entry(row, c));
            assert(post.entry(row, c) == gf_mul(1, pre.entry(row, c)));
        } else {
            assert(post.entry(r, c) == pre.entry(r, c));
        }
    }
    lemma_entrywise_eq(post, pre);
}

impl DenseOctetMatrix {
    /// A zero-initialized matrix of the given shape. The third
    /// argument is a storage-planning hint from the caller and does
    /// not affect the logical shape.
    pub fn new(height: usize, width: usize, _size_hint: usize) -> (r: DenseOctetMatrix)
        requires
            height * width <= usize::MAX,
        ensures
            r.wf(),
            r.height == height,
            r.width == width,
            forall|i: int, j: int| r.valid_coord(i, j) ==> r.entry(i, j) == 0,
    {
        let total: usize = height * width;
        let mut elements: Vec<u8> = Vec::new();
        while elements.len() < total
            invariant
                elements@.len() <= total,
                forall|k: int| 0 <= k < elements@.len() ==> elements@[k] == 0,
            decreases total - elements@.len(),
        {
            elements.push(0);
        }
        let m = DenseOctetMatrix { height, width, elements };
        proof {
            assert forall|i: int, j: int| m.valid_coord(i, j) implies m.entry(i, j) == 0 by {
                lemma_index_bound(height as int, width as int, i, j);
            }
        }
        m
    }

    /// The value at `(i, j)`.
    pub fn get(&self, i: usize, j: usize) -> (r: Octet)
        requires
            self.wf(),
            i < self.height,
            j < self.width,
        ensures
            r@ == self.entry(i as int, j as int),
    {
        let _buf_len: usize = self.elements.len();
        proof {
            lemma_index_bound(self.height as int, self.width as int, i as int, j as int);
        }
        Octet::new(self.elements[i * self.width + j])
    }

    /// Overwrites the value at `(i, j)`; every other entry and the
    /// shape are unchanged.
    pub fn set(&mut self, i: usize, j: usize, value: Octet)
        requires
            old(self).wf(),
            i < old(self).height,
            j < old(self).width,
        ensures
            final(self).wf(),
            final(self).same_shape(*old(self)),
            final(self).entry(i as int, j as int) == value@,
            forall|r: int, c: int|
                old(self).valid_coord(r, c) && !(r == i && c == j)
                    ==> #[trigger] final(self).entry(r, c) == old(self).entry(r, c),
    {
        let _buf_len: usize = self.elements.len();
        proof {
            lemma_index_bound(self.height as int, self.width as int, i as int, j as int);
        }
        let idx: usize = i * self.width + j;
        self.elements.set(idx, value.byte());
        proof {
            assert forall|r: int, c: int|
                old(self).valid_coord(r, c) && !(r == i && c == j) implies #[trigger] self.entry(
                r,
                c,
            ) == old(self).entry(r, c) by {
                lemma_index_bound(self.height as int, self.width as int, r, c);
                lemma_distinct_cells(self.width as int, r, c, i as int, j as int);
            }
        }
    }

    /// The number of rows.
    pub fn height(&self) -> (r: usize)
        ensures
            r == self.height,
    {
        self.height
    }

    /// The number of columns.
    pub fn width(&self) -> (r: usize)
        ensures
            r == self.width,
    {
        self.width
    }

    /// Multiplies every element of `row` by `value` in place; every
    /// other row and the shape are unchanged.
    pub fn mul_assign_row(&mut self, row: usize, value: &Octet)
        requires
            old(self).wf(),
            row < old(self).height,
        ensures
            final(self).wf(),
            final(self).same_shape(*old(self)),
            forall|c: int|
                0 <= c < old(self).width ==> #[trigger] final(self).entry(row as int, c) == gf_mul(
                    value@,
                    old(self).entry(row as int, c),
                ),
            forall|r: int, c: int|
                old(self).valid_coord(r, c) && r != row ==> #[trigger] final(self).entry(r, c)
                    == old(self).entry(r, c),
    {
        let _buf_len: usize = self.elements.len();
        proof {
            lemma_row_span(self.height as int, self.width as int, row as int);
        }
        let start: usize = row * self.width;
        mulassign_scalar(&mut self.elements, start, self.width, value);
        proof {
            assert forall|r: int, c: int|
                old(self).valid_coord(r, c) && r != row implies #[trigger] self.entry(r, c) == old(
                self,
            ).entry(r, c) by {
                lemma_index_bound(self.height as int, self.width as int, r, c);
                lemma_other_row_offset(self.width as int, row as int, r, c);
            }
        }
    }

    /// Adds `scalar` times row `multiplicand` into row `dest`, field
    /// arithmetic, in place: `dest[c] += scalar * multiplicand[c]` for
    /// every column. The two rows must be distinct; the source row and
    /// every other entry are unchanged.
    pub fn fma_rows(&mut self, dest: usize, multiplicand: usize, scalar: &Octet)
        requires
            old(self).wf(),
            dest < old(self).height,
            multiplicand < old(self).height,
            dest != multiplicand,
        ensures
            final(self).wf(),
            final(self).same_shape(*old(self)),
            forall|c: int|
                0 <= c < old(self).width ==> #[trigger] final(self).entry(dest as int, c) == gf_add(
                    old(self).entry(dest as int, c),
                    gf_mul(scalar@, old(self).entry(multiplicand as int, c)),
                ),
            forall|r: int, c: int|
                old(self).valid_coord(r, c) && r != dest ==> #[trigger] final(self).entry(r, c)
                    == old(self).entry(r, c),
    {
        let _buf_len: usize = self.elements.len();
        proof {
            lemma_row_span(self.height as int, self.width as int, dest as int);
            lemma_row_span(self.height as int, self.width as int, multiplicand as int);
            lemma_rows_disjoint(self.width as int, dest as int, multiplicand as int);
        }
        let dest_start: usize = dest * self.width;
        let src_start: usize = multiplicand * self.width;
        if scalar.byte() == 1 {
            add_assign(&mut self.elements, dest_start, src_start, self.width);
            proof {
                assert forall|c: int|
                    0 <= c < old(self).width implies #[trigger] self.entry(dest as int, c)
                    == gf_add(
                    old(self).entry(dest as int, c),
                    gf_mul(scalar@, old(self).entry(multiplicand as int, c)),
                ) by {
                    lemma_gf_mul_one_left(old(self).entry(multiplicand as int, c));
                }
            }
        } else {
            fused_addassign_mul_scalar(&mut self.elements, dest_start, src_start, self.width, scalar);
        }
        proof {
            assert forall|r: int, c: int|
                old(self).valid_coord(r, c) && r != dest implies #[trigger] self.entry(r, c)
                == old(self).entry(r, c) by {
                lemma_index_bound(self.height as int, self.width as int, r, c);
                lemma_other_row_offset(self.width as int, dest as int, r, c);
            }
        }
    }

    /// Adds `scalar` times the binary row vector `other` into the
    /// entries `(row, start_col + k)`, field arithmetic, in place;
    /// every entry outside that span is unchanged.
    pub fn fma_sub_row(&mut self, row: usize, start_col: usize, scalar: &Octet, other: &BinaryOctetVec)
        requires
            old(self).wf(),
            row < old(self).height,
            start_col + other@.len() <= old(self).width,
        ensures
            final(self).wf(),
            final(self).same_shape(*old(self)),
            forall|k: int|
                0 <= k < other@.len() ==> #[trigger] final(self).entry(row as int, start_col + k)
                    == gf_add(
                    old(self).entry(row as int, start_col + k),
                    gf_mul(scalar@, bit_value(other@[k])),
                ),
            forall|r: int, c: int|
                old(self).valid_coord(r, c) && !(r == row && start_col <= c < start_col
                    + other@.len()) ==> #[trigger] final(self).entry(r, c) == old(self).entry(r, c),
    {
        let _buf_len: usize = self.elements.len();
        proof {
            lemma_row_span(self.height as int, self.width as int, row as int);
        }
        let start: usize = row * self.width + start_col;
        fused_addassign_mul_scalar_binary(&mut self.elements, start, other, scalar);
        proof {
            assert forall|k: int|
                0 <= k < other@.len() implies #[trigger] self.entry(row as int, start_col + k)
                == gf_add(
                old(self).entry(row as int, start_col + k),
                gf_mul(scalar@, bit_value(other@[k])),
            ) by {
                assert(self.elements@[start + k] == gf_add(
                    old(self).elements@[start + k],
                    gf_mul(scalar@, bit_value(other@[k])),
                ));
                assert(row as int * self.width + (start_col + k) == start + k);
            }
            assert forall|r: int, c: int|
                old(self).valid_coord(r, c) && !(r == row && start_col <= c < start_col
                    + other@.len()) implies #[trigger] self.entry(r, c) == old(self).entry(r, c) by {
                lemma_index_bound(self.height as int, self.width as int, r, c);
                if r != row {
                    lemma_other_row_offset(self.width as int, row as int, r, c);
                }
            }
        }
    }

    /// Exchanges the entire contents of rows `i` and `j` in place; a
    /// swap of a row with itself changes nothing. Both row base
    /// offsets use the row stride `width`, so the exchange is correct
    /// for non-square matrices as well.
    pub fn swap_rows(&mut self, i: usize, j: usize)
        requires
            old(self).wf(),
            i < old(self).height,
            j < old(self).height,
        ensures
            final(self).wf(),
            rows_swapped(*old(self), *final(self), i as int, j as int),
    {
        if i == j {
            return ;
        }
        let n: usize = self.elements.len();
        proof {
            lemma_row_span(self.height as int, self.width as int, i as int);
            lemma_row_span(self.height as int, self.width as int, j as int);
            lemma_rows_disjoint(self.width as int, i as int, j as int);
        }
        let w: usize = self.width;
        let iw: usize = i * w;
        let jw: usize = j * w;
        let mut c: usize = 0;
        while c < w
            invariant
                c <= w,
                w == self.width,
                self.height == old(self).height,
                self.width == old(self).width,
                iw == i * w,
                jw == j * w,
                iw + w <= n,
                jw + w <= n,
                iw + w <= jw || jw + w <= iw,
                self.elements@.len() == n,
                n == old(self).elements@.len(),
                forall|k: int|
                    0 <= k < n && !(iw <= k < iw + c) && !(jw <= k < jw + c)
                        ==> #[trigger] self.elements@[k] == old(self).elements@[k],
                forall|k: int|
                    iw <= k < iw + c ==> #[trigger] self.elements@[k] == old(self).elements@[jw + (
                    k - iw
                    )],
                forall|k: int|
                    jw <= k < jw + c ==> #[trigger] self.elements@[k] == old(self).elements@[iw + (
                    k - jw
                    )],
            decreases w - c,
        {
            let a: u8 = self.elements[iw + c];
            let b: u8 = self.elements[jw + c];
            self.elements.set(iw + c, b);
            self.elements.set(jw + c, a);
            c = c + 1;
        }
        proof {
            let pre = *old(self);
            assert forall|c0: int| 0 <= c0 < pre.width implies #[trigger] self.entry(i as int, c0)
                == pre.entry(j as int, c0) by {
                assert(self.elements@[iw + c0] == pre.elements@[jw + c0]);
            }
            assert forall|c0: int| 0 <= c0 < pre.width implies #[trigger] self.entry(j as int, c0)
                == pre.entry(i as int, c0) by {
                assert(self.elements@[jw + c0] == pre.elements@[iw + c0]);
            }
            assert forall|r: int, c0: int|
                pre.valid_coord(r, c0) && r != i && r != j implies #[trigger] self.entry(r, c0)
                == pre.entry(r, c0) by {
                lemma_index_bound(self.height as int, self.width as int, r, c0);
                lemma_other_row_offset(self.width as int, i as int, r, c0);
                lemma_other_row_offset(self.width as int, j as int, r, c0);
            }
        }
    }

    /// Exchanges the values in columns `i` and `j` on every row from
    /// `start_row_hint` to the bottom of the matrix; rows before
    /// `start_row_hint` — whose column order elimination has already
    /// fixed — and all other columns are untouched.
    pub fn swap_columns(&mut self, i: usize, j: usize, start_row_hint: usize)
        requires
            old(self).wf(),
            i < old(self).width,
            j < old(self).width,
            start_row_hint <= old(self).height,
        ensures
            final(self).wf(),
            columns_swapped(*old(self), *final(self), i as int, j as int, start_row_hint as int),
    {
        let n: usize = self.elements.len();
        let mut row: usize = start_row_hint;
        while row < self.height
            invariant
                start_row_hint <= row <= self.height,
                self.height == old(self).height,
                self.width == old(self).width,
                i < self.width,
                j < self.width,
                self.elements@.len() == n,
                n == old(self).elements@.len(),
                n == self.height * self.width,
                forall|r: int, c: int|
                    old(self).valid_coord(r, c) ==> #[trigger] self.entry(r, c) == (
                    if start_row_hint <= r < row && c == i {
                        old(self).entry(r, j as int)
                    } else if start_row_hint <= r < row && c == j {
                        old(self).entry(r, i as int)
                    } else {
                        old(self).entry(r, c)
                    }),
            decreases self.height - row,
        {
            proof {
                lemma_row_span(self.height as int, self.width as int, row as int);
            }
            let ghost prev = *self;
            let off: usize = row * self.width;
            proof {
                assert(prev.entry(row as int, i as int) == old(self).entry(row as int, i as int));
                assert(prev.entry(row as int, j as int) == old(self).entry(row as int, j as int));
            }
            let a: u8 = self.elements[off + i];
            let b: u8 = self.elements[off + j];
            self.elements.set(off + i, b);
            self.elements.set(off + j, a);
            proof {
                assert forall|r: int, c: int|
                    old(self).valid_coord(r, c) implies #[trigger] self.entry(r, c) == (
                    if start_row_hint <= r < row + 1 && c == i {
                        old(self).entry(r, j as int)
                    } else if start_row_hint <= r < row + 1 && c == j {
                        old(self).entry(r, i as int)
                    } else {
                        old(self).entry(r, c)
                    }) by {
                    lemma_index_bound(self.height as int, self.width as int, r, c);
                    assert(prev.entry(r, c) == (
                    if start_row_hint <= r < row && c == i {
                        old(self).entry(r, j as int)
                    } else if start_row_hint <= r < row && c == j {
                        old(self).entry(r, i as int)
                    } else {
                        old(self).entry(r, c)
                    }));
                    if !(r == row && c == i) {
                        lemma_distinct_cells(self.width as int, r, c, row as int, i as int);
                    }
                    if !(r == row && c == j) {
                        lemma_distinct_cells(self.width as int, r, c, row as int, j as int);
                    }
                }
            }
            row = row + 1;
        }
    }

    /// The memory footprint: the struct itself plus one byte per
    /// element.
    pub fn size_in_bytes(&self) -> (r: usize)
        requires
            self.wf(),
            vstd::layout::size_of::<DenseOctetMatrix>() + self.height * self.width <= usize::MAX,
        ensures
            r == vstd::layout::size_of::<DenseOctetMatrix>() + self.height * self.width,
    {
        let mut bytes: usize = core::mem::size_of::<DenseOctetMatrix>();
        bytes = bytes + self.elements.len();
        bytes
    }
}

} // verus!
