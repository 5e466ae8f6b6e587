//! The square matrix: one row-major buffer of `side_length * side_length`
//! cells, owned by the matrix and freed once when it is dropped.
use vstd::prelude::*;

use crate::capacity::reserved_capacity;
use crate::model::{
    is_square, lemma_construct_then_row, lemma_offset_bounds, model_of_rows, rows_view, MatrixModel,
};
use vstd::slice::{slice_subrange, slice_to_vec};

verus! {

/// Why a matrix operation was refused.
#[derive(Debug, Clone, Copy, PartialEq, Eq, Structural)]
pub enum MatrixError {
    /// Some row's length differs from the number of rows.
    NotSquare,
    /// A row or column index is not below the side length.
    OutOfRange,
}

/// A square matrix of `i32`. The buffer is a `Vec`, which records its own
/// capacity, so the allocation is released exactly once when the matrix is
/// dropped, with the size it was made with.
pub struct Matrix {
    data: Vec<i32>,
    side_length: usize,
}

impl View for Matrix {
    type V = MatrixModel;

    closed spec fn view(&self) -> MatrixModel {
        MatrixModel { side: self.side_length as nat, cells: self.data@ }
    }
}

/// The `Debug` text of a list of rows.
pub uninterp spec fn debug_text_of(rows: Seq<Seq<i32>>) -> Seq<char>;

/// Relies on the standard `Debug` formatting of `Vec<Vec<i32>>`, whose text
/// depends on the rows alone.
#[verifier::external_body]
fn debug_text(rows: &Vec<Vec<i32>>) -> (r: String)
    ensures
        r@ == debug_text_of(rows_view(rows@)),
{
    format!("{:?}", rows)
}

/// An empty buffer for an `n` by `n` matrix, with the capacity that the
/// reservation rule gives for `n * n` cells.
fn reserve_cells(n: usize) -> (r: Vec<i32>)
    ensures
        r@ == Seq::<i32>::empty(),
{
    match n.checked_mul(n) {
        Some(total) => match reserved_capacity(total) {
            Some(cap) => Vec::with_capacity(cap),
            None => Vec::new(),
        },
        None => Vec::new(),
    }
}

/// Moves the cells of square rows, row after row, into one new buffer.
fn flatten_owned(rows: Vec<Vec<i32>>) -> (r: Vec<i32>)
    requires
        is_square(rows_view(rows@)),
    ensures
        r@ == rows_view(rows@).flatten(),
{
    let ghost view = rows_view(rows@);
    let mut rows = rows;
    let n = rows.len();
    let mut out = reserve_cells(n);
    let mut k: usize = 0;
    while k < n
        invariant
            n == rows@.len(),
            view.len() == n,
            k <= n,
            forall|i: int| k <= i < n ==> #[trigger] rows@[i]@ == view[i],
            out@ == view.subrange(0, k as int).flatten(),
        decreases n - k,
    {
        let ghost row = view[k as int];
        out.append(&mut rows[k]);
        proof {
            assert(view.subrange(0, k + 1) =~= view.subrange(0, k as int).push(row));
            view.subrange(0, k as int).lemma_flatten_push(row);
        }
        k += 1;
    }
    assert(view.subrange(0, n as int) =~= view);
    out
}

/// Copies square rows, row after row, into one new buffer.
fn flatten_rows(rows: &[Vec<i32>]) -> (r: Vec<i32>)
    requires
        is_square(rows_view(rows@)),
    ensures
        r@ == rows_view(rows@).flatten(),
{
    let ghost view = rows_view(rows@);
    let n = rows.len();
    let mut out = reserve_cells(n);
    let mut k: usize = 0;
    while k < n
        invariant
            n == rows@.len(),
            view == rows_view(rows@),
            k <= n,
            out@ == view.subrange(0, k as int).flatten(),
        decreases n - k,
    {
        let row = &rows[k];
        let ghost before = out@;
        let mut j: usize = 0;
        while j < row.len()
            invariant
                j <= row@.len(),
                out@ == before + row@.subrange(0, j as int),
            decreases row@.len() - j,
        {
            out.push(row[j]);
            j += 1;
            assert(out@ =~= before + row@.subrange(0, j as int));
        }
        proof {
            assert(view.subrange(0, k + 1) =~= view.subrange(0, k as int).push(row@));
            view.subrange(0, k as int).lemma_flatten_push(row@);
            assert(row@.subrange(0, j as int) =~= row@);
        }
        k += 1;
    }
    assert(view.subrange(0, n as int) =~= view);
    out
}

/// Whether every row is as long as there are rows.
fn rows_are_square(rows: &[Vec<i32>]) -> (r: bool)
    ensures
        r == is_square(rows_view(rows@)),
{
    let n = rows.len();
    let mut k: usize = 0;
    while k < n
        invariant
            n == rows@.len(),
            k <= n,
            forall|i: int| 0 <= i < k ==> #[trigger] rows@[i]@.len() == n,
        decreases n - k,
    {
        if rows[k].len() != n {
            assert(rows_view(rows@)[k as int].len() != rows_view(rows@).len());
            return false;
        }
        k += 1;
    }
    assert forall|i: int| 0 <= i < rows_view(rows@).len() implies #[trigger] rows_view(
        rows@,
    )[i].len() == rows_view(rows@).len() by {
        assert(rows@[i]@.len() == n);
    }
    true
}

impl Matrix {
    /// The buffer holds exactly `side_length * side_length` cells.
    pub open spec fn wf(&self) -> bool {
        self@.wf()
    }

    /// Builds a matrix from square rows, which it consumes.
    pub fn new(m: Vec<Vec<i32>>) -> (r: Matrix)
        requires
            is_square(rows_view(m@)),
        ensures
            r.wf(),
            r@ == model_of_rows(rows_view(m@)),
    {
        let n = m.len();
        let ghost view = rows_view(m@);
        let data = flatten_owned(m);
        proof {
            lemma_construct_then_row(view);
        }
        Matrix { data, side_length: n }
    }

    /// Builds a matrix from owned rows, or reports that they are not square.
    pub fn try_new(m: Vec<Vec<i32>>) -> (r: Result<Matrix, MatrixError>)
        ensures
            match r {
                Ok(x) => is_square(rows_view(m@)) && x.wf() && x@ == model_of_rows(rows_view(m@)),
                Err(e) => !is_square(rows_view(m@)) && e == MatrixError::NotSquare,
            },
    {
        if rows_are_square(m.as_slice()) {
            Ok(Self::new(m))
        } else {
            Err(MatrixError::NotSquare)
        }
    }

    /// Builds a matrix from borrowed rows, copying every cell, or reports that
    /// they are not square.
    pub fn from_rows(rows: &[Vec<i32>]) -> (r: Result<Matrix, MatrixError>)
        ensures
            match r {
                Ok(x) => is_square(rows_view(rows@)) && x.wf() && x@ == model_of_rows(rows_view(rows@)),
                Err(e) => !is_square(rows_view(rows@)) && e == MatrixError::NotSquare,
            },
    {
        if rows_are_square(rows) {
            let data = flatten_rows(rows);
            proof {
                lemma_construct_then_row(rows_view(rows@));
            }
            Ok(Matrix { data, side_length: rows.len() })
        } else {
            Err(MatrixError::NotSquare)
        }
    }

    /// The place of cell `(i, j)` in the buffer.
    fn offset(&self, i: usize, j: usize) -> (r: usize)
        requires
            self.wf(),
            self@.in_range(i as int, j as int),
        ensures
            r == self@.offset(i as int, j as int),
            r < self.data@.len(),
    {
        proof {
            lemma_offset_bounds(self.side_length as nat, i as int, j as int);
        }
        let len = self.data.len();
        assert(i * self.side_length + j < len);
        i * self.side_length + j
    }

    /// Hands out cell `(i, j)` for reading and writing; the matrix afterwards
    /// holds whatever the cell was left with.
    pub fn at(&mut self, i: usize, j: usize) -> (r: &mut i32)
        requires
            old(self).wf(),
            old(self)@.in_range(i as int, j as int),
        ensures
            final(self).wf(),
            *r == old(self)@.element(i as int, j as int),
            final(self)@ == old(self)@.with_element(i as int, j as int, *final(r)),
    {
        let k = self.offset(i, j);
        &mut self.data[k]
    }

    /// Cell `(i, j)`, or `None` when either index is out of range.
    pub fn get(&self, i: usize, j: usize) -> (r: Option<i32>)
        requires
            self.wf(),
        ensures
            r == if self@.in_range(i as int, j as int) {
                Some(self@.element(i as int, j as int))
            } else {
                None::<i32>
            },
    {
        if i < self.side_length && j < self.side_length {
            let k = self.offset(i, j);
            Some(self.data[k])
        } else {
            None
        }
    }

    /// Writes `v` to cell `(i, j)`, or reports an index out of range and
    /// leaves the matrix as it was.
    pub fn set(&mut self, i: usize, j: usize, v: i32) -> (r: Result<(), MatrixError>)
        requires
            old(self).wf(),
        ensures
            final(self).wf(),
            old(self)@.in_range(i as int, j as int) ==> r == Ok::<(), MatrixError>(())
                && final(self)@ == old(self)@.with_element(i as int, j as int, v),
            !old(self)@.in_range(i as int, j as int) ==> r == Err::<(), MatrixError>(
                MatrixError::OutOfRange,
            ) && final(self)@ == old(self)@,
    {
        if i < self.side_length && j < self.side_length {
            let k = self.offset(i, j);
            self.data.set(k, v);
            Ok(())
        } else {
            Err(MatrixError::OutOfRange)
        }
    }

    /// Row `i` as a slice of `side_length` cells of the buffer.
    pub fn row(&self, i: usize) -> (r: &[i32])
        requires
            self.wf(),
            i < self@.side,
        ensures
            r@ == self@.row(i as int),
    {
        proof {
            lemma_offset_bounds(self.side_length as nat, i as int, 0);
        }
        let start = self.offset(i, 0);
        let len = self.data.len();
        slice_subrange(self.data.as_slice(), start, start + self.side_length)
    }

    /// Row `i` as a mutable slice of the buffer; the matrix afterwards holds
    /// whatever the row was left with. A slice keeps its length, so the
    /// matrix stays well formed.
    pub fn row_mut(&mut self, i: usize) -> (r: &mut [i32])
        requires
            old(self).wf(),
            i < old(self)@.side,
        ensures
            final(r)@.len() == old(self)@.side ==> final(self).wf(),
            r@ == old(self)@.row(i as int),
            final(self)@ == old(self)@.with_row(i as int, final(r)@),
    {
        proof {
            lemma_offset_bounds(self.side_length as nat, i as int, 0);
        }
        let start = self.offset(i, 0);
        let n = self.side_length;
        let (before, rest) = self.data.as_mut_slice().split_at_mut(start);
        let (row, after) = rest.split_at_mut(n);
        proof {
            assert(has_resolved(before));
            assert(has_resolved(after));
            assert(final(before)@ + (final(row)@ + final(after)@) =~= old(self)@.with_row(
                i as int,
                final(row)@,
            ).cells);
        }
        row
    }

    /// The matrix as a vector of its rows, in order, each a fresh copy; the
    /// matrix itself is only read.
    pub fn to_rows(&self) -> (r: Vec<Vec<i32>>)
        requires
            self.wf(),
        ensures
            rows_view(r@) == self@.rows(),
    {
        let n = self.side_length;
        let mut out: Vec<Vec<i32>> = Vec::with_capacity(n);
        let mut i: usize = 0;
        while i < n
            invariant
                self.wf(),
                n == self@.side,
                i <= n,
                rows_view(out@) == self@.rows().subrange(0, i as int),
            decreases n - i,
        {
            let row = slice_to_vec(self.row(i));
            let ghost before = out@;
            out.push(row);
            proof {
                assert(self@.rows()[i as int] == row@);
                assert(rows_view(out@) =~= rows_view(before).push(row@));
            }
            i += 1;
            assert(rows_view(out@) =~= self@.rows().subrange(0, i as int));
        }
        assert(self@.rows().subrange(0, n as int) =~= self@.rows());
        out
    }

    /// The rows written out as nested lists, such as `[[1, 2], [3, 4]]`.
    pub fn debug_string(&self) -> (r: String)
        requires
            self.wf(),
        ensures
            r@ == debug_text_of(self@.rows()),
    {
        let rows = self.to_rows();
        debug_text(&rows)
    }

    /// The number of rows, which is also the number of columns.
    pub fn side_length(&self) -> (r: usize)
        ensures
            r == self@.side,
    {
        self.side_length
    }
}

} // verus!
