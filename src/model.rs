//! The mathematical model of a square matrix: its side length and its cells
//! in row-major order, with the laws that relate rows, cells and writes.
use vstd::prelude::*;

verus! {

/// A square matrix as a side length and a row-major sequence of cells.
pub struct MatrixModel {
    pub side: nat,
    pub cells: Seq<i32>,
}

/// Every row has as many cells as there are rows.
pub open spec fn is_square(rows: Seq<Seq<i32>>) -> bool {
    forall|i: int| 0 <= i < rows.len() ==> #[trigger] rows[i].len() == rows.len()
}

/// The contents of a sequence of vectors.
pub open spec fn rows_view(rows: Seq<Vec<i32>>) -> Seq<Seq<i32>> {
    rows.map_values(|r: Vec<i32>| r@)
}

/// The matrix whose rows are `rows`, laid out row after row.
pub open spec fn model_of_rows(rows: Seq<Seq<i32>>) -> MatrixModel {
    MatrixModel { side: rows.len(), cells: rows.flatten() }
}

impl MatrixModel {
    /// The cells fill exactly `side * side` places.
    pub open spec fn wf(self) -> bool {
        self.cells.len() == self.side * self.side
    }

    pub open spec fn in_range(self, i: int, j: int) -> bool {
        0 <= i < self.side && 0 <= j < self.side
    }

    /// The place of cell `(i, j)` in the row-major buffer.
    pub open spec fn offset(self, i: int, j: int) -> int {
        i * self.side + j
    }

    pub open spec fn element(self, i: int, j: int) -> i32 {
        self.cells[self.offset(i, j)]
    }

    /// The `side` consecutive cells that make up row `i`.
    pub open spec fn row(self, i: int) -> Seq<i32> {
        self.cells.subrange(self.offset(i, 0), self.offset(i, 0) + self.side)
    }

    /// The matrix as a sequence of its rows.
    pub open spec fn rows(self) -> Seq<Seq<i32>> {
        Seq::new(self.side, |i: int| self.row(i))
    }

    /// The matrix with cell `(i, j)` set to `v`.
    pub open spec fn with_element(self, i: int, j: int, v: i32) -> MatrixModel {
        MatrixModel { side: self.side, cells: self.cells.update(self.offset(i, j), v) }
    }

    /// The matrix with row `i` replaced by `r`.
    pub open spec fn with_row(self, i: int, r: Seq<i32>) -> MatrixModel {
        MatrixModel {
            side: self.side,
            cells: self.cells.subrange(0, self.offset(i, 0)) + r + self.cells.subrange(
                self.offset(i, 0) + self.side,
                self.cells.len() as int,
            ),
        }
    }
}

/// A cell in range lies inside the buffer, and so does the row that holds it.
pub proof fn lemma_offset_bounds(n: nat, i: int, j: int)
    requires
        0 <= i < n,
        0 <= j < n,
    ensures
        0 <= i * n <= i * n + j < i * n + n <= n * n,
{
    assert(0 <= i * n) by (nonlinear_arith)
        requires
            0 <= i,
            0 <= n,
    ;
    assert(i * n + n <= n * n) by (nonlinear_arith)
        requires
            i < n,
            0 <= i,
    ;
}

/// Two cells in range share a place in the buffer only when they are the same cell.
pub proof fn lemma_offset_injective(n: nat, i: int, j: int, k: int, l: int)
    requires
        0 <= i < n,
        0 <= j < n,
        0 <= k < n,
        0 <= l < n,
        i * n + j == k * n + l,
    ensures
        i == k,
        j == l,
{
    if i < k {
        assert(i * n + n <= k * n) by (nonlinear_arith)
            requires
                i < k,
                0 <= n,
        ;
    } else if k < i {
        assert(k * n + n <= i * n) by (nonlinear_arith)
            requires
                k < i,
                0 <= n,
        ;
    }
}

/// Rows of equal length `n`, laid out one after another, put cell `(i, j)`
/// at place `i * n + j`.
proof fn lemma_flatten_uniform(rows: Seq<Seq<i32>>, n: nat)
    requires
        forall|k: int| 0 <= k < rows.len() ==> #[trigger] rows[k].len() == n,
    ensures
        rows.flatten().len() == rows.len() * n,
        forall|i: int, j: int|
            0 <= i < rows.len() && 0 <= j < n ==> #[trigger] rows.flatten()[i * n + j]
                == rows[i][j],
    decreases rows.len(),
{
    if rows.len() > 0 {
        let rest = rows.drop_first();
        lemma_flatten_uniform(rest, n);
        assert(rows.flatten() == rows[0] + rest.flatten());
        assert(rows.len() * n == n + rest.len() * n) by (nonlinear_arith)
            requires
                rows.len() == rest.len() + 1,
        ;
        assert forall|i: int, j: int|
            0 <= i < rows.len() && 0 <= j < n implies #[trigger] rows.flatten()[i * n + j]
                == rows[i][j] by {
            if i > 0 {
                assert(i * n + j == n + ((i - 1) * n + j)) by (nonlinear_arith);
                lemma_offset_bounds(rest.len(), 0, 0);
                assert(0 <= (i - 1) * n) by (nonlinear_arith)
                    requires
                        i >= 1,
                ;
                assert((i - 1) * n + j < rest.len() * n) by (nonlinear_arith)
                    requires
                        i - 1 < rest.len(),
                        j < n,
                ;
                assert(rest[i - 1] == rows[i]);
            }
        }
    }
}

/// A matrix built from square rows is well formed, has one row per input row,
/// and its row `i` is exactly input row `i`.
pub proof fn lemma_construct_then_row(rows: Seq<Seq<i32>>)
    requires
        is_square(rows),
    ensures
        model_of_rows(rows).wf(),
        model_of_rows(rows).side == rows.len(),
        forall|i: int|
            0 <= i < rows.len() ==> #[trigger] model_of_rows(rows).row(i) == rows[i],
{
    let n = rows.len();
    let m = model_of_rows(rows);
    lemma_flatten_uniform(rows, n);
    assert forall|i: int| 0 <= i < n implies #[trigger] m.row(i) == rows[i] by {
        lemma_offset_bounds(n, i, 0);
        assert forall|j: int| 0 <= j < n implies m.row(i)[j] == rows[i][j] by {
            assert(m.row(i)[j] == rows.flatten()[i * n + j]);
        }
        assert(m.row(i) =~= rows[i]);
    }
}

/// Formatting a matrix built from square rows gives back those rows.
pub proof fn lemma_rows_round_trip(rows: Seq<Seq<i32>>)
    requires
        is_square(rows),
    ensures
        model_of_rows(rows).rows() == rows,
{
    lemma_construct_then_row(rows);
    assert(model_of_rows(rows).rows() =~= rows);
}

/// After writing `v` to cell `(i, j)`, that cell reads `v`, every other cell
/// reads as before, and the matrix stays well formed.
pub proof fn lemma_write_then_read(m: MatrixModel, i: int, j: int, v: i32)
    requires
        m.wf(),
        m.in_range(i, j),
    ensures
        m.with_element(i, j, v).wf(),
        m.with_element(i, j, v).element(i, j) == v,
        forall|k: int, l: int|
            m.in_range(k, l) && (k != i || l != j) ==> #[trigger] m.with_element(i, j, v).element(
                k,
                l,
            ) == m.element(k, l),
{
    lemma_offset_bounds(m.side, i, j);
    assert forall|k: int, l: int|
        m.in_range(k, l) && (k != i || l != j) implies #[trigger] m.with_element(
        i,
        j,
        v,
    ).element(k, l) == m.element(k, l) by {
        lemma_offset_bounds(m.side, k, l);
        if k * m.side + l == i * m.side + j {
            lemma_offset_injective(m.side, k, l, i, j);
        }
    }
}

/// Reading cell `j` of row `i` and reading cell `(i, j)` agree, on any well
/// formed matrix and on the same matrix after any write.
pub proof fn lemma_row_matches_element(m: MatrixModel, i: int, j: int, wi: int, wj: int, v: i32)
    requires
        m.wf(),
        m.in_range(i, j),
        m.in_range(wi, wj),
    ensures
        m.row(i)[j] == m.element(i, j),
        m.with_element(wi, wj, v).row(i)[j] == m.with_element(wi, wj, v).element(i, j),
{
    lemma_offset_bounds(m.side, i, j);
    lemma_write_then_read(m, wi, wj, v);
}

} // verus!
