//! Dense row-major matrices and the operations of linear algebra on them.

use crate::error::LalaError;
use crate::scalar::Scalar;
use vstd::prelude::*;

verus! {

/// Position of cell `(r, c)` in row-major storage with `cols` columns.
pub open spec fn flat(r: int, c: int, cols: int) -> int {
    r * cols + c
}

/// A cell inside the grid has its position inside the storage.
pub proof fn lemma_flat_in_range(r: int, c: int, rows: int, cols: int)
    requires
        0 <= r < rows,
        0 <= c < cols,
    ensures
        0 <= r * cols <= flat(r, c, cols) < rows * cols,
{
    assert(r * cols + c < rows * cols) by (nonlinear_arith)
        requires
            0 <= r < rows,
            0 <= c < cols,
    ;
    assert(0 <= r * cols) by (nonlinear_arith)
        requires
            0 <= r,
            0 < cols,
    ;
}

/// A position inside the storage is that of a cell inside the grid.
pub proof fn lemma_cell_of_position(k: int, rows: int, cols: int)
    requires
        0 <= k < rows * cols,
        0 <= rows,
        0 <= cols,
    ensures
        0 <= k / cols < rows,
        0 <= k % cols < cols,
        flat(k / cols, k % cols, cols) == k,
{
    assert(cols > 0) by (nonlinear_arith)
        requires
            0 <= k < rows * cols,
            0 <= rows,
            0 <= cols,
    ;
    vstd::arithmetic::div_mod::lemma_fundamental_div_mod(k, cols);
    vstd::arithmetic::div_mod::lemma_mod_bound(k, cols);
    assert(cols * (k / cols) == (k / cols) * cols) by (nonlinear_arith);
    assert(0 <= k / cols < rows) by (nonlinear_arith)
        requires
            0 <= k < rows * cols,
            cols > 0,
            k == (k / cols) * cols + k % cols,
            0 <= k % cols < cols,
    ;
}

/// Two cells of the grid with one position are one cell.
pub proof fn lemma_flat_injective(r1: int, c1: int, r2: int, c2: int, cols: int)
    requires
        0 <= c1 < cols,
        0 <= c2 < cols,
        0 <= r1,
        0 <= r2,
        flat(r1, c1, cols) == flat(r2, c2, cols),
    ensures
        r1 == r2,
        c1 == c2,
{
    assert(r1 == r2) by (nonlinear_arith)
        requires
            0 <= c1 < cols,
            0 <= c2 < cols,
            0 <= r1,
            0 <= r2,
            r1 * cols + c1 == r2 * cols + c2,
    ;
}

/// Index in the full grid of the `i`-th row or column that is left when the
/// one at `removed` is deleted.
pub open spec fn skip(i: int, removed: int) -> int {
    if i < removed {
        i
    } else {
        i + 1
    }
}

/// The sign `(-1)^(r + c)` of the cofactor at `(r, c)`.
pub open spec fn cofactor_sign(r: int, c: int) -> Scalar {
    if (r + c) % 2 == 0 {
        Scalar::spec_one()
    } else {
        Scalar::spec_neg_one()
    }
}

/// Whether every entry of a row compares equal to zero.
pub open spec fn row_is_zero(row: Seq<Scalar>) -> bool {
    forall|c: int| 0 <= c < row.len() ==> (#[trigger] row[c]).spec_is_zero()
}

/// A matrix as a grid: `cells[r][c]` is the entry in row `r`, column `c`.
pub struct MatrixModel {
    pub rows: nat,
    pub cols: nat,
    pub cells: Seq<Seq<Scalar>>,
}

impl MatrixModel {
    /// The grid has `rows` rows of `cols` entries each.
    pub open spec fn wf(self) -> bool {
        &&& self.cells.len() == self.rows
        &&& forall|r: int| 0 <= r < self.rows ==> (#[trigger] self.cells[r]).len() == self.cols
    }

    /// The grid of the given shape whose entries `entry` gives.
    pub open spec fn tabulate(rows: nat, cols: nat, entry: spec_fn(int, int) -> Scalar) -> MatrixModel {
        MatrixModel {
            rows,
            cols,
            cells: Seq::new(rows, |r: int| Seq::new(cols, |c: int| entry(r, c))),
        }
    }

    /// The matrix of the given shape with every entry `+0.0`.
    pub open spec fn zeros(rows: nat, cols: nat) -> MatrixModel {
        MatrixModel::tabulate(rows, cols, |r: int, c: int| Scalar::spec_zero())
    }

    /// The matrix with entry `(r, c)` replaced.
    pub open spec fn with_cell(self, r: int, c: int, value: Scalar) -> MatrixModel {
        MatrixModel {
            rows: self.rows,
            cols: self.cols,
            cells: self.cells.update(r, self.cells[r].update(c, value)),
        }
    }

    /// Two grids of one shape with the same entries are the same matrix.
    pub proof fn lemma_ext(self, other: MatrixModel)
        requires
            self.wf(),
            other.wf(),
            self.rows == other.rows,
            self.cols == other.cols,
            forall|r: int, c: int|
                0 <= r < self.rows && 0 <= c < self.cols ==> self.cells[r][c] == other.cells[r][c],
        ensures
            self == other,
    {
        assert forall|r: int| 0 <= r < self.rows implies #[trigger] self.cells[r] =~= other.cells[r] by {
            assert(self.cells[r].len() == other.cells[r].len());
            assert forall|c: int| 0 <= c < self.cols implies self.cells[r][c] == other.cells[r][c] by {}
        }
        assert(self.cells =~= other.cells);
    }

    /// The sum of the first `k` products of row `i` of `self` with column `j`
    /// of `other`, added from left to right onto `+0.0`.
    pub open spec fn dot_prefix(self, other: MatrixModel, i: int, j: int, k: nat) -> Scalar
        decreases k,
    {
        if k == 0 {
            Scalar::spec_zero()
        } else {
            self.dot_prefix(other, i, j, (k - 1) as nat).spec_add(
                self.cells[i][k - 1].spec_mul(other.cells[k - 1][j]),
            )
        }
    }

    /// The matrix product, of shape `(self.rows, other.cols)`.
    pub open spec fn product(self, other: MatrixModel) -> MatrixModel {
        MatrixModel::tabulate(
            self.rows,
            other.cols,
            |i: int, j: int| self.dot_prefix(other, i, j, self.cols),
        )
    }

    /// The entry-wise sum.
    pub open spec fn sum(self, other: MatrixModel) -> MatrixModel {
        MatrixModel::tabulate(
            self.rows,
            self.cols,
            |r: int, c: int| self.cells[r][c].spec_add(other.cells[r][c]),
        )
    }

    /// The entry-wise product.
    pub open spec fn entrywise_product(self, other: MatrixModel) -> MatrixModel {
        MatrixModel::tabulate(
            self.rows,
            self.cols,
            |r: int, c: int| self.cells[r][c].spec_mul(other.cells[r][c]),
        )
    }

    /// Every entry divided by `divisor`.
    pub open spec fn scaled_down(self, divisor: Scalar) -> MatrixModel {
        MatrixModel::tabulate(
            self.rows,
            self.cols,
            |r: int, c: int| self.cells[r][c].spec_div(divisor),
        )
    }

    /// The correction pass: every entry strictly within `1e-6` of an integer
    /// becomes that integer, and no zero stays negative.
    pub open spec fn corrected(self) -> MatrixModel {
        MatrixModel::tabulate(
            self.rows,
            self.cols,
            |r: int, c: int| self.cells[r][c].spec_corrected(),
        )
    }

    /// The matrix without row `r` and column `c`.
    pub open spec fn minor(self, r: int, c: int) -> MatrixModel {
        MatrixModel::tabulate(
            if self.rows > 0 {
                (self.rows - 1) as nat
            } else {
                0
            },
            if self.cols > 0 {
                (self.cols - 1) as nat
            } else {
                0
            },
            |i: int, j: int| self.cells[skip(i, r)][skip(j, c)],
        )
    }

    /// The determinant of a square matrix: one for the empty matrix, the
    /// entry of a 1x1 matrix, `ad - bc` for a 2x2 matrix, and for larger ones
    /// the Laplace expansion along the row of index 1.
    pub open spec fn det(self) -> Scalar
        decreases self.rows, 2nat, 0nat,
    {
        if self.rows == 0 {
            Scalar::spec_one()
        } else if self.rows == 1 {
            self.cells[0][0]
        } else if self.rows == 2 {
            self.cells[0][0].spec_mul(self.cells[1][1]).spec_sub(
                self.cells[0][1].spec_mul(self.cells[1][0]),
            )
        } else {
            self.laplace(self.cols)
        }
    }

    /// The first `k` terms of the expansion along row 1, added from left to
    /// right onto `+0.0`: term `j` is the cofactor at `(1, j)` times the entry
    /// at `(1, j)`.
    pub open spec fn laplace(self, k: nat) -> Scalar
        decreases self.rows, 1nat, k,
    {
        if k == 0 {
            Scalar::spec_zero()
        } else {
            self.laplace((k - 1) as nat).spec_add(
                self.cofactor(1, k - 1).spec_mul(self.cells[1][k - 1]),
            )
        }
    }

    /// The determinant of the minor at `(r, c)` times the sign `(-1)^(r + c)`.
    pub open spec fn cofactor(self, r: int, c: int) -> Scalar
        decreases self.rows, 0nat, 0nat,
    {
        if 0 <= r < self.rows {
            self.minor(r, c).det().spec_mul(cofactor_sign(r, c))
        } else {
            Scalar::spec_zero()
        }
    }

    /// The matrix of all cofactors.
    pub open spec fn cofactors(self) -> MatrixModel {
        MatrixModel::tabulate(self.rows, self.cols, |r: int, c: int| self.cofactor(r, c))
    }

    /// The inverse of a square matrix: the transposed matrix of cofactors,
    /// every entry divided by the determinant, then corrected.
    pub open spec fn inverse(self) -> MatrixModel {
        self.cofactors().transposed().scaled_down(self.det()).corrected()
    }

    /// Index of the first row at or after `from` whose first entry is
    /// strictly positive, or 0 when there is none.
    pub open spec fn pivot_row(self, from: int) -> int
        decreases self.rows - from,
    {
        if from < 0 || from >= self.rows {
            0
        } else if self.cells[from][0].spec_is_positive() {
            from
        } else {
            self.pivot_row(from + 1)
        }
    }

    /// The matrix with rows `a` and `b` exchanged.
    pub open spec fn swapped(self, a: int, b: int) -> MatrixModel {
        MatrixModel::tabulate(
            self.rows,
            self.cols,
            |r: int, c: int|
                self.cells[if r == a {
                    b
                } else if r == b {
                    a
                } else {
                    r
                }][c],
        )
    }

    /// One step of the elimination with pivot `(lead, lead)` on row `r`:
    /// the pivot row itself is divided by the pivot; from any other row the
    /// pivot row is subtracted, scaled by that row's entry in the pivot
    /// column over the pivot.
    pub open spec fn row_reduced(self, lead: int, r: int) -> MatrixModel {
        let div = self.cells[lead][lead];
        let mult = self.cells[r][lead].spec_div(div);
        MatrixModel::tabulate(
            self.rows,
            self.cols,
            |i: int, c: int|
                if i != r {
                    self.cells[i][c]
                } else if r == lead {
                    self.cells[i][c].spec_div(div)
                } else {
                    self.cells[i][c].spec_sub(self.cells[lead][c].spec_mul(mult))
                },
        )
    }

    /// The elimination step for pivot `lead` done on the rows `0..n`, in order.
    pub open spec fn swept(self, lead: int, n: nat) -> MatrixModel
        decreases n,
    {
        if n == 0 {
            self
        } else {
            self.swept(lead, (n - 1) as nat).row_reduced(lead, n - 1)
        }
    }

    /// All rows swept for each of the pivots `0..k`, in order.
    pub open spec fn eliminated(self, k: nat) -> MatrixModel
        decreases k,
    {
        if k == 0 {
            self
        } else {
            self.eliminated((k - 1) as nat).swept(k - 1, self.rows)
        }
    }

    /// The number of pivots: one per row, as far as there are columns.
    pub open spec fn pivots(self) -> nat {
        if self.rows <= self.cols {
            self.rows
        } else {
            self.cols
        }
    }

    /// The row-reduced echelon form by Gauss-Jordan elimination. When the
    /// top-left entry is zero, the first row is first exchanged with the
    /// first row whose leading entry is strictly positive, if there is one.
    /// No other pivoting is done. The correction pass comes last. A matrix
    /// without entries is its own reduced form.
    pub open spec fn rref(self) -> MatrixModel {
        if self.rows == 0 || self.cols == 0 {
            self
        } else {
            let start = if self.cells[0][0].spec_is_zero() {
                self.swapped(0, self.pivot_row(0))
            } else {
                self
            };
            start.eliminated(self.pivots()).corrected()
        }
    }

    /// The number of rows among the first `n` that hold a non-zero entry.
    pub open spec fn nonzero_rows(self, n: nat) -> nat
        decreases n,
    {
        if n == 0 {
            0
        } else {
            self.nonzero_rows((n - 1) as nat) + if row_is_zero(self.cells[n - 1]) {
                0nat
            } else {
                1nat
            }
        }
    }

    /// The rank: the number of non-zero rows of the reduced form.
    pub open spec fn rank(self) -> nat {
        self.rref().nonzero_rows(self.rows)
    }

    /// The matrix with every diagonal entry replaced by one.
    pub open spec fn with_unit_diagonal(self) -> MatrixModel {
        MatrixModel::tabulate(
            self.rows,
            self.cols,
            |r: int, c: int|
                if r == c {
                    Scalar::spec_one()
                } else {
                    self.cells[r][c]
                },
        )
    }

    /// The first `k` diagonal entries added from left to right onto `+0.0`.
    pub open spec fn trace_prefix(self, k: nat) -> Scalar
        decreases k,
    {
        if k == 0 {
            Scalar::spec_zero()
        } else {
            self.trace_prefix((k - 1) as nat).spec_add(self.cells[k - 1][k - 1])
        }
    }

    /// The sum of the diagonal entries.
    pub open spec fn trace(self) -> Scalar {
        self.trace_prefix(self.rows)
    }

    /// Row operations keep the shape.
    pub proof fn lemma_swept_shape(self, lead: int, n: nat)
        ensures
            self.swept(lead, n).rows == self.rows,
            self.swept(lead, n).cols == self.cols,
        decreases n,
    {
        if n > 0 {
            self.lemma_swept_shape(lead, (n - 1) as nat);
        }
    }

    /// Elimination keeps the shape.
    pub proof fn lemma_eliminated_shape(self, k: nat)
        ensures
            self.eliminated(k).rows == self.rows,
            self.eliminated(k).cols == self.cols,
        decreases k,
    {
        if k > 0 {
            self.lemma_eliminated_shape((k - 1) as nat);
            self.eliminated((k - 1) as nat).lemma_swept_shape(k - 1, self.rows);
        }
    }

    /// The reduced form has the shape of the matrix.
    pub proof fn lemma_rref_shape(self)
        ensures
            self.rref().rows == self.rows,
            self.rref().cols == self.cols,
    {
        if self.rows != 0 && self.cols != 0 {
            let start = if self.cells[0][0].spec_is_zero() {
                self.swapped(0, self.pivot_row(0))
            } else {
                self
            };
            start.lemma_eliminated_shape(self.pivots());
        }
    }

    /// No more rows are counted than are looked at.
    pub proof fn lemma_nonzero_rows_bounded(self, n: nat)
        ensures
            self.nonzero_rows(n) <= n,
        decreases n,
    {
        if n > 0 {
            self.lemma_nonzero_rows_bounded((n - 1) as nat);
        }
    }

    /// The rank never exceeds the number of rows, and so never the smaller
    /// side of a matrix that is at least as wide as it is high.
    pub proof fn lemma_rank_bounded(self)
        ensures
            self.rank() <= self.rows,
            self.rows <= self.cols ==> self.rank() <= self.pivots(),
    {
        self.rref().lemma_nonzero_rows_bounded(self.rows);
    }

    /// The transpose: entry `(j, i)` of the result is entry `(i, j)` of `self`.
    pub open spec fn transposed(self) -> MatrixModel {
        MatrixModel::tabulate(self.cols, self.rows, |j: int, i: int| self.cells[i][j])
    }
}

/// Transposing twice gives the matrix back.
pub proof fn lemma_transpose_involution(a: MatrixModel)
    requires
        a.wf(),
    ensures
        a.transposed().transposed() == a,
{
    let t = a.transposed();
    let tt = t.transposed();
    assert forall|r: int, c: int| 0 <= r < a.rows && 0 <= c < a.cols implies tt.cells[r][c]
        == a.cells[r][c] by {
        assert(tt.cells[r][c] == t.cells[c][r]);
        assert(t.cells[c][r] == a.cells[r][c]);
    }
    tt.lemma_ext(a);
}

/// A dense matrix of doubles, stored row by row.
#[derive(Debug)]
pub struct Matrix {
    rows: usize,
    cols: usize,
    data: Vec<Scalar>,
}

impl View for Matrix {
    type V = MatrixModel;

    closed spec fn view(&self) -> MatrixModel {
        MatrixModel::tabulate(
            self.rows as nat,
            self.cols as nat,
            |r: int, c: int| self.data@[flat(r, c, self.cols as int)],
        )
    }
}

impl Matrix {
    #[verifier::type_invariant]
    spec fn inv(self) -> bool {
        self.data@.len() == self.rows * self.cols
    }

    /// The view of every matrix is a grid of its shape.
    pub proof fn lemma_view_wf(self)
        ensures
            self@.wf(),
    {
    }

    /// The number of rows.
    pub fn rows(&self) -> (r: usize)
        ensures
            r == self@.rows,
    {
        self.rows
    }

    /// The number of columns.
    pub fn cols(&self) -> (r: usize)
        ensures
            r == self@.cols,
    {
        self.cols
    }

    /// The entries row by row: the entry in row `r`, column `c` stands at
    /// position `r * cols + c`.
    pub fn data(&self) -> (data: &Vec<Scalar>)
        ensures
            data@.len() == self@.rows * self@.cols,
            forall|r: int, c: int|
                0 <= r < self@.rows && 0 <= c < self@.cols ==> data@[#[trigger] flat(
                    r,
                    c,
                    self@.cols as int,
                )] == self@.cells[r][c],
    {
        proof {
            use_type_invariant(self);
            assert forall|r: int, c: int| 0 <= r < self@.rows && 0 <= c < self@.cols implies self.data@[#[trigger] flat(
                r,
                c,
                self@.cols as int,
            )] == self@.cells[r][c] by {
                lemma_flat_in_range(r, c, self.rows as int, self.cols as int);
            }
        }
        &self.data
    }

    /// The zero matrix of the given shape.
    pub fn new(rows: usize, cols: usize) -> (m: Matrix)
        requires
            rows * cols <= usize::MAX,
        ensures
            m@ == MatrixModel::zeros(rows as nat, cols as nat),
    {
        let n: usize = rows * cols;
        let mut data: Vec<Scalar> = Vec::with_capacity(n);
        let mut k: usize = 0;
        while k < n
            invariant
                k <= n,
                data@.len() == k,
                forall|i: int| 0 <= i < k ==> data@[i] == Scalar::spec_zero(),
            decreases n - k,
        {
            data.push(Scalar::zero());
            k += 1;
        }
        let m = Matrix { rows, cols, data };
        proof {
            let zeros = MatrixModel::zeros(rows as nat, cols as nat);
            assert forall|r: int, c: int| 0 <= r < rows && 0 <= c < cols implies m@.cells[r][c]
                == zeros.cells[r][c] by {
                lemma_flat_in_range(r, c, rows as int, cols as int);
            }
            m@.lemma_ext(zeros);
        }
        m
    }

    /// The matrix of the given shape whose entry `(r, c)` is what `entry`
    /// returns for `(r, c)`, asked row by row, left to right.
    pub fn tabulate<F: Fn(usize, usize) -> Scalar>(rows: usize, cols: usize, entry: F) -> (m: Matrix)
        requires
            rows * cols <= usize::MAX,
            forall|r: usize, c: usize| r < rows && c < cols ==> call_requires(entry, (r, c)),
        ensures
            m@.wf(),
            m@.rows == rows,
            m@.cols == cols,
            forall|r: usize, c: usize|
                r < rows && c < cols ==> call_ensures(
                    entry,
                    (r, c),
                    #[trigger] m@.cells[r as int][c as int],
                ),
    {
        let mut data: Vec<Scalar> = Vec::new();
        let mut r: usize = 0;
        while r < rows
            invariant
                r <= rows,
                rows * cols <= usize::MAX,
                data@.len() == r * cols,
                forall|i: usize, j: usize| i < rows && j < cols ==> call_requires(entry, (i, j)),
                forall|i: usize, j: usize|
                    i < r && j < cols ==> call_ensures(
                        entry,
                        (i, j),
                        data@[#[trigger] flat(i as int, j as int, cols as int)],
                    ),
            decreases rows - r,
        {
            let mut c: usize = 0;
            while c < cols
                invariant
                    r < rows,
                    c <= cols,
                    rows * cols <= usize::MAX,
                    data@.len() == r * cols + c,
                    forall|i: usize, j: usize| i < rows && j < cols ==> call_requires(entry, (i, j)),
                    forall|i: usize, j: usize|
                        i < r && j < cols ==> call_ensures(
                            entry,
                            (i, j),
                            data@[#[trigger] flat(i as int, j as int, cols as int)],
                        ),
                    forall|j: usize|
                        j < c ==> call_ensures(
                            entry,
                            (r, j),
                            data@[#[trigger] flat(r as int, j as int, cols as int)],
                        ),
                decreases cols - c,
            {
                let value = entry(r, c);
                let ghost before = data@;
                data.push(value);
                proof {
                    assert forall|i: usize, j: usize| i < r && j < cols implies call_ensures(
                        entry,
                        (i, j),
                        data@[#[trigger] flat(i as int, j as int, cols as int)],
                    ) by {
                        lemma_flat_in_range(i as int, j as int, r as int, cols as int);
                        assert(data@[flat(i as int, j as int, cols as int)] == before[flat(
                            i as int,
                            j as int,
                            cols as int,
                        )]);
                    }
                    assert forall|j: usize| j < c + 1 implies call_ensures(
                        entry,
                        (r, j),
                        data@[#[trigger] flat(r as int, j as int, cols as int)],
                    ) by {
                        if j < c {
                            assert(data@[flat(r as int, j as int, cols as int)] == before[flat(
                                r as int,
                                j as int,
                                cols as int,
                            )]);
                        }
                    }
                }
                c += 1;
            }
            proof {
                assert(r * cols + cols == (r + 1) * cols) by (nonlinear_arith);
            }
            r += 1;
        }
        let m = Matrix { rows, cols, data };
        proof {
            assert forall|i: usize, j: usize| i < rows && j < cols implies call_ensures(
                entry,
                (i, j),
                #[trigger] m@.cells[i as int][j as int],
            ) by {
                lemma_flat_in_range(i as int, j as int, rows as int, cols as int);
                assert(m@.cells[i as int][j as int] == m.data@[flat(i as int, j as int, cols as int)]);
            }
        }
        m
    }

    /// The transpose, of shape `(cols, rows)`.
    pub fn transpose(&self) -> (t: Matrix)
        ensures
            t@ == self@.transposed(),
    {
        proof {
            use_type_invariant(self);
            assert(self.data.len() == self.rows * self.cols);
            assert(self.cols * self.rows == self.rows * self.cols) by (nonlinear_arith);
        }
        let entry = |j: usize, i: usize| -> (v: Scalar)
            requires
                i < self@.rows,
                j < self@.cols,
            ensures
                v == self@.cells[i as int][j as int],
            {
                self.get(i, j)
            };
        let t = Matrix::tabulate(self.cols, self.rows, entry);
        proof {
            let expected = self@.transposed();
            assert forall|j: int, i: int| 0 <= j < t@.rows && 0 <= i < t@.cols implies t@.cells[j][i]
                == expected.cells[j][i] by {
                let ju = j as usize;
                let iu = i as usize;
                assert(t@.cells[ju as int][iu as int] == self@.cells[iu as int][ju as int]);
            }
            t@.lemma_ext(expected);
        }
        t
    }

    /// The entry in row `r`, column `c`.
    pub fn get(&self, r: usize, c: usize) -> (v: Scalar)
        requires
            r < self@.rows,
            c < self@.cols,
        ensures
            v == self@.cells[r as int][c as int],
    {
        proof {
            use_type_invariant(self);
            lemma_flat_in_range(r as int, c as int, self.rows as int, self.cols as int);
            assert(self.data.len() == self.rows * self.cols);
        }
        self.data[r * self.cols + c]
    }

    /// Replaces the entry in row `r`, column `c`.
    pub fn set(&mut self, r: usize, c: usize, value: Scalar)
        requires
            r < old(self)@.rows,
            c < old(self)@.cols,
        ensures
            final(self)@ == old(self)@.with_cell(r as int, c as int, value),
    {
        proof {
            use_type_invariant(&*self);
            lemma_flat_in_range(r as int, c as int, self.rows as int, self.cols as int);
            assert(self.data.len() == self.rows * self.cols);
        }
        let k: usize = r * self.cols + c;
        self.data[k] = value;
        proof {
            let cols = self.cols as int;
            let expected = old(self)@.with_cell(r as int, c as int, value);
            assert forall|i: int, j: int| 0 <= i < self.rows && 0 <= j < cols implies self@.cells[i][j]
                == expected.cells[i][j] by {
                lemma_flat_in_range(i, j, self.rows as int, cols);
                if flat(i, j, cols) == flat(r as int, c as int, cols) {
                    lemma_flat_injective(i, j, r as int, c as int, cols);
                }
            }
            self@.lemma_ext(expected);
        }
    }
    /// The matrix of the given shape over row-major `data`, or nothing when
    /// `data` does not hold exactly `rows * cols` entries.
    pub fn from_vec(rows: usize, cols: usize, data: Vec<Scalar>) -> (r: Option<Matrix>)
        ensures
            r is Some <==> data@.len() == rows * cols,
            r matches Some(m) ==> m@ == MatrixModel::tabulate(
                rows as nat,
                cols as nat,
                |i: int, j: int| data@[flat(i, j, cols as int)],
            ),
    {
        match rows.checked_mul(cols) {
            Some(n) => {
                if data.len() == n {
                    Some(Matrix { rows, cols, data })
                } else {
                    None
                }
            },
            None => {
                assert(data.len() == data@.len());
                None
            },
        }
    }

    /// The product `self * b`. Row `i` of `self` and column `j` of `b` are
    /// multiplied entry by entry and the products added from left to right.
    pub fn dot(&self, b: Matrix) -> (r: Result<Matrix, LalaError>)
        ensures
            match r {
                Ok(m) => {
                    &&& self@.cols == b@.rows
                    &&& self@.rows * b@.cols <= usize::MAX
                    &&& m@ == self@.product(b@)
                },
                Err(e) => e == LalaError::DimensionMismatch && (self@.cols != b@.rows || self@.rows
                    * b@.cols > usize::MAX),
            },
    {
        if self.cols != b.rows {
            return Err(LalaError::DimensionMismatch);
        }
        if self.rows.checked_mul(b.cols).is_none() {
            return Err(LalaError::DimensionMismatch);
        }
        let entry = |i: usize, j: usize| -> (v: Scalar)
            requires
                i < self@.rows,
                j < b@.cols,
                self@.cols == b@.rows,
            ensures
                v == self@.dot_prefix(b@, i as int, j as int, self@.cols),
            {
                self.dot_entry(&b, i, j)
            };
        let m = Matrix::tabulate(self.rows, b.cols, entry);
        proof {
            let expected = self@.product(b@);
            assert forall|i: int, j: int| 0 <= i < m@.rows && 0 <= j < m@.cols implies m@.cells[i][j]
                == expected.cells[i][j] by {
                let iu = i as usize;
                let ju = j as usize;
                assert(m@.cells[iu as int][ju as int] == self@.dot_prefix(b@, i, j, self@.cols));
            }
            m@.lemma_ext(expected);
        }
        Ok(m)
    }

    /// Row `i` of `self` times column `j` of `b`.
    fn dot_entry(&self, b: &Matrix, i: usize, j: usize) -> (v: Scalar)
        requires
            i < self@.rows,
            j < b@.cols,
            self@.cols == b@.rows,
        ensures
            v == self@.dot_prefix(b@, i as int, j as int, self@.cols),
    {
        let mut sum = Scalar::zero();
        let mut k: usize = 0;
        while k < self.cols
            invariant
                k <= self.cols,
                i < self@.rows,
                j < b@.cols,
                self@.cols == b@.rows,
                sum == self@.dot_prefix(b@, i as int, j as int, k as nat),
            decreases self.cols - k,
        {
            sum = sum.add(self.get(i, k).mul(b.get(k, j)));
            k += 1;
        }
        sum
    }

    /// The matrix whose entry `(r, c)` is what `f` returns for the entries
    /// `(r, c)` of `self` and of `b`.
    pub fn combine<F: Fn(Scalar, Scalar) -> Scalar>(&self, b: Matrix, f: F) -> (r: Result<
        Matrix,
        LalaError,
    >)
        requires
            self@.rows == b@.rows && self@.cols == b@.cols ==> forall|r: int, c: int|
                0 <= r < self@.rows && 0 <= c < self@.cols ==> call_requires(
                    f,
                    (#[trigger] self@.cells[r][c], b@.cells[r][c]),
                ),
        ensures
            match r {
                Ok(m) => {
                    &&& self@.rows == b@.rows
                    &&& self@.cols == b@.cols
                    &&& m@.wf()
                    &&& m@.rows == self@.rows
                    &&& m@.cols == self@.cols
                    &&& forall|r: int, c: int|
                        0 <= r < self@.rows && 0 <= c < self@.cols ==> call_ensures(
                            f,
                            (self@.cells[r][c], b@.cells[r][c]),
                            #[trigger] m@.cells[r][c],
                        )
                },
                Err(e) => e == LalaError::DimensionMismatch && (self@.rows != b@.rows || self@.cols
                    != b@.cols),
            },
    {
        if self.rows != b.rows || self.cols != b.cols {
            return Err(LalaError::DimensionMismatch);
        }
        proof {
            use_type_invariant(self);
            assert(self.data.len() == self.rows * self.cols);
        }
        let n: usize = self.data.len();
        proof {
            use_type_invariant(&b);
            assert(b.data.len() == b.rows * b.cols);
        }
        let mut data: Vec<Scalar> = Vec::with_capacity(n);
        let mut k: usize = 0;
        while k < n
            invariant
                k <= n,
                n == self.data@.len(),
                n == b.data@.len(),
                n == self.rows * self.cols,
                self.rows == b.rows,
                self.cols == b.cols,
                data@.len() == k,
                forall|r: int, c: int|
                    0 <= r < self@.rows && 0 <= c < self@.cols ==> call_requires(
                        f,
                        (#[trigger] self@.cells[r][c], b@.cells[r][c]),
                    ),
                forall|i: int| 0 <= i < k ==> call_ensures(f, (self.data@[i], b.data@[i]), #[trigger] data@[i]),
            decreases n - k,
        {
            proof {
                lemma_cell_of_position(k as int, self.rows as int, self.cols as int);
                let r = k as int / self.cols as int;
                let c = k as int % self.cols as int;
                assert(self@.cells[r][c] == self.data@[k as int]);
                assert(b@.cells[r][c] == b.data@[k as int]);
            }
            let value = f(self.data[k], b.data[k]);
            data.push(value);
            k += 1;
        }
        let m = Matrix { rows: self.rows, cols: self.cols, data };
        proof {
            assert forall|r: int, c: int| 0 <= r < self@.rows && 0 <= c < self@.cols implies call_ensures(
                f,
                (self@.cells[r][c], b@.cells[r][c]),
                #[trigger] m@.cells[r][c],
            ) by {
                lemma_flat_in_range(r, c, self.rows as int, self.cols as int);
                assert(m@.cells[r][c] == m.data@[flat(r, c, self.cols as int)]);
            }
        }
        Ok(m)
    }

    /// Replaces every entry by what `f` returns for it.
    pub fn apply<F: Fn(Scalar) -> Scalar>(&mut self, f: F)
        requires
            forall|r: int, c: int|
                0 <= r < old(self)@.rows && 0 <= c < old(self)@.cols ==> call_requires(
                    f,
                    (#[trigger] old(self)@.cells[r][c],),
                ),
        ensures
            final(self)@.wf(),
            final(self)@.rows == old(self)@.rows,
            final(self)@.cols == old(self)@.cols,
            forall|r: int, c: int|
                0 <= r < old(self)@.rows && 0 <= c < old(self)@.cols ==> call_ensures(
                    f,
                    (old(self)@.cells[r][c],),
                    #[trigger] final(self)@.cells[r][c],
                ),
    {
        proof {
            use_type_invariant(&*self);
            assert(self.data.len() == self.rows * self.cols);
        }
        let n: usize = self.data.len();
        let mut data: Vec<Scalar> = Vec::with_capacity(n);
        let mut k: usize = 0;
        while k < n
            invariant
                k <= n,
                n == self.data@.len(),
                n == self.rows * self.cols,
                data@.len() == k,
                *self == *old(self),
                forall|r: int, c: int|
                    0 <= r < self@.rows && 0 <= c < self@.cols ==> call_requires(
                        f,
                        (#[trigger] self@.cells[r][c],),
                    ),
                forall|i: int| 0 <= i < k ==> call_ensures(f, (self.data@[i],), #[trigger] data@[i]),
            decreases n - k,
        {
            proof {
                lemma_cell_of_position(k as int, self.rows as int, self.cols as int);
                let r = k as int / self.cols as int;
                let c = k as int % self.cols as int;
                assert(self@.cells[r][c] == self.data@[k as int]);
            }
            let value = f(self.data[k]);
            data.push(value);
            k += 1;
        }
        let m = Matrix { rows: self.rows, cols: self.cols, data };
        proof {
            assert forall|r: int, c: int| 0 <= r < self@.rows && 0 <= c < self@.cols implies call_ensures(
                f,
                (self@.cells[r][c],),
                #[trigger] m@.cells[r][c],
            ) by {
                lemma_flat_in_range(r, c, self.rows as int, self.cols as int);
                assert(m@.cells[r][c] == m.data@[flat(r, c, self.cols as int)]);
            }
        }
        *self = m;
    }

    /// Runs the correction pass over every entry.
    pub fn correct(&mut self)
        ensures
            final(self)@ == old(self)@.corrected(),
    {
        let snap = |x: Scalar| -> (v: Scalar)
            ensures
                v == x.spec_corrected(),
            {
                x.corrected()
            };
        self.apply(snap);
        proof {
            let expected = old(self)@.corrected();
            assert forall|r: int, c: int| 0 <= r < self@.rows && 0 <= c < self@.cols implies self@.cells[r][c]
                == expected.cells[r][c] by {
                assert(call_ensures(snap, (old(self)@.cells[r][c],), self@.cells[r][c]));
            }
            self@.lemma_ext(expected);
        }
    }

    /// Divides every entry by `divisor`.
    fn scale_down(&mut self, divisor: Scalar)
        ensures
            final(self)@ == old(self)@.scaled_down(divisor),
    {
        let quotient = |x: Scalar| -> (v: Scalar)
            ensures
                v == x.spec_div(divisor),
            {
                x.div(divisor)
            };
        self.apply(quotient);
        proof {
            let expected = old(self)@.scaled_down(divisor);
            assert forall|r: int, c: int| 0 <= r < self@.rows && 0 <= c < self@.cols implies self@.cells[r][c]
                == expected.cells[r][c] by {
                assert(call_ensures(quotient, (old(self)@.cells[r][c],), self@.cells[r][c]));
            }
            self@.lemma_ext(expected);
        }
    }
    /// The matrix without row `r` and column `c`.
    fn minor(&self, r: usize, c: usize) -> (m: Matrix)
        requires
            r < self@.rows,
            c < self@.cols,
        ensures
            m@ == self@.minor(r as int, c as int),
    {
        proof {
            use_type_invariant(self);
            assert(self.data.len() == self.rows * self.cols);
            assert((self.rows - 1) * (self.cols - 1) <= self.rows * self.cols) by (nonlinear_arith)
                requires
                    self.rows >= 1,
                    self.cols >= 1,
            ;
        }
        let entry = |i: usize, j: usize| -> (v: Scalar)
            requires
                i + 1 < self@.rows,
                j + 1 < self@.cols,
            ensures
                v == self@.cells[skip(i as int, r as int)][skip(j as int, c as int)],
            {
                let row: usize = if i < r {
                    i
                } else {
                    i + 1
                };
                let col: usize = if j < c {
                    j
                } else {
                    j + 1
                };
                self.get(row, col)
            };
        let m = Matrix::tabulate(self.rows - 1, self.cols - 1, entry);
        proof {
            let expected = self@.minor(r as int, c as int);
            assert forall|i: int, j: int| 0 <= i < m@.rows && 0 <= j < m@.cols implies m@.cells[i][j]
                == expected.cells[i][j] by {
                let iu = i as usize;
                let ju = j as usize;
                assert(call_ensures(entry, (iu, ju), m@.cells[iu as int][ju as int]));
            }
            m@.lemma_ext(expected);
        }
        m
    }

    /// The determinant of a square matrix.
    fn det_of_square(&self) -> (d: Scalar)
        requires
            self@.rows == self@.cols,
        ensures
            d == self@.det(),
        decreases self@.rows, 1nat,
    {
        let n: usize = self.rows;
        if n == 0 {
            Scalar::one()
        } else if n == 1 {
            self.get(0, 0)
        } else if n == 2 {
            self.get(0, 0).mul(self.get(1, 1)).sub(self.get(0, 1).mul(self.get(1, 0)))
        } else {
            let mut det = Scalar::zero();
            let mut j: usize = 0;
            while j < n
                invariant
                    j <= n,
                    n == self@.rows,
                    n == self@.cols,
                    n >= 3,
                    det == self@.laplace(j as nat),
                decreases n - j,
            {
                det = det.add(self.cofactor_of_square(1, j).mul(self.get(1, j)));
                j += 1;
            }
            det
        }
    }

    /// The cofactor at `(r, c)` of a square matrix.
    fn cofactor_of_square(&self, r: usize, c: usize) -> (v: Scalar)
        requires
            self@.rows == self@.cols,
            r < self@.rows,
            c < self@.cols,
        ensures
            v == self@.cofactor(r as int, c as int),
        decreases self@.rows, 0nat,
    {
        let minor = self.minor(r, c);
        let d = minor.det_of_square();
        let sign = if r % 2 == c % 2 {
            Scalar::one()
        } else {
            Scalar::neg_one()
        };
        d.mul(sign)
    }

    /// The determinant, defined for square matrices only.
    pub fn det(&self) -> (r: Result<Scalar, LalaError>)
        ensures
            match r {
                Ok(d) => self@.rows == self@.cols && d == self@.det(),
                Err(e) => e == LalaError::NotSquare && self@.rows != self@.cols,
            },
    {
        if self.rows != self.cols {
            return Err(LalaError::NotSquare);
        }
        Ok(self.det_of_square())
    }

    /// The cofactor at `(expanded_row, j)` of a square matrix: the
    /// determinant of the matrix without that row and column, negated when
    /// `expanded_row + j` is odd.
    pub fn cofactor(&self, expanded_row: usize, j: usize) -> (r: Result<Scalar, LalaError>)
        ensures
            match r {
                Ok(v) => {
                    &&& self@.rows == self@.cols
                    &&& expanded_row < self@.rows
                    &&& j < self@.cols
                    &&& v == self@.cofactor(expanded_row as int, j as int)
                },
                Err(e) => if self@.rows != self@.cols {
                    e == LalaError::NotSquare
                } else {
                    e == LalaError::DimensionMismatch && (expanded_row >= self@.rows || j
                        >= self@.cols)
                },
            },
    {
        if self.rows != self.cols {
            return Err(LalaError::NotSquare);
        }
        if expanded_row >= self.rows || j >= self.cols {
            return Err(LalaError::DimensionMismatch);
        }
        Ok(self.cofactor_of_square(expanded_row, j))
    }

    /// The inverse of a square matrix whose determinant is not zero.
    pub fn inverse(&self) -> (r: Result<Matrix, LalaError>)
        ensures
            match r {
                Ok(m) => {
                    &&& self@.rows == self@.cols
                    &&& !self@.det().spec_is_zero()
                    &&& m@ == self@.inverse()
                },
                Err(e) => if self@.rows != self@.cols {
                    e == LalaError::NotSquare
                } else {
                    e == LalaError::SingularMatrix && self@.det().spec_is_zero()
                },
            },
    {
        if self.rows != self.cols {
            return Err(LalaError::NotSquare);
        }
        let d = self.det_of_square();
        if d.is_zero() {
            return Err(LalaError::SingularMatrix);
        }
        proof {
            use_type_invariant(self);
            assert(self.data.len() == self.rows * self.cols);
        }
        let entry = |r: usize, c: usize| -> (v: Scalar)
            requires
                self@.rows == self@.cols,
                r < self@.rows,
                c < self@.cols,
            ensures
                v == self@.cofactor(r as int, c as int),
            {
                self.cofactor_of_square(r, c)
            };
        let cofactors = Matrix::tabulate(self.rows, self.cols, entry);
        proof {
            let expected = self@.cofactors();
            assert forall|r: int, c: int| 0 <= r < cofactors@.rows && 0 <= c < cofactors@.cols implies cofactors@.cells[r][c]
                == expected.cells[r][c] by {
                let ru = r as usize;
                let cu = c as usize;
                assert(call_ensures(entry, (ru, cu), cofactors@.cells[ru as int][cu as int]));
            }
            cofactors@.lemma_ext(expected);
        }
        let mut inv = cofactors.transpose();
        inv.scale_down(d);
        inv.correct();
        Ok(inv)
    }
    /// Exchanges row `row` with the first row whose leading entry is strictly
    /// positive, or leaves the matrix as it is when there is no such row.
    fn swap_rows(&mut self, row: usize)
        requires
            row < old(self)@.rows,
            old(self)@.cols >= 1,
        ensures
            final(self)@ == old(self)@.swapped(row as int, old(self)@.pivot_row(0)),
    {
        proof {
            use_type_invariant(&*self);
            assert(self.data.len() == self.rows * self.cols);
        }
        let mut found: usize = 0;
        let mut r: usize = 0;
        while r < self.rows
            invariant_except_break
                found == 0,
                self@.pivot_row(0) == self@.pivot_row(r as int),
            invariant
                r <= self.rows,
                row < self.rows,
                *self == *old(self),
                self@.cols >= 1,
            ensures
                found as int == self@.pivot_row(0),
                found < self.rows,
            decreases self.rows - r,
        {
            if self.get(r, 0).is_positive() {
                found = r;
                break ;
            }
            r += 1;
        }
        assert(found as int == self@.pivot_row(0));
        let source: &Matrix = &*self;
        let entry = |i: usize, c: usize| -> (v: Scalar)
            requires
                i < source@.rows,
                c < source@.cols,
                row < source@.rows,
                found < source@.rows,
            ensures
                v == source@.cells[if i == row {
                    found as int
                } else if i == found {
                    row as int
                } else {
                    i as int
                }][c as int],
            {
                let from: usize = if i == row {
                    found
                } else if i == found {
                    row
                } else {
                    i
                };
                source.get(from, c)
            };
        let m = Matrix::tabulate(source.rows, source.cols, entry);
        proof {
            let expected = source@.swapped(row as int, found as int);
            assert forall|i: int, c: int| 0 <= i < m@.rows && 0 <= c < m@.cols implies m@.cells[i][c]
                == expected.cells[i][c] by {
                let iu = i as usize;
                let cu = c as usize;
                assert(call_ensures(entry, (iu, cu), m@.cells[iu as int][cu as int]));
            }
            m@.lemma_ext(expected);
        }
        *self = m;
    }

    /// One step of the elimination with pivot `(lead, lead)` on row `r`.
    fn reduce_row(&mut self, lead: usize, r: usize)
        requires
            lead < old(self)@.rows,
            lead < old(self)@.cols,
            r < old(self)@.rows,
        ensures
            final(self)@ == old(self)@.row_reduced(lead as int, r as int),
    {
        let ghost before = self@;
        let ghost after = before.row_reduced(lead as int, r as int);
        let div = self.get(lead, lead);
        let mult = self.get(r, lead).div(div);
        let cols: usize = self.cols;
        let mut c: usize = 0;
        while c < cols
            invariant
                c <= cols,
                cols == before.cols,
                self@.wf(),
                before.wf(),
                self@.rows == before.rows,
                self@.cols == before.cols,
                lead < before.rows,
                lead < before.cols,
                r < before.rows,
                div == before.cells[lead as int][lead as int],
                mult == before.cells[r as int][lead as int].spec_div(div),
                after == before.row_reduced(lead as int, r as int),
                forall|i: int, j: int|
                    0 <= i < before.rows && 0 <= j < before.cols ==> #[trigger] self@.cells[i][j] == (if i
                        == r && j < c {
                        after.cells[i][j]
                    } else {
                        before.cells[i][j]
                    }),
            decreases cols - c,
        {
            let current = self.get(r, c);
            let value = if r == lead {
                current.div(div)
            } else {
                current.sub(self.get(lead, c).mul(mult))
            };
            let ghost previous = self@;
            self.set(r, c, value);
            proof {
                assert(value == after.cells[r as int][c as int]);
                assert forall|i: int, j: int| 0 <= i < before.rows && 0 <= j < before.cols implies #[trigger] self@.cells[i][j]
                    == (if i == r && j < c + 1 {
                    after.cells[i][j]
                } else {
                    before.cells[i][j]
                }) by {
                    assert(previous.cells[i].len() == before.cols);
                    assert(previous.cells[r as int].len() == before.cols);
                }
            }
            c += 1;
        }
        proof {
            assert forall|i: int, j: int| 0 <= i < self@.rows && 0 <= j < self@.cols implies self@.cells[i][j]
                == after.cells[i][j] by {}
            self@.lemma_ext(after);
        }
    }

    /// The row-reduced echelon form.
    pub fn rref(&self) -> (m: Matrix)
        ensures
            m@ == self@.rref(),
    {
        let mut reduced = self.clone();
        let rows: usize = self.rows;
        if rows == 0 || self.cols == 0 {
            return reduced;
        }
        if reduced.get(0, 0).is_zero() {
            reduced.swap_rows(0);
        }
        let pivots: usize = if rows <= self.cols {
            rows
        } else {
            self.cols
        };
        let ghost start = reduced@;
        let mut lead: usize = 0;
        while lead < pivots
            invariant
                lead <= pivots,
                pivots == self@.pivots(),
                rows == self@.rows,
                start.rows == self@.rows,
                start.cols == self@.cols,
                reduced@.rows == self@.rows,
                reduced@.cols == self@.cols,
                reduced@ == start.eliminated(lead as nat),
            decreases pivots - lead,
        {
            let ghost sweep_start = reduced@;
            let mut r: usize = 0;
            while r < rows
                invariant
                    r <= rows,
                    lead < pivots,
                    pivots == self@.pivots(),
                    rows == self@.rows,
                    sweep_start.rows == self@.rows,
                    reduced@.rows == self@.rows,
                    reduced@.cols == self@.cols,
                    reduced@ == sweep_start.swept(lead as int, r as nat),
                decreases rows - r,
            {
                reduced.reduce_row(lead, r);
                r += 1;
            }
            lead += 1;
        }
        reduced.correct();
        reduced
    }

    /// Whether every entry of row `r` compares equal to zero.
    fn row_is_zero(&self, r: usize) -> (zero: bool)
        requires
            r < self@.rows,
        ensures
            zero == row_is_zero(self@.cells[r as int]),
    {
        proof {
            self.lemma_view_wf();
        }
        let mut c: usize = 0;
        while c < self.cols
            invariant
                c <= self.cols,
                r < self@.rows,
                self@.wf(),
                self.cols == self@.cols,
                forall|j: int| 0 <= j < c ==> (#[trigger] self@.cells[r as int][j]).spec_is_zero(),
            decreases self.cols - c,
        {
            if !self.get(r, c).is_zero() {
                return false;
            }
            c += 1;
        }
        true
    }

    /// The rank: the number of rows of the reduced form that hold a
    /// non-zero entry.
    pub fn rank(&self) -> (r: i32)
        requires
            self@.rows <= i32::MAX,
        ensures
            r == self@.rank(),
            0 <= r <= self@.rows,
    {
        let reduced = self.rref();
        let rows: usize = self.rows;
        let mut rank: i32 = 0;
        let mut r: usize = 0;
        proof {
            self@.lemma_rref_shape();
        }
        while r < rows
            invariant
                r <= rows,
                rows == self@.rows,
                rows <= i32::MAX,
                reduced@.rows == self@.rows,
                rank == reduced@.nonzero_rows(r as nat),
                rank <= r,
            decreases rows - r,
        {
            if !reduced.row_is_zero(r) {
                rank += 1;
            }
            r += 1;
        }
        rank
    }

    /// Sets every diagonal entry of a square matrix to one.
    pub fn identity(&mut self)
        requires
            old(self)@.rows == old(self)@.cols,
        ensures
            final(self)@ == old(self)@.with_unit_diagonal(),
    {
        let ghost before = self@;
        let n: usize = self.rows;
        let mut r: usize = 0;
        proof {
            self.lemma_view_wf();
        }
        while r < n
            invariant
                r <= n,
                n == before.rows,
                n == before.cols,
                before.wf(),
                self@.wf(),
                self@.rows == before.rows,
                self@.cols == before.cols,
                forall|i: int, j: int|
                    0 <= i < n && 0 <= j < n ==> #[trigger] self@.cells[i][j] == (if i == j && i < r {
                        Scalar::spec_one()
                    } else {
                        before.cells[i][j]
                    }),
            decreases n - r,
        {
            let ghost previous = self@;
            self.set(r, r, Scalar::one());
            proof {
                assert forall|i: int, j: int| 0 <= i < n && 0 <= j < n implies #[trigger] self@.cells[i][j]
                    == (if i == j && i < r + 1 {
                    Scalar::spec_one()
                } else {
                    before.cells[i][j]
                }) by {
                    assert(previous.cells[i].len() == n);
                    assert(previous.cells[r as int].len() == n);
                }
            }
            r += 1;
        }
        proof {
            let expected = before.with_unit_diagonal();
            assert forall|i: int, j: int| 0 <= i < self@.rows && 0 <= j < self@.cols implies self@.cells[i][j]
                == expected.cells[i][j] by {}
            self@.lemma_ext(expected);
        }
    }

    /// The sum of the diagonal entries of a square matrix, added from the
    /// top left.
    pub fn trace(&self) -> (t: Scalar)
        requires
            self@.rows == self@.cols,
        ensures
            t == self@.trace(),
    {
        let n: usize = self.rows;
        let mut t = Scalar::zero();
        let mut i: usize = 0;
        while i < n
            invariant
                i <= n,
                n == self@.rows,
                n == self@.cols,
                t == self@.trace_prefix(i as nat),
            decreases n - i,
        {
            t = t.add(self.get(i, i));
            i += 1;
        }
        t
    }
}

impl Clone for Matrix {
    /// A copy with the same shape and entries.
    fn clone(&self) -> (m: Matrix)
        ensures
            m@ == self@,
    {
        proof {
            use_type_invariant(self);
        }
        let n: usize = self.data.len();
        let mut data: Vec<Scalar> = Vec::with_capacity(n);
        let mut k: usize = 0;
        while k < n
            invariant
                k <= n,
                n == self.data@.len(),
                data@ == self.data@.subrange(0, k as int),
            decreases n - k,
        {
            data.push(self.data[k]);
            assert(data@ =~= self.data@.subrange(0, k + 1));
            k += 1;
        }
        assert(data@ =~= self.data@);
        Matrix { rows: self.rows, cols: self.cols, data }
    }
}

} // verus!
