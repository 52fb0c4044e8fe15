//! The feature matrix: an `ndarray` two-dimensional array of fixed-point keys,
//! one row per sample and one column per feature.

use vstd::prelude::*;

verus! {

/// Feature values in fixed point: a key `k` stands for the value `k / PRECISION`.
pub const PRECISION: i64 = 10000;

/// A rectangular matrix of feature keys, held in an `ndarray::Array2<i64>`.
#[verifier::external_body]
pub struct FeatureMatrix {
    cells: ndarray::Array2<i64>,
}

#[verifier::external_type_specification]
#[verifier::external_body]
pub struct ExShapeError(ndarray::ShapeError);

/// The rows of a matrix, each the sequence of its cells.
pub uninterp spec fn rows_of(m: FeatureMatrix) -> Seq<Seq<i64>>;

/// The number of columns of a matrix (defined also when it has no rows).
pub uninterp spec fn width_of(m: FeatureMatrix) -> nat;

/// A matrix with `rows` rows of `cols` cells each, read from `cells` in row-major order.
pub open spec fn is_row_major(m: FeatureMatrix, rows: nat, cols: nat, cells: Seq<i64>) -> bool {
    &&& rows_of(m).len() == rows
    &&& width_of(m) == cols
    &&& forall|i: int| 0 <= i < rows ==> (#[trigger] rows_of(m)[i]).len() == cols
    &&& forall|i: int, j: int|
        0 <= i < rows && 0 <= j < cols ==> #[trigger] rows_of(m)[i][j] == cells[i * cols + j]
}

/// Relies on `Array2::from_shape_vec` with a `(rows, cols)` shape, which lays the
/// cells out in row-major order and fails exactly when their count differs from
/// `rows * cols` or an axis is longer than `isize::MAX`.
#[verifier::external_body]
fn array_from_shape_vec(rows: usize, cols: usize, cells: Vec<i64>) -> (r: Result<
    FeatureMatrix,
    ndarray::ShapeError,
>)
    ensures
        r is Ok <==> (rows * cols == cells@.len() && rows <= isize::MAX && cols <= isize::MAX),
        r matches Ok(m) ==> is_row_major(m, rows as nat, cols as nat, cells@),
{
    ndarray::Array2::from_shape_vec((rows, cols), cells).map(|a| FeatureMatrix { cells: a })
}

/// Relies on `ArrayBase::nrows`: the length of axis 0.
#[verifier::external_body]
fn array_nrows(m: &FeatureMatrix) -> (r: usize)
    ensures
        r == rows_of(*m).len(),
{
    m.cells.nrows()
}

/// Relies on `ArrayBase::ncols`: the length of axis 1, which every row has.
#[verifier::external_body]
fn array_ncols(m: &FeatureMatrix) -> (r: usize)
    ensures
        r == width_of(*m),
        forall|i: int| 0 <= i < rows_of(*m).len() ==> (#[trigger] rows_of(*m)[i]).len() == r,
{
    m.cells.ncols()
}

/// Relies on indexing an `ArrayBase` by `[row, column]` within its bounds.
#[verifier::external_body]
fn array_get(m: &FeatureMatrix, i: usize, j: usize) -> (r: i64)
    requires
        i < rows_of(*m).len(),
        j < width_of(*m),
    ensures
        r == rows_of(*m)[i as int][j as int],
{
    m.cells[[i, j]]
}

/// Why a matrix could not be built.
#[derive(Debug, Clone, Copy, PartialEq, Eq, Structural)]
pub enum MatrixError {
    /// The number of cells is not `rows * cols`, or an axis is longer than `isize::MAX`.
    ShapeMismatch,
}

impl FeatureMatrix {
    /// Every row holds `width_of` cells.
    pub open spec fn wf(self) -> bool {
        forall|i: int| 0 <= i < rows_of(self).len() ==> (#[trigger] rows_of(self)[i]).len() == width_of(self)
    }

    /// The values of column `j`, one per row.
    pub open spec fn column(self, j: int) -> Seq<i64> {
        Seq::new(rows_of(self).len(), |i: int| rows_of(self)[i][j])
    }

    /// Builds a matrix of `rows` rows and `cols` columns from its cells in row-major order.
    pub fn from_row_major(rows: usize, cols: usize, cells: Vec<i64>) -> (r: Result<FeatureMatrix, MatrixError>)
        ensures
            r is Ok <==> (rows * cols == cells@.len() && rows <= isize::MAX && cols <= isize::MAX),
            r matches Ok(m) ==> m.wf() && is_row_major(m, rows as nat, cols as nat, cells@),
            r matches Err(e) ==> e == MatrixError::ShapeMismatch,
    {
        match array_from_shape_vec(rows, cols, cells) {
            Ok(m) => Ok(m),
            Err(_) => Err(MatrixError::ShapeMismatch),
        }
    }

    /// The number of rows (samples).
    pub fn nrows(&self) -> (r: usize)
        ensures
            r == rows_of(*self).len(),
    {
        array_nrows(self)
    }

    /// The number of columns (features).
    pub fn ncols(&self) -> (r: usize)
        ensures
            r == width_of(*self),
            self.wf(),
    {
        array_ncols(self)
    }

    /// The cell at row `i`, column `j`.
    pub fn get(&self, i: usize, j: usize) -> (r: i64)
        requires
            i < rows_of(*self).len(),
            j < width_of(*self),
        ensures
            r == rows_of(*self)[i as int][j as int],
    {
        array_get(self, i, j)
    }

    /// A copy of column `j`.
    pub fn column_values(&self, j: usize) -> (r: Vec<i64>)
        requires
            j < width_of(*self),
        ensures
            r@ == self.column(j as int),
    {
        let n = self.nrows();
        let mut out: Vec<i64> = Vec::new();
        let mut i: usize = 0;
        while i < n
            invariant
                n == rows_of(*self).len(),
                j < width_of(*self),
                i <= n,
                out@ == self.column(j as int).take(i as int),
            decreases n - i,
        {
            out.push(self.get(i, j));
            i = i + 1;
            assert(out@ =~= self.column(j as int).take(i as int));
        }
        assert(out@ =~= self.column(j as int));
        out
    }
}

} // verus!
