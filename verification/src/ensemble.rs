//! Laying out the draws of a Gaussian orthogonal ensemble as a symmetric
//! matrix.

use vstd::prelude::*;
use crate::error::Error;

verus! {

/// A dense matrix of binary64 patterns, held in an `ndarray` array.
#[verifier::external_body]
pub struct Matrix {
    cells: ndarray::Array2<u64>,
}

/// The rows of a matrix, each the sequence of its entries.
pub uninterp spec fn entries(matrix: Matrix) -> Seq<Seq<u64>>;

/// The matrix has `order` rows of `order` entries each.
pub open spec fn square(rows: Seq<Seq<u64>>, order: nat) -> bool {
    &&& rows.len() == order
    &&& forall|i: int| 0 <= i < order ==> (#[trigger] rows[i]).len() == order
}

/// Entry `(i, j)` equals entry `(j, i)` throughout.
pub open spec fn symmetric(rows: Seq<Seq<u64>>) -> bool {
    forall|i: int, j: int|
        0 <= i < rows.len() && 0 <= j < rows.len() ==> #[trigger] rows[i][j] == rows[j][i]
}

/// The entry in row `i`, column `j`, where the matrix has one.
pub open spec fn entry_at(rows: Seq<Seq<u64>>, i: int, j: int) -> Option<u64> {
    if 0 <= i < rows.len() && 0 <= j < rows[i].len() {
        Some(rows[i][j])
    } else {
        None
    }
}

/// `ndarray::Array2::zeros((order, order))`: a square array of the given
/// order whose entries are all zero. The call panics where the number of
/// entries, or of their bytes, exceeds `isize::MAX`.
#[verifier::external_body]
fn zeros(order: usize) -> (matrix: Matrix)
    requires
        order * order * 8 <= isize::MAX,
    ensures
        entries(matrix) == Seq::new(order as nat, |i: int| Seq::new(order as nat, |j: int| 0u64)),
{
    Matrix { cells: ndarray::Array2::zeros((order, order)) }
}

/// The index assignment `array[[i, j]] = value` of `ndarray`: entry `(i, j)`
/// takes the value and every other entry stays. The assignment panics where
/// the index is out of bounds.
#[verifier::external_body]
fn put(matrix: &mut Matrix, i: usize, j: usize, value: u64)
    requires
        i < entries(*old(matrix)).len(),
        j < entries(*old(matrix))[i as int].len(),
    ensures
        entries(*final(matrix)) == entries(*old(matrix)).update(
            i as int,
            entries(*old(matrix))[i as int].update(j as int, value),
        ),
{
    matrix.cells[[i, j]] = value;
}

/// `ndarray::ArrayBase::get` at `[i, j]`: the entry there, or nothing where
/// the index is out of bounds.
#[verifier::external_body]
fn entry(matrix: &Matrix, i: usize, j: usize) -> (found: Option<u64>)
    ensures
        found == entry_at(entries(*matrix), i as int, j as int),
{
    matrix.cells.get([i, j]).copied()
}

/// `ndarray::ArrayBase::nrows`: the number of rows.
#[verifier::external_body]
fn rows(matrix: &Matrix) -> (count: usize)
    ensures
        count == entries(*matrix).len(),
{
    matrix.cells.nrows()
}

impl Matrix {
    /// The number of rows.
    pub fn order(&self) -> (count: usize)
        ensures
            count == entries(*self).len(),
    {
        rows(self)
    }

    /// The entry in row `i`, column `j`, where there is one.
    pub fn get(&self, i: usize, j: usize) -> (found: Option<u64>)
        ensures
            found == entry_at(entries(*self), i as int, j as int),
    {
        entry(self, i, j)
    }
}

/// The number of unordered pairs `(a, b)`, `a < b < n`, whose first member
/// lies below `i`: row `a` of the strict upper triangle holds `n - 1 - a` of
/// them.
pub open spec fn row_start(n: int, i: int) -> int
    decreases i,
{
    if i <= 0 {
        0
    } else {
        row_start(n, i - 1) + (n - i)
    }
}

/// The place of the pair `(i, j)`, `i < j < n`, when the strict upper
/// triangle is walked row by row: the draw that fills entries `(i, j)` and
/// `(j, i)`.
pub open spec fn pair_index(n: int, i: int, j: int) -> int {
    row_start(n, i) + (j - i - 1)
}

/// The number of unordered pairs of distinct indices below `n`.
pub open spec fn pair_total(n: int) -> int {
    row_start(n, n)
}

/// The rows of the upper triangle have the closed form of an arithmetic
/// series.
pub proof fn lemma_row_start(n: int, i: int)
    requires
        0 <= i,
    ensures
        2 * row_start(n, i) == i * (2 * n - i - 1),
    decreases i,
{
    if i > 0 {
        lemma_row_start(n, i - 1);
        assert((i - 1) * (2 * n - (i - 1) - 1) + 2 * (n - i) == i * (2 * n - i - 1))
            by (nonlinear_arith);
    } else {
        assert(0 * (2 * n - 0 - 1) == 0);
    }
}

/// A matrix of order `n` has `n (n - 1) / 2` pairs.
pub proof fn lemma_pair_total(n: int)
    requires
        0 <= n,
    ensures
        2 * pair_total(n) == n * (n - 1),
{
    lemma_row_start(n, n);
    assert(n * (2 * n - n - 1) == n * (n - 1)) by (nonlinear_arith);
}

/// Later rows start later.
pub proof fn lemma_row_start_monotone(n: int, i: int, k: int)
    requires
        0 <= i <= k <= n,
    ensures
        row_start(n, i) <= row_start(n, k),
    decreases k - i,
{
    if i < k {
        lemma_row_start_monotone(n, i, k - 1);
    }
}

/// Every pair has a place among the `pair_total(n)` draws.
pub proof fn lemma_pair_index_in_range(n: int, i: int, j: int)
    requires
        0 <= i < j < n,
    ensures
        0 <= row_start(n, i) <= pair_index(n, i, j) < row_start(n, i + 1) <= pair_total(n),
{
    lemma_row_start_monotone(n, 0, i);
    lemma_row_start_monotone(n, i + 1, n);
}

/// One draw per unordered pair: two different pairs never share a draw.
pub proof fn lemma_pair_index_injective(n: int, i: int, j: int, k: int, l: int)
    requires
        0 <= i < j < n,
        0 <= k < l < n,
        pair_index(n, i, j) == pair_index(n, k, l),
    ensures
        i == k,
        j == l,
{
    lemma_pair_index_in_range(n, i, j);
    lemma_pair_index_in_range(n, k, l);
    if i < k {
        lemma_row_start_monotone(n, i + 1, k);
    }
    if k < i {
        lemma_row_start_monotone(n, k + 1, i);
    }
}

/// No draw is left over: every place below `pair_total(n)` belongs to a
/// pair.
pub proof fn lemma_pair_index_onto(n: int, place: int) -> (pair: (int, int))
    requires
        0 <= place < pair_total(n),
    ensures
        0 <= pair.0 < pair.1 < n,
        pair_index(n, pair.0, pair.1) == place,
{
    lemma_row_of(n, n, place)
}

proof fn lemma_row_of(n: int, rows: int, place: int) -> (pair: (int, int))
    requires
        0 <= rows <= n,
        0 <= place < row_start(n, rows),
    ensures
        0 <= pair.0 < pair.1 < n,
        pair.0 < rows,
        pair_index(n, pair.0, pair.1) == place,
    decreases rows,
{
    if place >= row_start(n, rows - 1) {
        (rows - 1, place - row_start(n, rows - 1) + rows)
    } else {
        lemma_row_of(n, rows - 1, place)
    }
}

/// Entry `(i, j)` of the matrix built from the given draws: a diagonal draw
/// on the diagonal, and off it the draw of the unordered pair `{i, j}`.
pub open spec fn goe_entry(diagonal: Seq<u64>, upper: Seq<u64>, i: int, j: int) -> u64 {
    let n = diagonal.len() as int;
    if i == j {
        diagonal[i]
    } else if i < j {
        upper[pair_index(n, i, j)]
    } else {
        upper[pair_index(n, j, i)]
    }
}

/// The matrix built from the given draws, row by row.
pub open spec fn goe_matrix(diagonal: Seq<u64>, upper: Seq<u64>) -> Seq<Seq<u64>> {
    Seq::new(
        diagonal.len(),
        |i: int| Seq::new(diagonal.len(), |j: int| goe_entry(diagonal, upper, i, j)),
    )
}

/// The matrix built from any draws is square and exactly symmetric: the two
/// entries of a pair hold the same draw.
pub proof fn lemma_goe_symmetric(diagonal: Seq<u64>, upper: Seq<u64>)
    ensures
        square(goe_matrix(diagonal, upper), diagonal.len()),
        symmetric(goe_matrix(diagonal, upper)),
{
}

/// The number of draws the strict upper triangle of a matrix of order `n`
/// takes.
pub fn pair_count(n: usize) -> (count: usize)
    requires
        n * n <= usize::MAX,
    ensures
        count == pair_total(n as int),
{
    proof {
        lemma_pair_total(n as int);
    }
    if n == 0 {
        0
    } else {
        assert(n * (n - 1) <= n * n) by (nonlinear_arith)
            requires
                n >= 1,
        ;
        n * (n - 1) / 2
    }
}

/// What the matrix holds while the pairs are being filled in: the diagonal,
/// the draws of the pairs that come before `(i, j)` in row order, and zero
/// elsewhere.
spec fn partly_filled(diagonal: Seq<u64>, upper: Seq<u64>, i: int, j: int) -> Seq<Seq<u64>> {
    Seq::new(
        diagonal.len(),
        |a: int|
            Seq::new(
                diagonal.len(),
                |b: int|
                    {
                        let (low, high) = if a < b {
                            (a, b)
                        } else {
                            (b, a)
                        };
                        if a == b || low < i || (low == i && high < j) {
                            goe_entry(diagonal, upper, a, b)
                        } else {
                            0u64
                        }
                    },
            ),
    )
}

/// What the matrix holds while the diagonal is being filled in.
spec fn diagonal_filled(diagonal: Seq<u64>, i: int) -> Seq<Seq<u64>> {
    Seq::new(
        diagonal.len(),
        |a: int|
            Seq::new(
                diagonal.len(),
                |b: int|
                    if a == b && a < i {
                        diagonal[a]
                    } else {
                        0u64
                    },
            ),
    )
}

/// A matrix of the Gaussian orthogonal ensemble before scaling, from its
/// draws.
///
/// The matrix has order `diagonal.len()`. Its diagonal holds the diagonal
/// draws in order; its off-diagonal entries `(i, j)` and `(j, i)`, `i < j`,
/// both hold the one draw of their pair, the pairs being taken row by row, so
/// the matrix is exactly symmetric. There have to be `n (n - 1) / 2` pair
/// draws; any other number is a dimension mismatch.
pub fn sample_goe(diagonal: &[u64], upper: &[u64]) -> (sampled: Result<Matrix, Error>)
    requires
        diagonal@.len() * diagonal@.len() * 8 <= isize::MAX,
    ensures
        upper@.len() == pair_total(diagonal@.len() as int) ==> sampled is Ok && entries(
            sampled->Ok_0,
        ) == goe_matrix(diagonal@, upper@) && symmetric(entries(sampled->Ok_0)),
        upper@.len() != pair_total(diagonal@.len() as int) ==> sampled is Err && sampled->Err_0
            == Error::DimensionMismatch(
            upper@.len() as usize,
            pair_total(diagonal@.len() as int) as usize,
        ),
{
    let n: usize = diagonal.len();
    let expected: usize = pair_count(n);
    if upper.len() != expected {
        return Err(Error::DimensionMismatch(upper.len(), expected));
    }
    let mut matrix = zeros(n);
    assert(entries(matrix) =~~= diagonal_filled(diagonal@, 0));
    let mut i: usize = 0;
    while i < n
        invariant
            n == diagonal@.len(),
            i <= n,
            entries(matrix) == diagonal_filled(diagonal@, i as int),
        decreases n - i,
    {
        put(&mut matrix, i, i, diagonal[i]);
        i += 1;
        assert(entries(matrix) =~~= diagonal_filled(diagonal@, i as int));
    }
    assert(entries(matrix) =~~= partly_filled(diagonal@, upper@, 0, 0));
    let mut next: usize = 0;
    i = 0;
    while i < n
        invariant
            n == diagonal@.len(),
            upper@.len() == pair_total(n as int),
            i <= n,
            next == row_start(n as int, i as int),
            entries(matrix) == partly_filled(diagonal@, upper@, i as int, 0),
        decreases n - i,
    {
        let mut j: usize = i + 1;
        assert(entries(matrix) =~~= partly_filled(diagonal@, upper@, i as int, j as int));
        while j < n
            invariant
                n == diagonal@.len(),
                upper@.len() == pair_total(n as int),
                i < j <= n,
                next == pair_index(n as int, i as int, j as int),
                entries(matrix) == partly_filled(diagonal@, upper@, i as int, j as int),
            decreases n - j,
        {
            proof {
                lemma_pair_index_in_range(n as int, i as int, j as int);
            }
            let drawn: u64 = upper[next];
            put(&mut matrix, i, j, drawn);
            put(&mut matrix, j, i, drawn);
            next += 1;
            j += 1;
            assert(entries(matrix) =~~= partly_filled(diagonal@, upper@, i as int, j as int));
        }
        i += 1;
        assert(entries(matrix) =~~= partly_filled(diagonal@, upper@, i as int, 0));
    }
    proof {
        assert(entries(matrix) =~~= goe_matrix(diagonal@, upper@));
        lemma_goe_symmetric(diagonal@, upper@);
    }
    Ok(matrix)
}

} // verus!
