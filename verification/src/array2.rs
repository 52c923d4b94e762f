//! Point-set adapter: a dense, row-major R x C matrix with validated
//! construction from nested or flat sequences.

use vstd::prelude::*;

verus! {

/// Error reported when the data handed to a constructor does not have
/// the length demanded by the declared row and column counts.
#[derive(Clone, Copy, Debug, PartialEq, Eq, Structural)]
pub struct LengthMismatch;

/// A dense R x C matrix stored in row-major order.
///
/// The entry at row `i`, column `j` sits at flat index `i * cols + j`.
/// Construction validates the data length against the declared shape;
/// after construction the value is never mutated.
pub struct Array2<T> {
    data: Vec<T>,
    rows: usize,
    cols: usize,
}

/// The common row length of a nested row-major sequence: the length of
/// its first row, or zero when there are no rows.
pub open spec fn nested_cols<T>(rows: Seq<Vec<T>>) -> int {
    if rows.len() == 0 {
        0
    } else {
        rows[0]@.len() as int
    }
}

/// All rows of a nested sequence share the length of the first row.
pub open spec fn uniform_rows<T>(rows: Seq<Vec<T>>) -> bool {
    forall|i: int| 0 <= i < rows.len() ==> #[trigger] rows[i]@.len() == nested_cols(rows)
}

impl<T> Array2<T> {
    /// Row count, as a mathematical integer.
    pub closed spec fn spec_rows(self) -> int {
        self.rows as int
    }

    /// Column count, as a mathematical integer.
    pub closed spec fn spec_cols(self) -> int {
        self.cols as int
    }

    /// The entries, flattened in row-major order.
    pub closed spec fn flat(self) -> Seq<T> {
        self.data@
    }

    /// The stored data holds exactly `rows * cols` entries.
    pub open spec fn wf(self) -> bool {
        self.flat().len() == self.spec_rows() * self.spec_cols()
    }

    /// The entry at row `i`, column `j` under the row-major layout.
    pub open spec fn entry(self, i: int, j: int) -> T
        recommends
            self.wf(),
            0 <= i < self.spec_rows(),
            0 <= j < self.spec_cols(),
    {
        self.flat()[i * self.spec_cols() + j]
    }

    /// Row-major interpretation: the entry at flat index `k` is the
    /// entry at row `k / cols`, column `k % cols`.
    pub proof fn lemma_row_major(self, k: int)
        requires
            self.wf(),
            1 <= self.spec_cols(),
            0 <= k < self.flat().len(),
        ensures
            0 <= k / self.spec_cols() < self.spec_rows(),
            0 <= k % self.spec_cols() < self.spec_cols(),
            self.flat()[k] == self.entry(k / self.spec_cols(), k % self.spec_cols()),
    {
        let c = self.spec_cols();
        let q = k / c;
        let r = k % c;
        vstd::arithmetic::div_mod::lemma_fundamental_div_mod(k, c);
        vstd::arithmetic::div_mod::lemma_mod_bound(k, c);
        assert(0 <= q < self.spec_rows()) by (nonlinear_arith)
            requires
                k == c * q + r,
                0 <= r < c,
                0 <= k,
                k < self.spec_rows() * c,
                0 < c,
        ;
        assert(q * c + r == k) by (nonlinear_arith)
            requires
                k == c * q + r,
        ;
    }

    /// Number of rows.
    pub fn nrows(&self) -> (r: usize)
        ensures
            r as int == self.spec_rows(),
    {
        self.rows
    }

    /// Number of columns.
    pub fn ncols(&self) -> (r: usize)
        ensures
            r as int == self.spec_cols(),
    {
        self.cols
    }

    /// Build from a flat row-major sequence together with the intended
    /// shape. Succeeds exactly when the sequence holds `rows * cols`
    /// entries; otherwise the construction fails with `LengthMismatch`
    /// and nothing is built.
    pub fn from_flat(data: Vec<T>, rows: usize, cols: usize) -> (r: Result<Array2<T>, LengthMismatch>)
        ensures
            r is Ok <==> data@.len() == rows as int * cols as int,
            r matches Ok(a) ==> {
                &&& a.wf()
                &&& a.spec_rows() == rows
                &&& a.spec_cols() == cols
                &&& a.flat() == data@
            },
    {
        let len = data.len();
        match rows.checked_mul(cols) {
            Some(n) => {
                if len == n {
                    Ok(Array2 { data, rows, cols })
                } else {
                    Err(LengthMismatch)
                }
            }
            None => Err(LengthMismatch),
        }
    }

    /// Whether two matrices agree in both row and column counts: the
    /// shape check owed before two point sets are paired.
    pub fn same_shape(&self, other: &Array2<T>) -> (r: bool)
        ensures
            r <==> (self.spec_rows() == other.spec_rows() && self.spec_cols()
                == other.spec_cols()),
    {
        self.rows == other.rows && self.cols == other.cols
    }

    /// Internal constructor for callers that have already established
    /// the length invariant.
    pub(crate) fn from_parts(data: Vec<T>, rows: usize, cols: usize) -> (r: Array2<T>)
        requires
            data@.len() == rows as int * cols as int,
        ensures
            r.wf(),
            r.spec_rows() == rows,
            r.spec_cols() == cols,
            r.flat() == data@,
    {
        Array2 { data, rows, cols }
    }
}

impl<T: Copy> Array2<T> {
    /// Build from a nested row-major sequence of rows. The shape is
    /// taken from the sequence itself; every row must have the length
    /// of the first, otherwise the construction fails with
    /// `LengthMismatch`.
    pub fn new(nested: Vec<Vec<T>>) -> (r: Result<Array2<T>, LengthMismatch>)
        ensures
            r is Ok <==> uniform_rows(nested@),
            r matches Ok(a) ==> {
                &&& a.wf()
                &&& a.spec_rows() == nested@.len()
                &&& a.spec_cols() == nested_cols(nested@)
                &&& forall|i: int, j: int|
                    0 <= i < a.spec_rows() && 0 <= j < a.spec_cols()
                        ==> #[trigger] a.entry(i, j) == nested@[i]@[j]
            },
    {
        let rows = nested.len();
        let cols = if rows == 0 { 0 } else { nested[0].len() };
        let mut i: usize = 0;
        while i < rows
            invariant
                i <= rows,
                rows == nested@.len(),
                cols as int == nested_cols(nested@),
                forall|k: int| 0 <= k < i ==> #[trigger] nested@[k]@.len() == cols,
            decreases rows - i,
        {
            if nested[i].len() != cols {
                proof {
                    assert(nested@[i as int]@.len() != nested_cols(nested@));
                }
                return Err(LengthMismatch);
            }
            i += 1;
        }
        let mut data: Vec<T> = Vec::new();
        let mut p: usize = 0;
        while p < rows
            invariant
                p <= rows,
                rows == nested@.len(),
                cols as int == nested_cols(nested@),
                uniform_rows(nested@),
                data@.len() == p * cols,
                forall|a: int, b: int|
                    0 <= a < p && 0 <= b < cols
                        ==> data@[a * (cols as int) + b] == #[trigger] nested@[a]@[b],
            decreases rows - p,
        {
            let mut q: usize = 0;
            while q < cols
                invariant
                    q <= cols,
                    p < rows,
                    rows == nested@.len(),
                    cols as int == nested_cols(nested@),
                    uniform_rows(nested@),
                    data@.len() == p * cols + q,
                    forall|a: int, b: int|
                        0 <= a < p && 0 <= b < cols
                            ==> data@[a * (cols as int) + b] == #[trigger] nested@[a]@[b],
                    forall|b: int|
                        0 <= b < q
                            ==> data@[(p as int) * (cols as int) + b] == #[trigger] nested@[p as int]@[b],
                decreases cols - q,
            {
                data.push(nested[p][q]);
                q += 1;
                proof {
                    assert forall|a: int, b: int| 0 <= a < p && 0 <= b < cols implies
                        data@[a * (cols as int) + b] == #[trigger] nested@[a]@[b] by {
                        assert(0 <= a * (cols as int) + b < (p as int) * (cols as int))
                            by (nonlinear_arith)
                            requires
                                0 <= a,
                                a < p,
                                0 <= b,
                                b < cols as int,
                        ;
                    }
                }
            }
            proof {
                assert((p as int) * (cols as int) + (cols as int) == ((p as int) + 1) * (cols as int))
                    by (nonlinear_arith);
            }
            p += 1;
        }
        Ok(Array2 { data, rows, cols })
    }

    /// The entry at row `i`, column `j`.
    pub fn get(&self, i: usize, j: usize) -> (r: T)
        requires
            self.wf(),
            i < self.spec_rows(),
            j < self.spec_cols(),
        ensures
            r == self.entry(i as int, j as int),
    {
        // the length call brings the usize bound on the flat data into
        // scope, so the index arithmetic below cannot overflow
        let _len = self.data.len();
        proof {
            assert((i as int) * (self.cols as int) + (j as int) < (self.rows as int) * (self.cols as int))
                by (nonlinear_arith)
                requires
                    (i as int) < (self.rows as int),
                    (j as int) < (self.cols as int),
                    0 <= i as int,
                    0 <= j as int,
            ;
        }
        let k = i * self.cols + j;
        self.data[k]
    }
}

} // verus!
