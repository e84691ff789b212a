//! Sparse matrices of weights: each row lists the columns it weighs.
use crate::field::{field_add, field_mul, Scalar};
use crate::scalar_vector::{values, ScalarVector};
use vstd::prelude::*;

verus! {

/// A row as plain values: each entry a column and its weight.
pub type RowView = Seq<(nat, nat)>;

/// The row which a list of entries stands for.
pub open spec fn row_view(row: Seq<(usize, Scalar)>) -> RowView {
    Seq::new(row.len(), |k: int| (row[k].0 as nat, row[k].1@))
}

/// The rows which a list of lists of entries stands for.
pub open spec fn rows_view(rows: Seq<Vec<(usize, Scalar)>>) -> Seq<RowView> {
    Seq::new(rows.len(), |i: int| row_view(rows[i]@))
}

/// The highest column among the first `k` entries of a row, zero for none.
pub open spec fn row_highest(row: RowView, k: nat) -> nat
    decreases k,
{
    if k == 0 {
        0
    } else {
        let rest = row_highest(row, (k - 1) as nat);
        if row[k - 1].0 > rest {
            row[k - 1].0
        } else {
            rest
        }
    }
}

/// The highest column among the first `i` rows, zero for none.
pub open spec fn highest(rows: Seq<RowView>, i: nat) -> nat
    decreases i,
{
    if i == 0 {
        0
    } else {
        let rest = highest(rows, (i - 1) as nat);
        let here = row_highest(rows[i - 1], rows[i - 1].len());
        if here > rest {
            here
        } else {
            rest
        }
    }
}

/// Whether every column a matrix weighs is below `n`.
pub open spec fn columns_below(rows: Seq<RowView>, n: nat) -> bool {
    forall|i: int, k: int|
        0 <= i < rows.len() && 0 <= k < rows[i].len() ==> (#[trigger] rows[i][k]).0 < n
}

/// `acc` and, of the first `k` entries of a row, the weight of each that
/// stands in column `j`, multiplied by `z`: summed from the left.
pub open spec fn fold_row(acc: nat, row: RowView, z: nat, j: int, k: nat) -> nat
    decreases k,
{
    if k == 0 {
        acc
    } else {
        let rest = fold_row(acc, row, z, j, (k - 1) as nat);
        if row[k - 1].0 == j {
            field_add(rest, field_mul(row[k - 1].1, z))
        } else {
            rest
        }
    }
}

/// Over the first `i` rows, the weights in column `j`, each multiplied by
/// the scalar of its row: summed from the left.
pub open spec fn fold_rows(rows: Seq<RowView>, z: Seq<nat>, j: int, i: nat) -> nat
    decreases i,
{
    if i == 0 {
        0
    } else {
        fold_row(fold_rows(rows, z, j, (i - 1) as nat), rows[i - 1], z[i - 1], j, rows[i - 1].len())
    }
}

/// The vector of length `n` whose entry `j` is the sum, over the rows, of the
/// row's scalar multiplied by the row's weight in column `j`.
pub open spec fn apply(rows: Seq<RowView>, n: nat, z: Seq<nat>) -> Seq<nat> {
    Seq::new(n, |j: int| fold_rows(rows, z, j, rows.len()))
}

/// The first `k` entries of a row, each weight multiplied by the value in
/// its column: summed from the left.
pub open spec fn row_dot(row: RowView, vals: Seq<nat>, k: nat) -> nat
    decreases k,
{
    if k == 0 {
        0
    } else {
        field_add(
            row_dot(row, vals, (k - 1) as nat),
            field_mul(row[k - 1].1, vals[row[k - 1].0 as int]),
        )
    }
}

/// Every column among the first `k` entries is at most the highest.
pub proof fn lemma_row_highest(row: RowView, k: nat, e: int)
    requires
        0 <= e < k <= row.len(),
    ensures
        row[e].0 <= row_highest(row, k),
    decreases k,
{
    if e < k - 1 {
        lemma_row_highest(row, (k - 1) as nat, e);
    }
}

/// Every column among the first `i` rows is at most the highest.
pub proof fn lemma_highest(rows: Seq<RowView>, i: nat, r: int, e: int)
    requires
        0 <= r < i <= rows.len(),
        0 <= e < rows[r].len(),
    ensures
        rows[r][e].0 <= highest(rows, i),
    decreases i,
{
    if r < i - 1 {
        lemma_highest(rows, (i - 1) as nat, r, e);
    } else {
        lemma_row_highest(rows[r], rows[r].len(), e);
    }
}

/// A matrix whose highest column is below `n` weighs columns below `n` only.
pub proof fn lemma_columns_below(rows: Seq<RowView>, n: nat)
    requires
        highest(rows, rows.len()) < n,
    ensures
        columns_below(rows, n),
{
    assert forall|i: int, k: int| 0 <= i < rows.len() && 0 <= k < rows[i].len() implies (
    #[trigger] rows[i][k]).0 < n by {
        lemma_highest(rows, rows.len(), i, k);
    }
}

/// A row with every weight replaced by zero.
pub open spec fn wiped_row(row: RowView) -> RowView {
    Seq::new(row.len(), |k: int| (row[k].0, 0nat))
}

/// A matrix with every weight replaced by zero.
pub open spec fn wiped(rows: Seq<RowView>) -> Seq<RowView> {
    Seq::new(rows.len(), |i: int| wiped_row(rows[i]))
}

/// A sparse matrix of weights.
#[derive(Clone, Debug, PartialEq, Eq)]
pub struct ScalarMatrix {
    pub data: Vec<Vec<(usize, Scalar)>>,
}

impl ScalarMatrix {
    /// The rows of the matrix.
    pub open spec fn view(&self) -> Seq<RowView> {
        rows_view(self.data@)
    }

    /// The matrix without rows.
    pub fn new() -> (r: ScalarMatrix)
        ensures
            r@ == Seq::<RowView>::empty(),
    {
        let r = ScalarMatrix { data: Vec::new() };
        r
    }

    /// The number of rows.
    pub fn len(&self) -> (r: usize)
        ensures
            r == self@.len(),
    {
        self.data.len()
    }

    /// The highest column any row weighs, zero where none weighs any.
    pub fn highest_index(&self) -> (r: usize)
        ensures
            r == highest(self@, self@.len()),
            columns_below(self@, (r + 1) as nat),
    {
        let ghost rows = self@;
        let mut high: usize = 0;
        let mut i: usize = 0;
        while i < self.data.len()
            invariant
                i <= self.data@.len(),
                rows == rows_view(self.data@),
                high == highest(rows, i as nat),
            decreases self.data@.len() - i,
        {
            let row = &self.data[i];
            let mut here: usize = 0;
            let mut k: usize = 0;
            while k < row.len()
                invariant
                    k <= row@.len(),
                    i < self.data@.len(),
                    rows == rows_view(self.data@),
                    row@ == self.data@[i as int]@,
                    here == row_highest(rows[i as int], k as nat),
                decreases row@.len() - k,
            {
                if row[k].0 > here {
                    here = row[k].0;
                }
                k += 1;
            }
            if here > high {
                high = here;
            }
            i += 1;
        }
        proof {
            assert forall|i: int, k: int| 0 <= i < rows.len() && 0 <= k < rows[i].len() implies (
            #[trigger] rows[i][k]).0 < high + 1 by {
                lemma_highest(rows, rows.len(), i, k);
            }
        }
        high
    }

    /// Whether every column a row weighs is below `n`.
    pub fn columns_below(&self, n: usize) -> (r: bool)
        ensures
            r == columns_below(self@, n as nat),
    {
        let ghost rows = self@;
        let mut i: usize = 0;
        while i < self.data.len()
            invariant
                i <= self.data@.len(),
                rows == rows_view(self.data@),
                forall|a: int, k: int|
                    0 <= a < i && 0 <= k < rows[a].len() ==> (#[trigger] rows[a][k]).0 < n,
            decreases self.data@.len() - i,
        {
            let row = &self.data[i];
            let mut k: usize = 0;
            while k < row.len()
                invariant
                    k <= row@.len(),
                    i < self.data@.len(),
                    rows == rows_view(self.data@),
                    row@ == self.data@[i as int]@,
                    forall|e: int| 0 <= e < k ==> (#[trigger] rows[i as int][e]).0 < n,
                decreases row@.len() - k,
            {
                assert(rows[i as int][k as int].0 == row@[k as int].0);
                if row[k].0 >= n {
                    return false;
                }
                k += 1;
            }
            i += 1;
        }
        true
    }

    /// Adds a row behind the others.
    pub fn push(&mut self, row: Vec<(usize, Scalar)>)
        ensures
            final(self)@ == old(self)@.push(row_view(row@)),
    {
        self.data.push(row);
    }

    /// The matrix applied to one scalar for each row: the vector of length
    /// `n` which holds, for each column, the sum of the weights in it, each
    /// multiplied by the scalar of its row.
    pub fn mul_vec(&self, n: usize, vector: &ScalarVector) -> (r: ScalarVector)
        requires
            self@.len() == vector@.len(),
            columns_below(self@, n as nat),
        ensures
            r@ == apply(self@, n as nat, vector@),
    {
        let mut res = ScalarVector::new(n);
        let ghost rows = self@;
        let ghost z = vector@;
        let mut i: usize = 0;
        while i < self.data.len()
            invariant
                i <= self.data@.len(),
                rows == rows_view(self.data@),
                z == vector@,
                rows.len() == z.len(),
                columns_below(rows, n as nat),
                res@.len() == n,
                forall|j: int| 0 <= j < n ==> res@[j] == fold_rows(rows, z, j, i as nat),
            decreases self.data@.len() - i,
        {
            let row = &self.data[i];
            let weight = vector.get(i);
            let mut k: usize = 0;
            while k < row.len()
                invariant
                    k <= row@.len(),
                    i < self.data@.len(),
                    row@ == self.data@[i as int]@,
                    rows == rows_view(self.data@),
                    z == vector@,
                    weight@ == z[i as int],
                    columns_below(rows, n as nat),
                    res@.len() == n,
                    forall|j: int|
                        0 <= j < n ==> res@[j] == fold_row(
                            fold_rows(rows, z, j, i as nat),
                            rows[i as int],
                            z[i as int],
                            j,
                            k as nat,
                        ),
                decreases row@.len() - k,
            {
                let column = row[k].0;
                assert(rows[i as int][k as int] == (column as nat, row@[k as int].1@));
                let term = row[k].1.mul(&weight);
                let sum = res.get(column).add(&term);
                res.set(column, sum);
                k += 1;
            }
            i += 1;
        }
        res
    }

    /// Row `i` applied to a vector: the sum of each weight multiplied by the
    /// value in its column.
    pub fn row_dot(&self, i: usize, vals: &ScalarVector) -> (r: Scalar)
        requires
            i < self@.len(),
            columns_below(self@, vals@.len()),
        ensures
            r@ == row_dot(self@[i as int], vals@, self@[i as int].len()),
    {
        let row = &self.data[i];
        let ghost entries = self@[i as int];
        let mut acc = Scalar::zero();
        let mut k: usize = 0;
        while k < row.len()
            invariant
                k <= row@.len(),
                entries == row_view(row@),
                entries == self@[i as int],
                i < self@.len(),
                columns_below(self@, vals@.len()),
                acc@ == row_dot(entries, vals@, k as nat),
            decreases row@.len() - k,
        {
            let column = row[k].0;
            assert(entries[k as int] == (column as nat, row@[k as int].1@));
            let term = row[k].1.mul(&vals.get(column));
            acc = acc.add(&term);
            k += 1;
        }
        acc
    }

    /// Overwrites every weight with zero; the columns stay.
    pub fn zeroize(&mut self)
        ensures
            final(self)@ == wiped(old(self)@),
    {
        let ghost before = rows_view(self.data@);
        let mut data: Vec<Vec<(usize, Scalar)>> = Vec::with_capacity(self.data.len());
        let mut i: usize = 0;
        while i < self.data.len()
            invariant
                i <= self.data@.len(),
                before == rows_view(self.data@),
                data@.len() == i,
                forall|r: int| 0 <= r < i ==> row_view(#[trigger] data@[r]@) == wiped_row(before[r]),
            decreases self.data@.len() - i,
        {
            let mut row: Vec<(usize, Scalar)> = Vec::with_capacity(self.data[i].len());
            let mut k: usize = 0;
            while k < self.data[i].len()
                invariant
                    i < self.data@.len(),
                    k <= self.data@[i as int]@.len(),
                    row@.len() == k,
                    forall|e: int|
                        0 <= e < k ==> (#[trigger] row@[e]).0 == self.data@[i as int]@[e].0
                            && row@[e].1@ == 0,
                decreases self.data@[i as int]@.len() - k,
            {
                let mut entry = self.data[i][k];
                entry.1.zeroize();
                row.push(entry);
                k += 1;
            }
            data.push(row);
            i += 1;
        }
        self.data = data;
    }
}

} // verus!
