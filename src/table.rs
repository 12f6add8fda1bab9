use vstd::prelude::*;
use crate::err::ProfError;
use crate::text::string_views;
use ndarray::{Array2, ArrayView1, Axis, ShapeError};

verus! {

/// `ndarray::ShapeError`, the error of stacking rows; it is only carried to be mapped.
#[verifier::external_type_specification]
#[verifier::external_body]
pub struct ExShapeError(ShapeError);

/// A rows-by-columns table of counts, stored as an `ndarray::Array2<u64>`. The array
/// type itself cannot be declared to the verifier, so the table holds it privately and
/// every access goes through the functions below.
#[verifier::external_body]
pub struct MetricTable {
    cells: Array2<u64>,
}

/// The rows of a table, top to bottom.
pub uninterp spec fn table_rows(t: MetricTable) -> Seq<Seq<u64>>;

impl View for MetricTable {
    type V = Seq<Seq<u64>>;

    open spec fn view(&self) -> Seq<Seq<u64>> {
        table_rows(*self)
    }
}

/// Relies on `ndarray::stack` along a new first axis: it fails on an empty list, on rows
/// of unequal length and where the result would hold more than `isize::MAX` values;
/// otherwise the result holds the rows in order.
#[verifier::external_body]
fn stack_rows(rows: &Vec<Vec<u64>>) -> (r: Result<MetricTable, ShapeError>)
    ensures
        r is Ok ==> table_rows(r->Ok_0) == rows_view(rows@),
        r is Ok ==> rows@.len() > 0,
        r is Ok ==> forall|i: int|
            0 <= i < rows@.len() ==> #[trigger] rows@[i]@.len() == rows@[0]@.len(),
        r is Err ==> rows@.len() == 0 || (exists|i: int|
            0 <= i < rows@.len() && #[trigger] rows@[i]@.len() != rows@[0]@.len())
            || rows@.len() * rows@[0]@.len() > isize::MAX,
{
    let views: Vec<ArrayView1<u64>> = rows.iter().map(|v| ArrayView1::from(&v[..])).collect();
    match ndarray::stack(Axis(0), &views) {
        Ok(cells) => Ok(MetricTable { cells }),
        Err(e) => Err(e),
    }
}


/// Relies on `ArrayBase::select` along the first axis: row `i` of the result is row
/// `idx[i]` of `t`. It panics on an index out of bounds, and where the result would hold
/// more values than an array can; `requires` rules out both.
#[verifier::external_body]
pub(crate) fn select_rows(t: &MetricTable, idx: &Vec<usize>) -> (r: MetricTable)
    requires
        idx@.len() <= t@.len(),
        forall|i: int| 0 <= i < idx@.len() ==> #[trigger] idx@[i] < t@.len(),
    ensures
        r@ == idx@.map_values(|i: usize| t@[i as int]),
{
    MetricTable { cells: t.cells.select(Axis(0), idx) }
}

/// Relies on `ArrayBase::nrows`: the number of rows.
#[verifier::external_body]
fn nrows(t: &MetricTable) -> (r: usize)
    ensures
        r == t@.len(),
{
    t.cells.nrows()
}

/// Relies on `ArrayBase::ncols`: the length of every row.
#[verifier::external_body]
fn ncols(t: &MetricTable) -> (r: usize)
    ensures
        forall|i: int| 0 <= i < t@.len() ==> #[trigger] t@[i].len() == r,
{
    t.cells.ncols()
}

/// Relies on indexing an `Array2` by `[row, column]`, which panics out of bounds.
#[verifier::external_body]
fn cell(t: &MetricTable, i: usize, j: usize) -> (r: u64)
    requires
        i < t@.len(),
        j < t@[i as int].len(),
    ensures
        r == t@[i as int][j as int],
{
    t.cells[[i, j]]
}

/// Relies on `Array2::zeros`: an array with no rows; it panics where the product of the
/// nonzero axis lengths overflows `isize`, which `requires` rules out.
#[verifier::external_body]
fn no_rows(width: usize) -> (r: MetricTable)
    requires
        width <= isize::MAX,
    ensures
        r@.len() == 0,
{
    MetricTable { cells: Array2::zeros((0, width)) }
}

/// The views of a sequence of rows.
pub open spec fn rows_view(v: Seq<Vec<u64>>) -> Seq<Seq<u64>> {
    v.map_values(|r: Vec<u64>| r@)
}

/// How many rows a limit of `num` leaves of `n`.
pub open spec fn shown_count(num: nat, n: nat) -> nat {
    if num < n {
        num
    } else {
        n
    }
}

/// The values of column `j`, top to bottom.
pub open spec fn column(rows: Seq<Seq<u64>>, j: int) -> Seq<u64> {
    rows.map_values(|r: Seq<u64>| r[j])
}

/// The sum of column `j` over all rows.
pub open spec fn col_sum(rows: Seq<Seq<u64>>, j: int) -> int
    decreases rows.len(),
{
    if rows.len() == 0 {
        0
    } else {
        col_sum(rows.drop_last(), j) + rows.last()[j]
    }
}

/// Every row has `w` values.
pub open spec fn has_width(rows: Seq<Seq<u64>>, w: int) -> bool {
    forall|i: int| 0 <= i < rows.len() ==> #[trigger] rows[i].len() == w
}

/// The rows of `rows` that `idx` lists, in the order in which it lists them.
pub open spec fn pick<T>(rows: Seq<T>, idx: Seq<usize>) -> Seq<T> {
    idx.map_values(|i: usize| rows[i as int])
}

proof fn lemma_col_sum_bound(rows: Seq<Seq<u64>>, j: int)
    ensures
        0 <= col_sum(rows, j) <= rows.len() * u64::MAX,
    decreases rows.len(),
{
    if rows.len() > 0 {
        lemma_col_sum_bound(rows.drop_last(), j);
        assert((rows.len() - 1) * u64::MAX + u64::MAX == rows.len() * u64::MAX) by (nonlinear_arith);
    }
}

impl MetricTable {
    /// A table with no rows, of `width` columns.
    pub fn empty(width: usize) -> (r: MetricTable)
        requires
            width <= isize::MAX,
        ensures
            r@.len() == 0,
    {
        no_rows(width)
    }

    /// The number of rows.
    pub fn len(&self) -> (r: usize)
        ensures
            r == self@.len(),
    {
        nrows(self)
    }

    /// Row `i`.
    pub fn row(&self, i: usize) -> (r: Vec<u64>)
        requires
            i < self@.len(),
        ensures
            r@ == self@[i as int],
    {
        let w = ncols(self);
        let mut r: Vec<u64> = Vec::new();
        let mut j: usize = 0;
        while j < w
            invariant
                i < self@.len(),
                w == self@[i as int].len(),
                j <= w,
                r@ == self@[i as int].take(j as int),
            decreases w - j,
        {
            r.push(cell(self, i, j));
            j = j + 1;
            assert(r@ =~= self@[i as int].take(j as int));
        }
        assert(self@[i as int].take(w as int) =~= self@[i as int]);
        r
    }

    /// Column `j`, top to bottom.
    pub fn column(&self, j: usize) -> (r: Vec<u64>)
        requires
            forall|i: int| 0 <= i < self@.len() ==> j < #[trigger] self@[i].len(),
        ensures
            r@ == column(self@, j as int),
    {
        let n = nrows(self);
        let mut r: Vec<u64> = Vec::new();
        let mut i: usize = 0;
        while i < n
            invariant
                n == self@.len(),
                i <= n,
                forall|k: int| 0 <= k < self@.len() ==> j < #[trigger] self@[k].len(),
                r@ == column(self@, j as int).take(i as int),
            decreases n - i,
        {
            r.push(cell(self, i, j));
            i = i + 1;
            assert(r@ =~= column(self@, j as int).take(i as int));
        }
        assert(column(self@, j as int).take(n as int) =~= column(self@, j as int));
        r
    }

    /// The sum of each of the first `w` columns over all rows.
    pub fn column_totals(&self, w: usize) -> (r: Vec<u128>)
        requires
            has_width(self@, w as int),
            self@.len() <= isize::MAX,
        ensures
            r@.len() == w,
            forall|j: int| 0 <= j < w ==> #[trigger] r@[j] == col_sum(self@, j),
    {
        let n = nrows(self);
        let mut totals: Vec<u128> = Vec::new();
        let mut j: usize = 0;
        while j < w
            invariant
                n == self@.len() <= isize::MAX,
                has_width(self@, w as int),
                j <= w,
                totals@.len() == j,
                forall|m: int| 0 <= m < j ==> #[trigger] totals@[m] == col_sum(self@, m),
            decreases w - j,
        {
            let mut sum: u128 = 0;
            let mut i: usize = 0;
            while i < n
                invariant
                    n == self@.len() <= isize::MAX,
                    has_width(self@, w as int),
                    j < w,
                    i <= n,
                    sum == col_sum(self@.take(i as int), j as int),
                decreases n - i,
            {
                let v = cell(self, i, j);
                proof {
                    assert(self@.take(i + 1).drop_last() =~= self@.take(i as int));
                    lemma_col_sum_bound(self@.take(i as int), j as int);
                    assert(i * u64::MAX <= isize::MAX * u64::MAX) by (nonlinear_arith)
                        requires
                            i <= isize::MAX,
                    ;
                }
                sum = sum + v as u128;
                i = i + 1;
            }
            assert(self@.take(n as int) =~= self@);
            totals.push(sum);
            j = j + 1;
        }
        totals
    }
}

/// Stacks rows of equal length into a table. Fails with `MisalignedData` where that
/// cannot be done: no rows, rows of unequal length, or more values than an array holds.
pub fn assemble(rows: &Vec<Vec<u64>>) -> (r: Result<MetricTable, ProfError>)
    ensures
        r is Ok ==> r->Ok_0@ == rows_view(rows@),
        r is Err ==> r == Err::<MetricTable, ProfError>(ProfError::MisalignedData),
        (exists|i: int, k: int|
            0 <= i < rows@.len() && 0 <= k < rows@.len() && #[trigger] rows@[i]@.len()
                != #[trigger] rows@[k]@.len()) ==> r == Err::<MetricTable, ProfError>(
            ProfError::MisalignedData,
        ),
        rows@.len() == 0 ==> r is Err,
        rows@.len() > 0 && has_width(rows_view(rows@), rows@[0]@.len() as int)
            && rows@.len() * rows@[0]@.len() <= isize::MAX ==> r is Ok,
{
    match stack_rows(rows) {
        Ok(t) => {
            proof {
                assert forall|i: int, k: int|
                    0 <= i < rows@.len() && 0 <= k < rows@.len() implies #[trigger] rows@[i]@.len()
                    == #[trigger] rows@[k]@.len() by {
                    assert(rows@[i]@.len() == rows@[0]@.len());
                    assert(rows@[k]@.len() == rows@[0]@.len());
                }
            }
            Ok(t)
        },
        Err(_) => {
            proof {
                if rows@.len() > 0 && has_width(
                    rows_view(rows@),
                    rows@[0]@.len() as int,
                ) {
                    assert forall|i: int| 0 <= i < rows@.len() implies #[trigger] rows@[i]@.len()
                        == rows@[0]@.len() by {
                        assert(rows_view(rows@)[i] == rows@[i]@);
                    }
                }
            }
            Err(ProfError::MisalignedData)
        },
    }
}

/// Puts the rows of a table and their names in the order that `idx` gives, and keeps
/// the first `num` of them: row `i` of the result and name `i` both come from row
/// `idx[i]`, so that each row keeps its name.
pub fn take_rows(table: &MetricTable, names: &Vec<String>, idx: &Vec<usize>, num: usize) -> (r: (
    MetricTable,
    Vec<String>,
))
    requires
        names@.len() == table@.len(),
        forall|i: int| 0 <= i < idx@.len() ==> #[trigger] idx@[i] < table@.len(),
        idx@.len() == table@.len(),
    ensures
        r.0@ == pick(table@, idx@.take(shown_count(num as nat, idx@.len()) as int)),
        string_views(r.1@) == pick(
            string_views(names@),
            idx@.take(shown_count(num as nat, idx@.len()) as int),
        ),
{
    let k = if num < idx.len() {
        num
    } else {
        idx.len()
    };
    let mut sel: Vec<usize> = Vec::new();
    let mut kept: Vec<String> = Vec::new();
    let mut i: usize = 0;
    while i < k
        invariant
            k <= idx@.len() == table@.len() == names@.len(),
            forall|m: int| 0 <= m < idx@.len() ==> #[trigger] idx@[m] < table@.len(),
            i <= k,
            sel@ == idx@.take(i as int),
            string_views(kept@) == pick(string_views(names@), idx@.take(i as int)),
        decreases k - i,
    {
        let j = idx[i];
        sel.push(j);
        let name = names[j].clone();
        let ghost before = string_views(kept@);
        kept.push(name);
        proof {
            assert(string_views(kept@) =~= before.push(names@[j as int]@));
            assert(idx@.take(i + 1) =~= idx@.take(i as int).push(j));
            assert(pick(string_views(names@), idx@.take(i + 1)) =~= pick(
                string_views(names@),
                idx@.take(i as int),
            ).push(string_views(names@)[j as int]));
        }
        i = i + 1;
        assert(sel@ =~= idx@.take(i as int));
        assert(string_views(kept@) =~= pick(string_views(names@), idx@.take(i as int)));
    }
    let data = select_rows(table, &sel);
    (data, kept)
}

} // verus!
