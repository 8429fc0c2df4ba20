//! Boolean occupancy grids, held in `array2d::Array2D<bool>`.
use vstd::prelude::*;
use array2d::Array2D;

verus! {

/// `array2d::Array2D`, a fixed-size two-dimensional array, held opaque.
#[verifier::external_type_specification]
#[verifier::external_body]
#[verifier::reject_recursive_types(T)]
pub struct ExArray2D<T: Clone>(Array2D<T>);

/// The cells of an occupancy grid, row by row: `array_rows(a)[row][column]`.
pub uninterp spec fn array_rows(a: Array2D<bool>) -> Seq<Seq<bool>>;

/// All rows of `rows` have the same length.
pub open spec fn rows_rectangular(rows: Seq<Seq<bool>>) -> bool {
    forall|i: int| 0 <= i < rows.len() ==> #[trigger] rows[i].len() == rows[0].len()
}

/// Relies on `Array2D::from_rows`: the array holds the given rows, in order;
/// it panics when they differ in length.
#[verifier::external_body]
pub(crate) fn grid_from_rows(rows: &Vec<Vec<bool>>) -> (a: Array2D<bool>)
    requires
        rows_rectangular(rows@.map_values(|v: Vec<bool>| v@)),
    ensures
        array_rows(a) == rows@.map_values(|v: Vec<bool>| v@),
{
    Array2D::from_rows(rows)
}

/// Relies on `Array2D::num_rows`.
#[verifier::external_body]
pub(crate) fn grid_num_rows(a: &Array2D<bool>) -> (n: usize)
    ensures
        n == array_rows(*a).len(),
{
    a.num_rows()
}

/// Relies on `Array2D::num_columns`: every row holds that many cells.
#[verifier::external_body]
pub(crate) fn grid_num_columns(a: &Array2D<bool>) -> (n: usize)
    ensures
        forall|i: int| 0 <= i < array_rows(*a).len() ==> #[trigger] array_rows(*a)[i].len() == n,
{
    a.num_columns()
}

/// Relies on indexing `Array2D` by `(row, column)`, which panics out of bounds.
#[verifier::external_body]
pub(crate) fn grid_cell(a: &Array2D<bool>, row: usize, column: usize) -> (c: bool)
    requires
        row < array_rows(*a).len(),
        column < array_rows(*a)[row as int].len(),
    ensures
        c == array_rows(*a)[row as int][column as int],
{
    a[(row, column)]
}

} // verus!
