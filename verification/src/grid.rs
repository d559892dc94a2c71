use vstd::prelude::*;

verus! {

/// A two-dimensional table of optional fact numbers, stored in an
/// `ndarray::Array2`. Rows are positions, columns are activations.
///
/// The array itself is invisible to the verifier; everything that is known
/// about it is stated through [`grid_shape`] and [`grid_cells`].
#[verifier::external_body]
pub struct FactGrid {
    cells: ndarray::Array2<Option<usize>>,
}

/// The number of rows and columns the grid was made with.
pub uninterp spec fn grid_shape(g: &FactGrid) -> (nat, nat);

/// The contents of the grid, row by row.
pub uninterp spec fn grid_cells(g: &FactGrid) -> Seq<Seq<Option<usize>>>;

/// Calls `ndarray::Array2::from_elem` with the element `None`: every cell of
/// the new array is empty and its shape is the one asked for. `from_elem`
/// panics when the number of cells does not fit in `isize`, which the bound
/// on the two lengths rules out: it allows sixteen million cells at most.
#[verifier::external_body]
pub(crate) fn grid_new(rows: usize, cols: usize) -> (g: FactGrid)
    requires
        rows <= 4096,
        cols <= 4096,
    ensures
        grid_shape(&g) == (rows as nat, cols as nat),
        grid_cells(&g) == Seq::new(rows as nat, |r: int| Seq::new(cols as nat, |c: int| None::<usize>)),
{
    FactGrid { cells: ndarray::Array2::from_elem((rows, cols), None) }
}

/// Calls `ArrayBase::nrows`, the length of axis 0.
#[verifier::external_body]
pub(crate) fn grid_rows(g: &FactGrid) -> (n: usize)
    ensures
        n == grid_shape(g).0,
{
    g.cells.nrows()
}

/// Calls `ArrayBase::ncols`, the length of axis 1.
#[verifier::external_body]
pub(crate) fn grid_cols(g: &FactGrid) -> (n: usize)
    ensures
        n == grid_shape(g).1,
{
    g.cells.ncols()
}

/// Reads one cell through the array's `Index<[usize; 2]>` impl, which panics
/// on an index outside the shape.
#[verifier::external_body]
pub(crate) fn grid_get(g: &FactGrid, row: usize, col: usize) -> (cell: Option<usize>)
    requires
        row < grid_shape(g).0,
        col < grid_shape(g).1,
    ensures
        cell == grid_cells(g)[row as int][col as int],
{
    g.cells[[row, col]]
}

/// Writes one cell through the array's `IndexMut<[usize; 2]>` impl, which
/// panics on an index outside the shape. No other cell changes, nor does the
/// shape.
#[verifier::external_body]
pub(crate) fn grid_set(g: &mut FactGrid, row: usize, col: usize, value: Option<usize>)
    requires
        row < grid_shape(old(g)).0,
        col < grid_shape(old(g)).1,
    ensures
        grid_shape(final(g)) == grid_shape(old(g)),
        grid_cells(final(g)) == grid_cells(old(g)).update(
            row as int,
            grid_cells(old(g))[row as int].update(col as int, value),
        ),
{
    g.cells[[row, col]] = value;
}

/// Calls `ArrayBase::index_axis` with `Axis(0)` and copies the view out with
/// `to_vec`: the cells of one row, in column order. `index_axis` panics on an
/// index outside the axis.
#[verifier::external_body]
pub(crate) fn grid_row(g: &FactGrid, row: usize) -> (lane: Vec<Option<usize>>)
    requires
        row < grid_shape(g).0,
    ensures
        lane@ == grid_cells(g)[row as int],
{
    g.cells.index_axis(ndarray::Axis(0), row).to_vec()
}

/// Calls `ArrayBase::index_axis` with `Axis(1)` and copies the view out with
/// `to_vec`: the cells of one column, in row order. `index_axis` panics on an
/// index outside the axis.
#[verifier::external_body]
pub(crate) fn grid_column(g: &FactGrid, col: usize) -> (lane: Vec<Option<usize>>)
    requires
        col < grid_shape(g).1,
    ensures
        lane@ == Seq::new(grid_shape(g).0, |r: int| grid_cells(g)[r][col as int]),
{
    g.cells.index_axis(ndarray::Axis(1), col).to_vec()
}

/// Calls the array's `Clone` impl, which copies shape and elements.
#[verifier::external_body]
pub(crate) fn grid_clone(g: &FactGrid) -> (copy: FactGrid)
    ensures
        grid_shape(&copy) == grid_shape(g),
        grid_cells(&copy) == grid_cells(g),
{
    FactGrid { cells: g.cells.clone() }
}

} // verus!
