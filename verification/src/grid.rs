use vstd::prelude::*;
use crate::card::Card;
use ndarray::Array2;

verus! {

/// The face-up cards of a board: a two-dimensional array whose cells each
/// hold a card or nothing. The array itself is kept by `ndarray`; the
/// library reads and writes it through the four functions below and reasons
/// about it through `grid_rows`.
#[verifier::external_body]
pub struct Grid {
    cells: Array2<Option<Card>>,
}

/// What a grid holds: its rows from first to last, each row its cells from
/// first to last.
pub uninterp spec fn grid_rows(grid: Grid) -> Seq<Seq<Option<Card>>>;

/// Calls `ndarray::ArrayBase::default` with the shape `(rows, columns)`:
/// `rows` rows of `columns` cells, every cell the default of
/// `Option<Card>`, which is `None`. The call panics where the number of
/// cells overflows `isize`; the bounds asked for here stay far below that.
#[verifier::external_body]
pub(crate) fn grid_new(rows: usize, columns: usize) -> (grid: Grid)
    requires
        rows <= 1024,
        columns <= 1024,
    ensures
        grid_rows(grid) == Seq::new(
            rows as nat,
            |r: int| Seq::new(columns as nat, |c: int| None::<Card>),
        ),
{
    Grid { cells: Array2::default((rows, columns)) }
}

/// Calls `ndarray::ArrayBase::get` with the index `(x, y)`: the cell at row
/// `x` and column `y`, or `None` where the index is out of bounds.
#[verifier::external_body]
pub(crate) fn grid_get(grid: &Grid, x: usize, y: usize) -> (found: Option<&Option<Card>>)
    ensures
        x < grid_rows(*grid).len() && y < grid_rows(*grid)[x as int].len() ==> found == Some(
            &grid_rows(*grid)[x as int][y as int],
        ),
        !(x < grid_rows(*grid).len() && y < grid_rows(*grid)[x as int].len()) ==> found.is_none(),
{
    grid.cells.get((x, y))
}

/// Writes through `ndarray::ArrayBase::index_mut` with the index `[x, y]`,
/// which panics out of bounds: the cell at row `x` and column `y` becomes
/// `cell`, every other cell stays.
#[verifier::external_body]
pub(crate) fn grid_set(grid: &mut Grid, x: usize, y: usize, cell: Option<Card>)
    requires
        x < grid_rows(*old(grid)).len(),
        y < grid_rows(*old(grid))[x as int].len(),
    ensures
        grid_rows(*final(grid)) == grid_rows(*old(grid)).update(
            x as int,
            grid_rows(*old(grid))[x as int].update(y as int, cell),
        ),
{
    grid.cells[[x, y]] = cell;
}

/// Calls `clone` of `ndarray::ArrayBase`: an array of the same shape with
/// the same cells.
#[verifier::external_body]
pub(crate) fn grid_clone(grid: &Grid) -> (copy: Grid)
    ensures
        grid_rows(copy) == grid_rows(*grid),
{
    Grid { cells: grid.cells.clone() }
}

} // verus!
