//! The grid as a mathematical value: a map from positions to cells.

use vstd::prelude::*;

use crate::cell::Cell;
use crate::geometry::Point;

verus! {

/// The cells of the grid by position. A grid that stands for a game holds
/// exactly the positions that are [`Point::valid`].
pub type Grid = Map<Point, Cell>;

/// The grid holds a cell for every position on the grid and for no other.
pub open spec fn whole(grid: Grid) -> bool {
    forall|p: Point| grid.dom().contains(p) <==> p.valid()
}

} // verus!
