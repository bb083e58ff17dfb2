use crate::grid::Point;
use vstd::prelude::*;

verus! {

/// The dimensions of a rectangular board whose cells are numbered row by row.
#[derive(Clone, Copy, Debug)]
pub struct GridGeometry {
    pub width: i32,
    pub height: i32,
}

impl GridGeometry {
    /// A point lies on the board: both coordinates are non-negative and below the dimensions.
    pub open spec fn spec_in_bounds(self, point: Point) -> bool {
        &&& 0 <= point.x < self.width
        &&& 0 <= point.y < self.height
    }

    /// The row-major position of a point on the board.
    pub open spec fn spec_index(self, point: Point) -> int {
        point.y * self.width + point.x
    }

    /// How many cells the board has: `width * height` when both are positive, else none.
    pub open spec fn cell_count(self) -> int {
        if self.width > 0 && self.height > 0 {
            self.width * self.height
        } else {
            0
        }
    }

    pub fn new(width: i32, height: i32) -> (geometry: GridGeometry)
        ensures
            geometry.width == width,
            geometry.height == height,
    {
        GridGeometry { width, height }
    }

    pub fn height(&self) -> (height: i32)
        ensures
            height == self.height,
    {
        self.height
    }

    pub fn width(&self) -> (width: i32)
        ensures
            width == self.width,
    {
        self.width
    }

    /// The row-major position of `point`, or `None` when it lies outside the board.
    pub fn index(&self, point: &Point) -> (index: Option<usize>)
        requires
            self.spec_in_bounds(*point) ==> self.spec_index(*point) <= usize::MAX,
        ensures
            index is Some <==> self.spec_in_bounds(*point),
            index matches Some(i) ==> i == self.spec_index(*point) && i < self.cell_count(),
    {
        if !self.in_bounds(point) {
            return None;
        }
        proof {
            lemma_index_in_range(*self, *point);
        }
        let y = point.y as usize;
        let x = point.x as usize;
        let w = self.width as usize;
        assert(y * w <= y * w + x);
        Some(y * w + x)
    }

    pub fn in_bounds(&self, point: &Point) -> (inside: bool)
        ensures
            inside == self.spec_in_bounds(*point),
    {
        point.x >= 0 && point.y >= 0 && point.x < self.width && point.y < self.height
    }
}

/// On a board of at most `i32::MAX` cells the position of every point can be computed.
pub proof fn lemma_small_board_indexable(geometry: GridGeometry, point: Point)
    requires
        geometry.cell_count() <= i32::MAX,
    ensures
        geometry.spec_in_bounds(point) ==> geometry.spec_index(point) < geometry.cell_count(),
{
    if geometry.spec_in_bounds(point) {
        lemma_index_in_range(geometry, point);
    }
}

/// The position of a point on the board lies in `0..cell_count()`.
pub proof fn lemma_index_in_range(geometry: GridGeometry, point: Point)
    requires
        geometry.spec_in_bounds(point),
    ensures
        0 <= geometry.spec_index(point) < geometry.cell_count(),
{
    let w = geometry.width as int;
    let h = geometry.height as int;
    let x = point.x as int;
    let y = point.y as int;
    assert(0 <= y * w + x < h * w) by (nonlinear_arith)
        requires
            0 <= x < w,
            0 <= y < h,
    ;
    assert(h * w == w * h) by (nonlinear_arith);
}

} // verus!
