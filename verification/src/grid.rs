use crate::grid_geometry::{lemma_index_in_range, lemma_small_board_indexable, GridGeometry};
use vstd::prelude::*;

verus! {

/// What a cell of the board holds.
#[derive(Debug, Clone, Copy, PartialEq, Eq, Structural)]
pub enum GridCell {
    Empty,
    Wall,
    Food,
}

/// A position on the board; `x` grows to the right and `y` downwards.
#[derive(Debug, Clone, Copy, PartialEq, Eq, Hash, Structural)]
pub struct Point {
    pub x: i32,
    pub y: i32,
}

impl Point {
    pub fn new(x: i32, y: i32) -> (point: Point)
        ensures
            point.x == x,
            point.y == y,
    {
        Point { x, y }
    }
}

/// A board of cells laid out row by row.
pub struct Grid {
    grid_geometry: GridGeometry,
    cells: Vec<GridCell>,
}

/// What a grid is, mathematically: its dimensions and its cells in row-major order.
pub struct GridModel {
    pub geometry: GridGeometry,
    pub cells: Seq<GridCell>,
}

impl GridModel {
    /// There is one cell per position on the board, and the board has at most
    /// `i32::MAX` cells.
    pub open spec fn wf(self) -> bool {
        &&& self.cells.len() == self.geometry.cell_count()
        &&& self.geometry.cell_count() <= i32::MAX
    }

    /// The cell at `point`, or `None` off the board.
    pub open spec fn cell(self, point: Point) -> Option<GridCell> {
        if self.geometry.spec_in_bounds(point) {
            Some(self.cells[self.geometry.spec_index(point)])
        } else {
            None
        }
    }

    /// The grid with `cell` put at `at`; unchanged when `at` is off the board.
    pub open spec fn with_cell(self, at: Point, cell: GridCell) -> GridModel {
        if self.geometry.spec_in_bounds(at) {
            GridModel { cells: self.cells.update(self.geometry.spec_index(at), cell), ..self }
        } else {
            self
        }
    }

    /// The grid with the food at `at` cleared; unchanged when no food lies there.
    pub open spec fn without_food(self, at: Point) -> GridModel {
        if self.cell(at) == Some(GridCell::Food) {
            self.with_cell(at, GridCell::Empty)
        } else {
            self
        }
    }
}

/// A point on the outer ring of a board of the given dimensions.
pub open spec fn on_border(width: int, height: int, point: Point) -> bool {
    point.y == 0 || point.y == height - 1 || point.x == 0 || point.x == width - 1
}

/// The cell that a fresh board holds at `point`: a wall on the border, empty inside.
pub open spec fn initial_cell(width: int, height: int, point: Point) -> GridCell {
    if on_border(width, height, point) {
        GridCell::Wall
    } else {
        GridCell::Empty
    }
}

impl View for Grid {
    type V = GridModel;

    closed spec fn view(&self) -> GridModel {
        GridModel { geometry: self.grid_geometry, cells: self.cells@ }
    }
}

impl Grid {
    /// A `width` by `height` board whose border cells are walls and whose inner cells are empty.
    pub fn new(width: i32, height: i32) -> (grid: Grid)
        requires
            0 <= width * height <= i32::MAX,
        ensures
            grid@.wf(),
            grid@.geometry == (GridGeometry { width, height }),
            forall|p: Point|
                #[trigger] grid@.geometry.spec_in_bounds(p) ==> grid@.cell(p) == Some(
                    initial_cell(width as int, height as int, p),
                ),
    {
        proof {
            assert(height * width == width * height) by (nonlinear_arith);
        }
        let mut cells: Vec<GridCell> = Vec::with_capacity((height * width) as usize);
        let geometry = GridGeometry::new(width, height);
        let mut y: i32 = 0;
        while y < height
            invariant
                0 <= y,
                height > 0 ==> y <= height,
                height <= 0 ==> y == 0,
                width > 0 ==> cells@.len() == y * width,
                width <= 0 ==> cells@.len() == 0,
                geometry == (GridGeometry { width, height }),
                forall|p: Point|
                    0 <= p.y < y && 0 <= p.x < width ==> #[trigger] cells@[geometry.spec_index(p)]
                        == initial_cell(width as int, height as int, p),
            decreases height - y,
        {
            let ghost row_start = cells@.len();
            let mut x: i32 = 0;
            while x < width
                invariant
                    0 <= y < height,
                    0 <= x,
                    width > 0 ==> x <= width,
                    width <= 0 ==> x == 0 && row_start == 0,
                    width <= 0 ==> cells@.len() == 0,
                    cells@.len() == row_start + x,
                    width > 0 ==> row_start == y * width,
                    geometry == (GridGeometry { width, height }),
                    forall|p: Point|
                        0 <= p.y < y && 0 <= p.x < width ==> #[trigger] cells@[geometry.spec_index(
                            p,
                        )] == initial_cell(width as int, height as int, p),
                    forall|p: Point|
                        p.y == y && 0 <= p.x < x ==> #[trigger] cells@[geometry.spec_index(p)]
                            == initial_cell(width as int, height as int, p),
                decreases width - x,
            {
                let ghost before = cells@;
                if y == 0 || y == height - 1 || x == 0 || x == width - 1 {
                    cells.push(GridCell::Wall);
                } else {
                    cells.push(GridCell::Empty);
                }
                proof {
                    assert forall|p: Point|
                        0 <= p.y < y && 0 <= p.x < width implies #[trigger] cells@[geometry.spec_index(
                            p,
                        )] == initial_cell(width as int, height as int, p) by {
                        lemma_row_major_before(width as int, p.x as int, p.y as int, y as int);
                        assert(cells@[geometry.spec_index(p)] == before[geometry.spec_index(p)]);
                    }
                    assert forall|p: Point|
                        p.y == y && 0 <= p.x < x + 1 implies #[trigger] cells@[geometry.spec_index(
                            p,
                        )] == initial_cell(width as int, height as int, p) by {
                        if p.x < x {
                            assert(cells@[geometry.spec_index(p)] == before[geometry.spec_index(p)]);
                        }
                    }
                }
                x = x + 1;
            }
            proof {
                if width > 0 {
                    assert((y + 1) * width == y * width + width) by (nonlinear_arith);
                }
            }
            y = y + 1;
        }
        proof {
            if width > 0 && height > 0 {
                assert(height * width == width * height) by (nonlinear_arith);
            }
            if height <= 0 {
                assert(y == 0);
            }
        }
        Grid { cells, grid_geometry: geometry }
    }

    pub fn height(&self) -> (height: i32)
        ensures
            height == self@.geometry.height,
    {
        self.grid_geometry.height()
    }

    pub fn width(&self) -> (width: i32)
        ensures
            width == self@.geometry.width,
    {
        self.grid_geometry.width()
    }

    /// The dimensions of the board.
    pub fn geometry(&self) -> (geometry: GridGeometry)
        ensures
            geometry == self@.geometry,
    {
        self.grid_geometry
    }

    /// The cell at `at`, or `None` when `at` lies outside the board.
    pub fn cell(&self, at: &Point) -> (cell: Option<&GridCell>)
        requires
            self@.wf(),
        ensures
            match cell {
                Some(c) => self@.cell(*at) == Some(*c),
                None => self@.cell(*at) is None,
            },
    {
        proof {
            lemma_small_board_indexable(self.grid_geometry, *at);
        }
        if let Some(idx) = self.grid_geometry.index(at) {
            return Some(&self.cells[idx]);
        }
        None
    }

    /// Puts `cell` at `at`; a point outside the board changes nothing.
    pub fn change_cell(&mut self, at: &Point, cell: GridCell)
        requires
            old(self)@.wf(),
        ensures
            final(self)@.wf(),
            final(self)@ == old(self)@.with_cell(*at, cell),
    {
        proof {
            lemma_small_board_indexable(self.grid_geometry, *at);
        }
        if let Some(idx) = self.grid_geometry.index(at) {
            self.cells.set(idx, cell);
        }
    }

    /// Clears the food at `at`; any other cell, and any point outside the board, is left as it is.
    pub fn on_food_consumed(&mut self, at: &Point)
        requires
            old(self)@.wf(),
        ensures
            final(self)@.wf(),
            final(self)@ == old(self)@.without_food(*at),
    {
        proof {
            lemma_small_board_indexable(self.grid_geometry, *at);
        }
        if let Some(idx) = self.grid_geometry.index(at) {
            if self.cells[idx] == GridCell::Food {
                self.cells.set(idx, GridCell::Empty);
            }
        }
    }

    pub fn in_bounds(&self, point: &Point) -> (inside: bool)
        ensures
            inside == self@.geometry.spec_in_bounds(*point),
    {
        self.grid_geometry.in_bounds(point)
    }
}

/// Reading a cell of the board after writing it gives what was written; every
/// other point reads as before; writing off the board changes nothing.
pub proof fn law_read_after_write(grid: GridModel, at: Point, cell: GridCell, p: Point)
    requires
        grid.wf(),
    ensures
        grid.with_cell(at, cell).wf(),
        grid.with_cell(at, cell).cell(p) == (if p == at && grid.geometry.spec_in_bounds(at) {
            Some(cell)
        } else {
            grid.cell(p)
        }),
{
    if grid.geometry.spec_in_bounds(at) {
        lemma_index_in_range(grid.geometry, at);
    }
    if grid.geometry.spec_in_bounds(p) {
        lemma_index_in_range(grid.geometry, p);
        if grid.geometry.spec_in_bounds(at) && p != at {
            lemma_index_injective(grid.geometry, p, at);
        }
    }
}

/// A second write to the same point replaces the first.
pub proof fn law_last_write_wins(grid: GridModel, at: Point, first: GridCell, second: GridCell)
    requires
        grid.wf(),
    ensures
        grid.with_cell(at, first).with_cell(at, second) == grid.with_cell(at, second),
{
    if grid.geometry.spec_in_bounds(at) {
        lemma_index_in_range(grid.geometry, at);
        assert(grid.with_cell(at, first).with_cell(at, second).cells =~= grid.with_cell(
            at,
            second,
        ).cells);
    }
}

/// Writing back the cell that is already there changes nothing.
pub proof fn law_rewrite_is_noop(grid: GridModel, at: Point)
    requires
        grid.wf(),
        grid.geometry.spec_in_bounds(at),
    ensures
        grid.with_cell(at, grid.cell(at).unwrap()) == grid,
{
    lemma_index_in_range(grid.geometry, at);
    assert(grid.with_cell(at, grid.cell(at).unwrap()).cells =~= grid.cells);
}

/// Consuming food twice at the same point is consuming it once, and leaves no food there.
pub proof fn law_consume_idempotent(grid: GridModel, at: Point)
    requires
        grid.wf(),
    ensures
        grid.without_food(at).without_food(at) == grid.without_food(at),
        grid.without_food(at).cell(at) != Some(GridCell::Food),
{
    law_read_after_write(grid, at, GridCell::Empty, at);
}

/// A cell of an earlier row comes before every cell of row `row`.
proof fn lemma_row_major_before(width: int, x: int, y: int, row: int)
    requires
        0 <= x < width,
        0 <= y < row,
    ensures
        y * width + x < row * width,
{
    assert(y * width + x < row * width) by (nonlinear_arith)
        requires
            0 <= x < width,
            0 <= y < row,
    ;
}

/// Two different points of the board have different positions.
pub proof fn lemma_index_injective(geometry: GridGeometry, p: Point, q: Point)
    requires
        geometry.spec_in_bounds(p),
        geometry.spec_in_bounds(q),
        p != q,
    ensures
        geometry.spec_index(p) != geometry.spec_index(q),
{
    let w = geometry.width as int;
    if p.y == q.y {
    } else if p.y < q.y {
        lemma_row_major_before(w, p.x as int, p.y as int, q.y as int);
        assert(q.y * w <= q.y * w + q.x);
    } else {
        lemma_row_major_before(w, q.x as int, q.y as int, p.y as int);
        assert(p.y * w <= p.y * w + p.x);
    }
}

} // verus!
