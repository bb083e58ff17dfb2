use crate::ansi::{
    cursor_bytes, decimal, push_cursor, push_decimal, push_str, BG_BRIGHT_BLACK, BG_GREEN, BG_RED,
    CLEAR_SCREEN, CSI, CURSOR_END, CURSOR_SEPARATOR, FG_BRIGHT_BLACK, FG_DIM, FG_GREEN, FG_RED, FULL_BLOCK, LOWER_HALF_BLOCK, RESET,
    SCORE_LABEL, SPACE, UPPER_HALF_BLOCK,
};
use crate::game::{Game, GameModel};
use crate::grid::{Grid, GridCell, GridModel, Point};
use crate::snake::{Snake, SnakeModel};
use vstd::prelude::*;
use vstd::string::StringSliceAdditionalSpecFns;

verus! {

/// Terminal rows and columns are counted from one; frame rows and columns from zero.
pub const X_OFFSET: usize = 1;

pub const Y_OFFSET: usize = 1;

/// The score line above the board.
pub const HEADER_SIZE: usize = 1;

/// Board rows per terminal row: each terminal cell shows an upper and a lower half.
pub const SCALE: i32 = 2;

/// What a board cell looks like on screen.
#[derive(Debug, Clone, Copy, PartialEq, Eq, Structural)]
pub enum RenderCell {
    Empty,
    Food,
    Wall,
    Snake,
}

/// A terminal cell: the board cells of its upper and its lower half.
#[derive(Debug, Clone, Copy, PartialEq, Eq, Structural)]
pub struct TerminalCell {
    pub top: RenderCell,
    pub bottom: RenderCell,
}

/// The foreground and background sequences of a colour.
#[derive(Debug, PartialEq)]
pub struct Color {
    pub fg: &'static str,
    pub bg: &'static str,
}

/// The colour of a board cell on screen; empty cells have none.
pub open spec fn spec_color(cell: RenderCell) -> Option<Color> {
    match cell {
        RenderCell::Empty => None,
        RenderCell::Food => Some(Color { fg: FG_RED, bg: BG_RED }),
        RenderCell::Wall => Some(Color { fg: FG_BRIGHT_BLACK, bg: BG_BRIGHT_BLACK }),
        RenderCell::Snake => Some(Color { fg: FG_GREEN, bg: BG_GREEN }),
    }
}

/// The bytes that draw a terminal cell: a blank, an upper or lower half block in
/// the colour of the one coloured half, a full block when both halves have the
/// same colour, else an upper half block over the lower half's background.
pub open spec fn cell_bytes(cell: TerminalCell) -> Seq<u8> {
    match (spec_color(cell.top), spec_color(cell.bottom)) {
        (None, None) => SPACE.spec_bytes(),
        (None, Some(bottom)) => bottom.fg.spec_bytes() + LOWER_HALF_BLOCK.spec_bytes()
            + RESET.spec_bytes(),
        (Some(top), None) => top.fg.spec_bytes() + UPPER_HALF_BLOCK.spec_bytes()
            + RESET.spec_bytes(),
        (Some(top), Some(bottom)) => if top == bottom {
            top.fg.spec_bytes() + FULL_BLOCK.spec_bytes() + RESET.spec_bytes()
        } else {
            top.fg.spec_bytes() + bottom.bg.spec_bytes() + UPPER_HALF_BLOCK.spec_bytes()
                + RESET.spec_bytes()
        },
    }
}

/// A glyph that fills a terminal cell.
pub enum Glyph {
    UpperHalf,
    LowerHalf,
    Full,
    Blank,
}

/// The UTF-8 bytes of a glyph.
pub open spec fn glyph_bytes(glyph: Glyph) -> Seq<u8> {
    match glyph {
        Glyph::UpperHalf => UPPER_HALF_BLOCK.spec_bytes(),
        Glyph::LowerHalf => LOWER_HALF_BLOCK.spec_bytes(),
        Glyph::Full => FULL_BLOCK.spec_bytes(),
        Glyph::Blank => SPACE.spec_bytes(),
    }
}

/// The colours that a glyph shows in the upper and the lower half of its cell,
/// drawn in the foreground `fg` over the background `bg` (`None` is the
/// terminal's own): the upper half block paints the upper half in the foreground
/// and leaves the lower half to the background, the lower half block does the
/// reverse, the full block paints both halves, and a blank shows the background.
pub open spec fn painted(glyph: Glyph, fg: Option<Color>, bg: Option<Color>) -> (
    Option<Color>,
    Option<Color>,
) {
    match glyph {
        Glyph::UpperHalf => (fg, bg),
        Glyph::LowerHalf => (bg, fg),
        Glyph::Full => (fg, fg),
        Glyph::Blank => (bg, bg),
    }
}

/// The bytes that draw `glyph` in the foreground `fg` over the background `bg`:
/// the colour sequences that are set, the glyph, and a reset if a colour was set.
pub open spec fn styled(glyph: Glyph, fg: Option<Color>, bg: Option<Color>) -> Seq<u8> {
    let fg_part = match fg {
        Some(c) => c.fg.spec_bytes(),
        None => Seq::empty(),
    };
    let bg_part = match bg {
        Some(c) => c.bg.spec_bytes(),
        None => Seq::empty(),
    };
    let reset = if fg is None && bg is None {
        Seq::empty()
    } else {
        RESET.spec_bytes()
    };
    fg_part + bg_part + glyph_bytes(glyph) + reset
}

/// `bytes` draw a glyph in some colours such that the cell shows `upper` in its
/// upper half and `lower` in its lower half.
pub open spec fn shows_halves(bytes: Seq<u8>, upper: Option<Color>, lower: Option<Color>) -> bool {
    exists|glyph: Glyph, fg: Option<Color>, bg: Option<Color>|
        #[trigger] styled(glyph, fg, bg) == bytes && painted(glyph, fg, bg) == (upper, lower)
}

/// The score line: the cursor at the top left, then `Score` dimmed and the score in green.
pub open spec fn header_bytes(score: nat) -> Seq<u8> {
    cursor_bytes(Y_OFFSET as nat, X_OFFSET as nat) + FG_DIM.spec_bytes() + SCORE_LABEL.spec_bytes()
        + RESET.spec_bytes() + SPACE.spec_bytes() + FG_GREEN.spec_bytes() + decimal(score)
        + RESET.spec_bytes()
}

/// How a board cell looks when the board and the snake alone are drawn: the
/// snake covers the grid, and the grid shows its walls and its food.
pub open spec fn board_cell(grid: GridModel, snake: SnakeModel, at: Point) -> RenderCell {
    if snake.occupies(at) {
        RenderCell::Snake
    } else {
        match grid.cell(at) {
            Some(GridCell::Wall) => RenderCell::Wall,
            Some(GridCell::Food) => RenderCell::Food,
            _ => RenderCell::Empty,
        }
    }
}

/// How a board cell of a game looks: the snake first, then the game's food, then the grid.
pub open spec fn game_cell(game: GameModel, at: Point) -> RenderCell {
    if game.snake.occupies(at) {
        RenderCell::Snake
    } else if game.food.contains(at) {
        RenderCell::Food
    } else {
        board_cell(game.grid, game.snake, at)
    }
}

pub open spec fn board_scene(grid: GridModel, snake: SnakeModel) -> spec_fn(Point) -> RenderCell {
    |at: Point| board_cell(grid, snake, at)
}

pub open spec fn game_scene(game: GameModel) -> spec_fn(Point) -> RenderCell {
    |at: Point| game_cell(game, at)
}

/// The row-major position of column `x` of row `y` in a frame `width` wide.
pub open spec fn frame_index(width: int, x: int, y: int) -> int {
    y * width + x
}

/// The number of terminal rows that show `height` board rows; none for a board
/// without rows.
pub open spec fn frame_height(height: int) -> nat {
    if height <= 0 {
        0
    } else {
        ((height + 1) / 2) as nat
    }
}

/// The width of the frame for a board `width` cells wide: the width as a machine size.
pub open spec fn frame_width(width: int) -> nat {
    (width as usize) as nat
}

/// The number of cells of a `width` by `height` board.
pub open spec fn area(width: int, height: int) -> int {
    if width > 0 && height > 0 {
        width * height
    } else {
        0
    }
}

/// A `width` by `height` board can be drawn: its frame height can be computed
/// and its frame fits the machine. A board of negative width can be drawn only
/// when it has no rows to show.
pub open spec fn drawable(width: int, height: int) -> bool {
    &&& -2 <= height < i32::MAX - 1
    &&& (width >= 0 || height <= 0)
    &&& area(width, height) <= i32::MAX
}

/// The terminal cell in column `x` of terminal row `ty`: board rows `2 ty` and,
/// if the board has it, `2 ty + 1`.
pub open spec fn frame_cell(
    scene: spec_fn(Point) -> RenderCell,
    height: int,
    x: int,
    ty: int,
) -> TerminalCell {
    TerminalCell {
        top: scene(Point { x: x as i32, y: (2 * ty) as i32 }),
        bottom: if 2 * ty + 1 < height {
            scene(Point { x: x as i32, y: (2 * ty + 1) as i32 })
        } else {
            RenderCell::Empty
        },
    }
}

/// A frame, mathematically: its dimensions in terminal cells and the cells row by row.
pub struct FrameModel {
    pub width: nat,
    pub height: nat,
    pub cells: Seq<TerminalCell>,
}

impl FrameModel {
    pub open spec fn wf(self) -> bool {
        &&& self.cells.len() == self.width * self.height
        &&& self.width * self.height <= usize::MAX
    }

    /// The frame shows a `width` by `height` board whose cells look as `scene` says.
    pub open spec fn shows(self, scene: spec_fn(Point) -> RenderCell, width: int, height: int) -> bool {
        &&& self.width == frame_width(width)
        &&& self.height == frame_height(height)
        &&& self.cells.len() == self.width * self.height
        &&& forall|x: int, ty: int|
            0 <= x < width && 0 <= ty < self.height ==> #[trigger] self.cells[frame_index(
                width,
                x,
                ty,
            )] == frame_cell(scene, height, x, ty)
    }
}

/// The bytes that redraw the terminal cell in column `x` of row `ty`: nothing when
/// the cell on screen already looks so, else a cursor move and the cell.
pub open spec fn cell_update(
    previous: Option<Seq<TerminalCell>>,
    scene: spec_fn(Point) -> RenderCell,
    width: int,
    height: int,
    x: int,
    ty: int,
) -> Seq<u8> {
    let cell = frame_cell(scene, height, x, ty);
    if previous is None || previous.unwrap()[frame_index(width, x, ty)] != cell {
        cursor_bytes(
            (Y_OFFSET + HEADER_SIZE + ty) as nat,
            (X_OFFSET + x) as nat,
        ) + cell_bytes(cell)
    } else {
        Seq::empty()
    }
}

/// The updates of the first `n` cells of terminal row `ty`, left to right.
pub open spec fn row_updates(
    previous: Option<Seq<TerminalCell>>,
    scene: spec_fn(Point) -> RenderCell,
    width: int,
    height: int,
    ty: int,
    n: nat,
) -> Seq<u8>
    decreases n,
{
    if n == 0 {
        Seq::empty()
    } else {
        row_updates(previous, scene, width, height, ty, (n - 1) as nat) + cell_update(
            previous,
            scene,
            width,
            height,
            n - 1,
            ty,
        )
    }
}

/// The updates of the first `n` terminal rows, top to bottom.
pub open spec fn frame_updates(
    previous: Option<Seq<TerminalCell>>,
    scene: spec_fn(Point) -> RenderCell,
    width: int,
    height: int,
    n: nat,
) -> Seq<u8>
    decreases n,
{
    if n == 0 {
        Seq::empty()
    } else {
        frame_updates(previous, scene, width, height, (n - 1) as nat) + row_updates(
            previous,
            scene,
            width,
            height,
            n - 1,
            width as nat,
        )
    }
}

/// A renderer, mathematically: the frame it may draw into next and the frame on screen.
pub struct RendererModel {
    pub work: Option<FrameModel>,
    pub displayed: Option<FrameModel>,
}

impl RendererModel {
    /// The screen holds a frame of the dimensions of a `width` by `height` board,
    /// so only the cells that change need drawing.
    pub open spec fn keeps_screen(self, width: int, height: int) -> bool {
        self.displayed matches Some(frame) && frame.width == frame_width(width) && frame.height
            == frame_height(height)
    }

    /// The cells on screen that a new frame is compared with, if they can be kept.
    pub open spec fn previous_cells(self, width: int, height: int) -> Option<Seq<TerminalCell>> {
        if self.keeps_screen(width, height) {
            Some(self.displayed.unwrap().cells)
        } else {
            None
        }
    }

    /// The bytes that bring the board on screen to `scene`.
    pub open spec fn grid_bytes(
        self,
        scene: spec_fn(Point) -> RenderCell,
        width: int,
        height: int,
    ) -> Seq<u8> {
        frame_updates(
            self.previous_cells(width, height),
            scene,
            width,
            height,
            frame_height(height),
        )
    }

    /// The bytes of a whole render: a clear when the screen cannot be kept, the
    /// score line, the board's changes, and the cursor parked below the board.
    pub open spec fn render_bytes(
        self,
        scene: spec_fn(Point) -> RenderCell,
        width: int,
        height: int,
        score: nat,
    ) -> Seq<u8> {
        (if self.keeps_screen(width, height) {
            Seq::empty()
        } else {
            CLEAR_SCREEN.spec_bytes()
        }) + header_bytes(score) + self.grid_bytes(scene, width, height) + cursor_bytes(
            (Y_OFFSET + HEADER_SIZE + frame_height(height)) as nat,
            X_OFFSET as nat,
        )
    }

    /// `after` is this renderer once it has drawn `scene`: the new frame is on
    /// screen, and the frame that was on screen is kept for reuse when its
    /// dimensions fit.
    pub open spec fn drew(
        self,
        after: RendererModel,
        scene: spec_fn(Point) -> RenderCell,
        width: int,
        height: int,
    ) -> bool {
        &&& after.displayed matches Some(frame) && frame.shows(scene, width, height)
        &&& after.work == (if self.keeps_screen(width, height) {
            self.displayed
        } else {
            None
        })
    }
}

/// A grid of terminal cells, row by row.
pub struct Frame {
    width: usize,
    height: usize,
    cells: Vec<TerminalCell>,
}

impl View for Frame {
    type V = FrameModel;

    closed spec fn view(&self) -> FrameModel {
        FrameModel { width: self.width as nat, height: self.height as nat, cells: self.cells@ }
    }
}

impl Frame {
    /// A `width` by `height` frame of blank cells.
    pub fn new(width: usize, height: usize) -> (frame: Frame)
        requires
            width * height <= usize::MAX,
        ensures
            frame@.wf(),
            frame@.width == width,
            frame@.height == height,
            forall|i: int| 0 <= i < width * height ==> #[trigger] frame@.cells[i] == (TerminalCell {
                top: RenderCell::Empty,
                bottom: RenderCell::Empty,
            }),
    {
        let count = width * height;
        let mut cells: Vec<TerminalCell> = Vec::new();
        let mut i: usize = 0;
        while i < count
            invariant
                i <= count,
                cells@.len() == i,
                forall|j: int| 0 <= j < i ==> #[trigger] cells@[j] == (TerminalCell {
                    top: RenderCell::Empty,
                    bottom: RenderCell::Empty,
                }),
            decreases count - i,
        {
            cells.push(TerminalCell::empty());
            i = i + 1;
        }
        Frame { width, height, cells }
    }

    fn index(&self, x: usize, y: usize) -> (index: usize)
        requires
            self@.wf(),
            x < self.width,
            y < self.height,
        ensures
            index == frame_index(self.width as int, x as int, y as int),
            index < self@.cells.len(),
    {
        proof {
            lemma_frame_index_in_range(self.width as int, self.height as int, x as int, y as int);
        }
        self.width * y + x
    }

    pub fn has_dimensions(&self, width: usize, height: usize) -> (same: bool)
        ensures
            same == (self@.width == width && self@.height == height),
    {
        self.height == height && self.width == width
    }

    /// The cell in column `x` of row `y`.
    pub fn get(&self, x: usize, y: usize) -> (cell: &TerminalCell)
        requires
            self@.wf(),
            x < self@.width,
            y < self@.height,
        ensures
            *cell == self@.cells[frame_index(self@.width as int, x as int, y as int)],
    {
        &self.cells[self.index(x, y)]
    }

    /// Puts `cell` in column `x` of row `y`.
    pub fn set(&mut self, x: usize, y: usize, cell: TerminalCell)
        requires
            old(self)@.wf(),
            x < old(self)@.width,
            y < old(self)@.height,
        ensures
            final(self)@ == (FrameModel {
                cells: old(self)@.cells.update(
                    frame_index(old(self)@.width as int, x as int, y as int),
                    cell,
                ),
                ..old(self)@
            }),
    {
        let idx = self.index(x, y);
        self.cells.set(idx, cell);
    }
}

impl TerminalCell {
    pub fn new(top: RenderCell, bottom: RenderCell) -> (cell: TerminalCell)
        ensures
            cell == (TerminalCell { top, bottom }),
    {
        TerminalCell { top, bottom }
    }

    pub fn empty() -> (cell: TerminalCell)
        ensures
            cell == (TerminalCell { top: RenderCell::Empty, bottom: RenderCell::Empty }),
    {
        TerminalCell { top: RenderCell::Empty, bottom: RenderCell::Empty }
    }
}

impl RenderCell {
    /// How the cell at `at` looks when the board and the snake are drawn.
    pub fn new(grid: &Grid, snake: &Snake, at: &Point) -> (cell: RenderCell)
        requires
            grid@.wf(),
            snake.wf(),
        ensures
            cell == board_cell(grid@, snake@, *at),
    {
        if snake.occupies(at) {
            return RenderCell::Snake;
        }
        if let Some(cell) = grid.cell(at) {
            return match cell {
                GridCell::Wall => RenderCell::Wall,
                GridCell::Food => RenderCell::Food,
                _ => RenderCell::Empty,
            };
        }
        RenderCell::Empty
    }

    /// How the cell at `at` of a game looks.
    pub fn in_game(game: &Game, at: &Point) -> (cell: RenderCell)
        requires
            game.wf(),
        ensures
            cell == game_cell(game@, *at),
    {
        if game.snake_at(at) {
            return RenderCell::Snake;
        }
        if game.food_at(at) {
            return RenderCell::Food;
        }
        RenderCell::new(game.grid(), game.snake(), at)
    }

    pub fn to_color(&self) -> (color: Option<Color>)
        ensures
            color == spec_color(*self),
    {
        match self {
            RenderCell::Empty => None,
            RenderCell::Food => Some(Color { fg: FG_RED, bg: BG_RED }),
            RenderCell::Wall => Some(Color { fg: FG_BRIGHT_BLACK, bg: BG_BRIGHT_BLACK }),
            RenderCell::Snake => Some(Color { fg: FG_GREEN, bg: BG_GREEN }),
        }
    }
}

/// Draws a board to a terminal as a frame of half-block cells below a score
/// line, redrawing only the cells that changed since the last frame.
pub struct Renderer {
    work_frame: Option<Frame>,
    displayed_frame: Option<Frame>,
}

impl View for Renderer {
    type V = RendererModel;

    closed spec fn view(&self) -> RendererModel {
        RendererModel {
            work: match &self.work_frame {
                Some(frame) => Some(frame@),
                None => None,
            },
            displayed: match &self.displayed_frame {
                Some(frame) => Some(frame@),
                None => None,
            },
        }
    }
}

impl Renderer {
    /// The frames are consistent, and a frame kept for reuse has the dimensions
    /// of the frame on screen.
    pub open spec fn wf(&self) -> bool {
        &&& self@.displayed matches Some(frame) ==> frame.wf()
        &&& self@.work matches Some(frame) ==> {
            &&& frame.wf()
            &&& self@.displayed matches Some(shown) && shown.width == frame.width && shown.height
                == frame.height
        }
    }

    /// A renderer with nothing on screen.
    pub fn new() -> (renderer: Renderer)
        ensures
            renderer.wf(),
            renderer@ == (RendererModel { work: None, displayed: None }),
    {
        Renderer { work_frame: None, displayed_frame: None }
    }

    fn clear(&self, out: &mut Vec<u8>)
        ensures
            final(out)@ == old(out)@ + CLEAR_SCREEN.spec_bytes(),
    {
        push_str(out, CLEAR_SCREEN);
    }

    /// Draws `grid` and `snake` with `score` above them.
    pub fn render_to(&mut self, out: &mut Vec<u8>, grid: &Grid, snake: &Snake, score: usize)
        requires
            old(self).wf(),
            grid@.wf(),
            snake.wf(),
            drawable(grid@.geometry.width as int, grid@.geometry.height as int),
        ensures
            final(self).wf(),
            final(out)@ == old(out)@ + old(self)@.render_bytes(
                board_scene(grid@, snake@),
                grid@.geometry.width as int,
                grid@.geometry.height as int,
                score as nat,
            ),
            old(self)@.drew(
                final(self)@,
                board_scene(grid@, snake@),
                grid@.geometry.width as int,
                grid@.geometry.height as int,
            ),
    {
        let picture = if grid.width() >= 0 && grid.height() >= 0 {
            board_picture(grid, snake)
        } else {
            Vec::new()
        };
        self.render_picture(out, grid.width(), grid.height(), &picture, score, Ghost(board_scene(grid@, snake@)));
    }

    /// Draws a game with `score` above it.
    pub fn render_game_to(&mut self, out: &mut Vec<u8>, game: &Game, score: usize)
        requires
            old(self).wf(),
            game.wf(),
            drawable(game@.grid.geometry.width as int, game@.grid.geometry.height as int),
        ensures
            final(self).wf(),
            final(out)@ == old(out)@ + old(self)@.render_bytes(
                game_scene(game@),
                game@.grid.geometry.width as int,
                game@.grid.geometry.height as int,
                score as nat,
            ),
            old(self)@.drew(
                final(self)@,
                game_scene(game@),
                game@.grid.geometry.width as int,
                game@.grid.geometry.height as int,
            ),
    {
        let grid = game.grid();
        let picture = if grid.width() >= 0 && grid.height() >= 0 {
            game_picture(game)
        } else {
            Vec::new()
        };
        self.render_picture(out, grid.width(), grid.height(), &picture, score, Ghost(game_scene(game@)));
    }

    fn render_picture(
        &mut self,
        out: &mut Vec<u8>,
        width: i32,
        height: i32,
        picture: &Vec<RenderCell>,
        score: usize,
        Ghost(scene): Ghost<spec_fn(Point) -> RenderCell>,
    )
        requires
            old(self).wf(),
            drawable(width as int, height as int),
            pictures(picture@, scene, width as int, height as int),
        ensures
            final(self).wf(),
            final(out)@ == old(out)@ + old(self)@.render_bytes(
                scene,
                width as int,
                height as int,
                score as nat,
            ),
            old(self)@.drew(final(self)@, scene, width as int, height as int),
    {
        let fh = Self::effective_frame_height(height);
        if self.geometry_changed(width as usize, fh) || self.displayed_frame.is_none() {
            self.clear(out);
        }
        self.render_header(out, score);
        self.draw_picture(out, width, height, picture, Ghost(scene));
        let footer_row = Y_OFFSET + HEADER_SIZE + fh;
        self.move_cursor(out, footer_row, X_OFFSET);
        assert(out@ =~= old(out)@ + old(self)@.render_bytes(scene, width as int, height as int, score as nat));
    }

    /// Writes the score line.
    pub fn render_header(&self, out: &mut Vec<u8>, score: usize)
        ensures
            final(out)@ == old(out)@ + header_bytes(score as nat),
    {
        self.move_cursor(out, Y_OFFSET, X_OFFSET);
        push_str(out, FG_DIM);
        push_str(out, SCORE_LABEL);
        push_str(out, RESET);
        push_str(out, SPACE);
        push_str(out, FG_GREEN);
        push_decimal(out, score);
        push_str(out, RESET);
        assert(out@ =~= old(out)@ + header_bytes(score as nat));
    }

    /// Draws the board cells of `grid` and `snake` that differ from the frame on screen.
    pub fn render_grid(&mut self, out: &mut Vec<u8>, snake: &Snake, grid: &Grid)
        requires
            old(self).wf(),
            grid@.wf(),
            snake.wf(),
            drawable(grid@.geometry.width as int, grid@.geometry.height as int),
        ensures
            final(self).wf(),
            final(out)@ == old(out)@ + old(self)@.grid_bytes(
                board_scene(grid@, snake@),
                grid@.geometry.width as int,
                grid@.geometry.height as int,
            ),
            old(self)@.drew(
                final(self)@,
                board_scene(grid@, snake@),
                grid@.geometry.width as int,
                grid@.geometry.height as int,
            ),
    {
        let picture = if grid.width() >= 0 && grid.height() >= 0 {
            board_picture(grid, snake)
        } else {
            Vec::new()
        };
        self.draw_picture(out, grid.width(), grid.height(), &picture, Ghost(board_scene(grid@, snake@)));
    }

    fn draw_picture(
        &mut self,
        out: &mut Vec<u8>,
        width: i32,
        height: i32,
        picture: &Vec<RenderCell>,
        Ghost(scene): Ghost<spec_fn(Point) -> RenderCell>,
    )
        requires
            old(self).wf(),
            drawable(width as int, height as int),
            pictures(picture@, scene, width as int, height as int),
        ensures
            final(self).wf(),
            final(out)@ == old(out)@ + old(self)@.grid_bytes(scene, width as int, height as int),
            old(self)@.drew(final(self)@, scene, width as int, height as int),
    {
        let w = width as usize;
        let fh = Self::effective_frame_height(height);
        proof {
            lemma_frame_fits(width as int, height as int);
            assert(w == frame_width(width as int));
        }
        let ghost previous = old(self)@.previous_cells(width as int, height as int);
        let mut frame = self.prepare_work_frame(w, fh);
        let mut ty: usize = 0;
        while ty < fh
            invariant
                self.wf(),
                self@.work is None,
                self@.displayed == (if old(self)@.keeps_screen(width as int, height as int) {
                    old(self)@.displayed
                } else {
                    None
                }),
                previous == old(self)@.previous_cells(width as int, height as int),
                w == frame_width(width as int),
                fh == frame_height(height as int),
                drawable(width as int, height as int),
                fh > 0 ==> width >= 0 && height > 0 && w == width && width * height <= i32::MAX,
                w * fh <= usize::MAX,
                pictures(picture@, scene, width as int, height as int),
                frame@.wf(),
                frame@.width == w,
                frame@.height == fh,
                ty <= fh,
                forall|x: int, t: int|
                    0 <= x < w && 0 <= t < ty ==> #[trigger] frame@.cells[frame_index(w as int, x, t)]
                        == frame_cell(scene, height as int, x, t),
                out@ == old(out)@ + frame_updates(previous, scene, width as int, height as int, ty as nat),
            decreases fh - ty,
        {
            let ghost row_start = out@;
            proof {
                lemma_frame_rows(width as int, height as int, ty as int);
            }
            let y: i32 = (2 * ty) as i32;
            let mut x: usize = 0;
            while x < w
                invariant
                    self.wf(),
                    self@.work is None,
                    self@.displayed == (if old(self)@.keeps_screen(width as int, height as int) {
                        old(self)@.displayed
                    } else {
                        None
                    }),
                    previous == old(self)@.previous_cells(width as int, height as int),
                    w == width,
                    fh == frame_height(height as int),
                    width >= 0,
                    0 < height < i32::MAX - 1,
                    width * height <= i32::MAX,
                    pictures(picture@, scene, width as int, height as int),
                    frame@.wf(),
                    frame@.width == w,
                    frame@.height == fh,
                    ty < fh,
                    y == 2 * ty,
                    2 * ty < height,
                    x <= w,
                    forall|x2: int, t: int|
                        0 <= x2 < w && 0 <= t < ty ==> #[trigger] frame@.cells[frame_index(w as int, x2, t)]
                            == frame_cell(scene, height as int, x2, t),
                    forall|x2: int|
                        0 <= x2 < x ==> #[trigger] frame@.cells[frame_index(w as int, x2, ty as int)]
                            == frame_cell(scene, height as int, x2, ty as int),
                    row_start == old(out)@ + frame_updates(previous, scene, width as int, height as int, ty as nat),
                    out@ == row_start + row_updates(previous, scene, width as int, height as int, ty as int, x as nat),
                decreases w - x,
            {
                proof {
                    lemma_picture_index(width as int, height as int, x as int, y as int);
                    if y + 1 < height {
                        lemma_picture_index(width as int, height as int, x as int, y + 1);
                    }
                }
                assert(picture@[frame_index(width as int, x as int, y as int)] == scene(Point { x: x as i32, y: y }));
                if y + 1 < height {
                    assert(picture@[frame_index(width as int, x as int, y + 1)] == scene(Point { x: x as i32, y: (y + 1) as i32 }));
                }
                let top = picture[(y as usize) * w + x];
                let bottom = if y + 1 < height {
                    picture[((y + 1) as usize) * w + x]
                } else {
                    RenderCell::Empty
                };
                let ghost frame_before = frame@;
                assert(top == scene(Point { x: x as i32, y: y }));
                assert(y + 1 < height ==> bottom == scene(Point { x: x as i32, y: (y + 1) as i32 }));
                let cell = TerminalCell::new(top, bottom);
                assert(cell == frame_cell(scene, height as int, x as int, ty as int));
                frame.set(x, ty, cell);
                proof {
                    lemma_frame_index_in_range(w as int, fh as int, x as int, ty as int);
                    assert forall|x2: int, t: int|
                        0 <= x2 < w && 0 <= t < ty implies #[trigger] frame@.cells[frame_index(w as int, x2, t)]
                            == frame_cell(scene, height as int, x2, t) by {
                        lemma_frame_index_in_range(w as int, fh as int, x2, t);
                        lemma_frame_index_injective(w as int, x2, t, x as int, ty as int);
                        assert(frame@.cells[frame_index(w as int, x2, t)] == frame_before.cells[frame_index(w as int, x2, t)]);
                    }
                    assert forall|x2: int|
                        0 <= x2 < x + 1 implies #[trigger] frame@.cells[frame_index(w as int, x2, ty as int)]
                            == frame_cell(scene, height as int, x2, ty as int) by {
                        if x2 < x {
                            lemma_frame_index_in_range(w as int, fh as int, x2, ty as int);
                            lemma_frame_index_injective(w as int, x2, ty as int, x as int, ty as int);
                            assert(frame@.cells[frame_index(w as int, x2, ty as int)] == frame_before.cells[frame_index(w as int, x2, ty as int)]);
                        }
                    }
                }
                let changed = match &self.displayed_frame {
                    None => true,
                    Some(shown) => *shown.get(x, ty) != *frame.get(x, ty),
                };
                if changed {
                    self.move_cursor(out, Y_OFFSET + HEADER_SIZE + ty, X_OFFSET + x);
                    self.render_cell(out, frame.get(x, ty));
                }
                assert(out@ =~= row_start + row_updates(previous, scene, width as int, height as int, ty as int, (x + 1) as nat));
                x = x + 1;
            }
            assert(out@ =~= old(out)@ + frame_updates(previous, scene, width as int, height as int, (ty + 1) as nat));
            ty = ty + 1;
        }
        let shown = self.displayed_frame.take();
        self.displayed_frame = Some(frame);
        self.work_frame = shown;
    }

    /// The frame on screen has other dimensions than `width` by `height`.
    fn geometry_changed(&self, width: usize, height: usize) -> (changed: bool)
        ensures
            changed == (self@.displayed matches Some(frame) && !(frame.width == width
                && frame.height == height)),
    {
        match &self.displayed_frame {
            Some(frame) => !frame.has_dimensions(width, height),
            None => false,
        }
    }

    /// Hands out a `width` by `height` frame to draw into: the spare frame when it
    /// fits, else a fresh one. When the dimensions changed, the frame on screen is
    /// dropped so that every cell gets drawn.
    fn prepare_work_frame(&mut self, width: usize, height: usize) -> (frame: Frame)
        requires
            old(self).wf(),
            width * height <= usize::MAX,
        ensures
            final(self).wf(),
            frame@.wf(),
            frame@.width == width,
            frame@.height == height,
            final(self)@.work is None,
            final(self)@.displayed == (if old(self)@.displayed matches Some(shown) && shown.width
                == width && shown.height == height {
                old(self)@.displayed
            } else {
                None
            }),
    {
        let geometry_changed = self.geometry_changed(width, height);
        if geometry_changed {
            self.displayed_frame = None;
        }
        if self.work_frame.is_none() || geometry_changed {
            self.work_frame = Some(Frame::new(width, height));
        }
        match self.work_frame.take() {
            Some(frame) => frame,
            None => Frame::new(width, height),
        }
    }

    /// The number of terminal rows that show `height` board rows.
    fn effective_frame_height(height: i32) -> (rows: usize)
        requires
            -2 <= height < i32::MAX - 1,
        ensures
            rows == frame_height(height as int),
    {
        ((height + SCALE - 1) / SCALE) as usize
    }

    /// Writes one terminal cell.
    fn render_cell(&self, out: &mut Vec<u8>, terminal_cell: &TerminalCell)
        ensures
            final(out)@ == old(out)@ + cell_bytes(*terminal_cell),
    {
        match (terminal_cell.top.to_color(), terminal_cell.bottom.to_color()) {
            (None, None) => {
                push_str(out, SPACE);
            },
            (None, Some(color)) => self.render_bottom_half(out, color.fg),
            (Some(color), None) => self.render_top_half(out, color.fg),
            (Some(fg), Some(bg)) => {
                proof {
                    lemma_colors_tell_cells_apart(terminal_cell.top, terminal_cell.bottom);
                }
                if terminal_cell.top == terminal_cell.bottom {
                    self.render_fullbox(out, fg.fg)
                } else {
                    self.render_halfbox(out, fg.fg, bg.bg)
                }
            },
        }
    }

    fn render_halfbox(&self, out: &mut Vec<u8>, up_color: &str, bottom_color: &str)
        ensures
            final(out)@ == old(out)@ + up_color.spec_bytes() + bottom_color.spec_bytes()
                + UPPER_HALF_BLOCK.spec_bytes() + RESET.spec_bytes(),
    {
        push_str(out, up_color);
        push_str(out, bottom_color);
        push_str(out, UPPER_HALF_BLOCK);
        push_str(out, RESET);
    }

    fn render_top_half(&self, out: &mut Vec<u8>, color: &str)
        ensures
            final(out)@ == old(out)@ + color.spec_bytes() + UPPER_HALF_BLOCK.spec_bytes()
                + RESET.spec_bytes(),
    {
        push_str(out, color);
        push_str(out, UPPER_HALF_BLOCK);
        push_str(out, RESET);
    }

    fn render_bottom_half(&self, out: &mut Vec<u8>, color: &str)
        ensures
            final(out)@ == old(out)@ + color.spec_bytes() + LOWER_HALF_BLOCK.spec_bytes()
                + RESET.spec_bytes(),
    {
        push_str(out, color);
        push_str(out, LOWER_HALF_BLOCK);
        push_str(out, RESET);
    }

    fn render_fullbox(&self, out: &mut Vec<u8>, color: &str)
        ensures
            final(out)@ == old(out)@ + color.spec_bytes() + FULL_BLOCK.spec_bytes()
                + RESET.spec_bytes(),
    {
        push_str(out, color);
        push_str(out, FULL_BLOCK);
        push_str(out, RESET);
    }

    fn move_cursor(&self, out: &mut Vec<u8>, row: usize, col: usize)
        ensures
            final(out)@ == old(out)@ + cursor_bytes(row as nat, col as nat),
    {
        push_cursor(out, row, col);
    }
}

impl Default for Renderer {
    fn default() -> (renderer: Renderer)
        ensures
            renderer.wf(),
            renderer@ == (RendererModel { work: None, displayed: None }),
    {
        Self::new()
    }
}

/// `picture` lists, row by row, how each cell of a `width` by `height` board looks.
pub open spec fn pictures(
    picture: Seq<RenderCell>,
    scene: spec_fn(Point) -> RenderCell,
    width: int,
    height: int,
) -> bool {
    &&& picture.len() == area(width, height)
    &&& forall|x: int, y: int|
        0 <= x < width && 0 <= y < height ==> #[trigger] picture[frame_index(width, x, y)] == scene(
            Point { x: x as i32, y: y as i32 },
        )
}

/// How each cell of the board looks when `grid` and `snake` are drawn, row by row.
fn board_picture(grid: &Grid, snake: &Snake) -> (picture: Vec<RenderCell>)
    requires
        grid@.wf(),
        snake.wf(),
        grid@.geometry.width >= 0,
        grid@.geometry.height >= 0,
    ensures
        pictures(
            picture@,
            board_scene(grid@, snake@),
            grid@.geometry.width as int,
            grid@.geometry.height as int,
        ),
{
    let width = grid.width();
    let height = grid.height();
    let ghost scene = board_scene(grid@, snake@);
    proof {
        lemma_area(width as int, height as int, grid@.geometry.cell_count());
    }
    let mut picture: Vec<RenderCell> = Vec::new();
    let mut y: i32 = 0;
    while y < height
        invariant
            0 <= y <= height,
            width >= 0,
            width == grid@.geometry.width,
            height == grid@.geometry.height,
            grid@.wf(),
            snake.wf(),
            scene == board_scene(grid@, snake@),
            picture@.len() == y * width,
            forall|x: int, y2: int|
                0 <= x < width && 0 <= y2 < y ==> #[trigger] picture@[frame_index(width as int, x, y2)]
                    == scene(Point { x: x as i32, y: y2 as i32 }),
        decreases height - y,
    {
        let mut x: i32 = 0;
        while x < width
            invariant
                0 <= y < height,
                0 <= x <= width,
                width == grid@.geometry.width,
                height == grid@.geometry.height,
                grid@.wf(),
                snake.wf(),
                scene == board_scene(grid@, snake@),
                picture@.len() == y * width + x,
                forall|x2: int, y2: int|
                    0 <= x2 < width && 0 <= y2 < y ==> #[trigger] picture@[frame_index(width as int, x2, y2)]
                        == scene(Point { x: x2 as i32, y: y2 as i32 }),
                forall|x2: int|
                    0 <= x2 < x ==> #[trigger] picture@[frame_index(width as int, x2, y as int)]
                        == scene(Point { x: x2 as i32, y: y }),
            decreases width - x,
        {
            let ghost before = picture@;
            let cell = RenderCell::new(grid, snake, &Point::new(x, y));
            picture.push(cell);
            proof {
                assert forall|x2: int, y2: int|
                    0 <= x2 < width && 0 <= y2 < y implies #[trigger] picture@[frame_index(width as int, x2, y2)]
                        == scene(Point { x: x2 as i32, y: y2 as i32 }) by {
                    lemma_frame_index_in_range(width as int, y as int, x2, y2);
                    assert(picture@[frame_index(width as int, x2, y2)] == before[frame_index(width as int, x2, y2)]);
                }
                assert forall|x2: int|
                    0 <= x2 < x + 1 implies #[trigger] picture@[frame_index(width as int, x2, y as int)]
                        == scene(Point { x: x2 as i32, y: y }) by {
                    if x2 < x {
                        assert(picture@[frame_index(width as int, x2, y as int)] == before[frame_index(width as int, x2, y as int)]);
                    }
                }
            }
            x = x + 1;
        }
        proof {
            assert((y + 1) * width == y * width + width) by (nonlinear_arith);
        }
        y = y + 1;
    }
    proof {
        assert(height * width == area(width as int, height as int)) by (nonlinear_arith)
            requires
                width >= 0,
                height >= 0,
                area(width as int, height as int) == (if width > 0 && height > 0 {
                    width * height
                } else {
                    0
                }),
        ;
    }
    picture
}

/// How each cell of the board of `game` looks, row by row.
fn game_picture(game: &Game) -> (picture: Vec<RenderCell>)
    requires
        game.wf(),
        game@.grid.geometry.width >= 0,
        game@.grid.geometry.height >= 0,
    ensures
        pictures(
            picture@,
            game_scene(game@),
            game@.grid.geometry.width as int,
            game@.grid.geometry.height as int,
        ),
{
    let grid = game.grid();
    let width = grid.width();
    let height = grid.height();
    let ghost scene = game_scene(game@);
    proof {
        lemma_area(width as int, height as int, grid@.geometry.cell_count());
    }
    let mut picture: Vec<RenderCell> = Vec::new();
    let mut y: i32 = 0;
    while y < height
        invariant
            0 <= y <= height,
            width >= 0,
            width == game@.grid.geometry.width,
            height == game@.grid.geometry.height,
            game.wf(),
            scene == game_scene(game@),
            picture@.len() == y * width,
            forall|x: int, y2: int|
                0 <= x < width && 0 <= y2 < y ==> #[trigger] picture@[frame_index(width as int, x, y2)]
                    == scene(Point { x: x as i32, y: y2 as i32 }),
        decreases height - y,
    {
        let mut x: i32 = 0;
        while x < width
            invariant
                0 <= y < height,
                0 <= x <= width,
                width == game@.grid.geometry.width,
                height == game@.grid.geometry.height,
                game.wf(),
                scene == game_scene(game@),
                picture@.len() == y * width + x,
                forall|x2: int, y2: int|
                    0 <= x2 < width && 0 <= y2 < y ==> #[trigger] picture@[frame_index(width as int, x2, y2)]
                        == scene(Point { x: x2 as i32, y: y2 as i32 }),
                forall|x2: int|
                    0 <= x2 < x ==> #[trigger] picture@[frame_index(width as int, x2, y as int)]
                        == scene(Point { x: x2 as i32, y: y }),
            decreases width - x,
        {
            let ghost before = picture@;
            let cell = RenderCell::in_game(game, &Point::new(x, y));
            picture.push(cell);
            proof {
                assert forall|x2: int, y2: int|
                    0 <= x2 < width && 0 <= y2 < y implies #[trigger] picture@[frame_index(width as int, x2, y2)]
                        == scene(Point { x: x2 as i32, y: y2 as i32 }) by {
                    lemma_frame_index_in_range(width as int, y as int, x2, y2);
                    assert(picture@[frame_index(width as int, x2, y2)] == before[frame_index(width as int, x2, y2)]);
                }
                assert forall|x2: int|
                    0 <= x2 < x + 1 implies #[trigger] picture@[frame_index(width as int, x2, y as int)]
                        == scene(Point { x: x2 as i32, y: y }) by {
                    if x2 < x {
                        assert(picture@[frame_index(width as int, x2, y as int)] == before[frame_index(width as int, x2, y as int)]);
                    }
                }
            }
            x = x + 1;
        }
        proof {
            assert((y + 1) * width == y * width + width) by (nonlinear_arith);
        }
        y = y + 1;
    }
    proof {
        assert(height * width == area(width as int, height as int)) by (nonlinear_arith)
            requires
                width >= 0,
                height >= 0,
                area(width as int, height as int) == (if width > 0 && height > 0 {
                    width * height
                } else {
                    0
                }),
        ;
    }
    picture
}

/// Drawing the same board a second time writes only the score line and the
/// cursor move below the board: the screen is kept and no cell is redrawn.
pub proof fn law_redraw_same_scene(
    before: RendererModel,
    after: RendererModel,
    scene: spec_fn(Point) -> RenderCell,
    width: int,
    height: int,
    score: nat,
)
    requires
        before.drew(after, scene, width, height),
        i32::MIN <= width <= i32::MAX,
        drawable(width, height),
    ensures
        after.keeps_screen(width, height),
        after.grid_bytes(scene, width, height) == Seq::<u8>::empty(),
        after.render_bytes(scene, width, height, score) == header_bytes(score) + cursor_bytes(
            (Y_OFFSET + HEADER_SIZE + frame_height(height)) as nat,
            X_OFFSET as nat,
        ),
{
    let frame = after.displayed.unwrap();
    lemma_frame_fits(width, height);
    if frame_height(height) > 0 {
        lemma_frame_updates_unchanged(frame.cells, scene, width, height, frame_height(height));
    }
    assert(after.render_bytes(scene, width, height, score) =~= header_bytes(score) + cursor_bytes(
        (Y_OFFSET + HEADER_SIZE + frame_height(height)) as nat,
        X_OFFSET as nat,
    ));
}

/// A frame that already shows the scene needs no update in its first `n` rows.
proof fn lemma_frame_updates_unchanged(
    cells: Seq<TerminalCell>,
    scene: spec_fn(Point) -> RenderCell,
    width: int,
    height: int,
    n: nat,
)
    requires
        width >= 0,
        n <= frame_height(height),
        forall|x: int, ty: int|
            0 <= x < width && 0 <= ty < frame_height(height) ==> #[trigger] cells[frame_index(
                width,
                x,
                ty,
            )] == frame_cell(scene, height, x, ty),
    ensures
        frame_updates(Some(cells), scene, width, height, n) == Seq::<u8>::empty(),
    decreases n,
{
    if n > 0 {
        lemma_frame_updates_unchanged(cells, scene, width, height, (n - 1) as nat);
        lemma_row_updates_unchanged(cells, scene, width, height, n - 1, width as nat);
        assert(frame_updates(Some(cells), scene, width, height, n) =~= Seq::<u8>::empty());
    }
}

/// A row whose cells already show the scene needs no update in its first `n` columns.
proof fn lemma_row_updates_unchanged(
    cells: Seq<TerminalCell>,
    scene: spec_fn(Point) -> RenderCell,
    width: int,
    height: int,
    ty: int,
    n: nat,
)
    requires
        n <= width,
        0 <= ty < frame_height(height),
        forall|x: int, t: int|
            0 <= x < width && 0 <= t < frame_height(height) ==> #[trigger] cells[frame_index(
                width,
                x,
                t,
            )] == frame_cell(scene, height, x, t),
    ensures
        row_updates(Some(cells), scene, width, height, ty, n) == Seq::<u8>::empty(),
    decreases n,
{
    if n > 0 {
        lemma_row_updates_unchanged(cells, scene, width, height, ty, (n - 1) as nat);
        assert(cells[frame_index(width, n - 1, ty)] == frame_cell(scene, height, n - 1, ty));
        assert(row_updates(Some(cells), scene, width, height, ty, n) =~= Seq::<u8>::empty());
    }
}

/// Two board cells with a colour have the same colour only when they are the same cell.
proof fn lemma_colors_tell_cells_apart(a: RenderCell, b: RenderCell)
    requires
        spec_color(a) is Some,
        spec_color(b) is Some,
    ensures
        spec_color(a) == spec_color(b) <==> a == b,
{
    reveal_strlit("\x1b[31m");
    reveal_strlit("\x1b[32m");
    reveal_strlit("\x1b[90m");
    if a != b && spec_color(a) == spec_color(b) {
        let fa = spec_color(a).unwrap().fg;
        let fb = spec_color(b).unwrap().fg;
        assert(fa@ == fb@);
        assert(fa@[3] != fb@[3] || fa@[4] != fb@[4]);
    }
}

/// A cell of a `width` by `height` frame lies within its `width * height` cells.
proof fn lemma_frame_index_in_range(width: int, height: int, x: int, y: int)
    requires
        0 <= x < width,
        0 <= y < height,
    ensures
        0 <= frame_index(width, x, y) < width * height,
        frame_index(width, x, y) < height * width,
{
    assert(height * width == width * height) by (nonlinear_arith);
    assert(0 <= y * width + x < width * height) by (nonlinear_arith)
        requires
            0 <= x < width,
            0 <= y < height,
    ;
}

/// Two different cells of a frame have different positions.
proof fn lemma_frame_index_injective(width: int, x1: int, y1: int, x2: int, y2: int)
    requires
        0 <= x1 < width,
        0 <= x2 < width,
        0 <= y1,
        0 <= y2,
        x1 != x2 || y1 != y2,
    ensures
        frame_index(width, x1, y1) != frame_index(width, x2, y2),
{
    if y1 < y2 {
        lemma_frame_index_in_range(width, y2, x1, y1);
        assert(y2 * width <= y2 * width + x2);
    } else if y2 < y1 {
        lemma_frame_index_in_range(width, y1, x2, y2);
        assert(y1 * width <= y1 * width + x1);
    }
}

/// The board cells under column `x` of a row of the board lie in the picture.
proof fn lemma_picture_index(width: int, height: int, x: int, y: int)
    requires
        0 <= x < width,
        0 <= y < height,
        width * height <= i32::MAX,
    ensures
        0 <= y * width + x < width * height,
        y * width + x <= i32::MAX,
        y * width <= i32::MAX,
{
    lemma_frame_index_in_range(width, height, x, y);
    assert(y * width <= y * width + x);
}

/// The frame for a drawable board fits the machine, and a frame with rows
/// belongs to a board of non-negative width with rows.
proof fn lemma_frame_fits(width: int, height: int)
    requires
        i32::MIN <= width <= i32::MAX,
        drawable(width, height),
    ensures
        frame_width(width) * frame_height(height) <= usize::MAX,
        frame_height(height) > 0 ==> width >= 0 && height > 0 && frame_width(width) == width
            && width * height <= i32::MAX,
{
    let fh = frame_height(height) as int;
    let fw = frame_width(width) as int;
    if fh == 0 {
        assert(fw * fh == 0) by (nonlinear_arith)
            requires
                fh == 0,
        ;
    } else {
        assert(height > 0);
        assert(width >= 0);
        assert(fw == width);
        assert(2 * fh <= height + 1);
        if width == 0 {
            assert(fw * fh == 0) by (nonlinear_arith)
                requires
                    fw == 0,
            ;
        } else {
            assert(width * height <= i32::MAX);
            assert(width * fh <= width * height) by (nonlinear_arith)
                requires
                    width > 0,
                    fh >= 1,
                    2 * fh <= height + 1,
                    height >= 1,
            ;
        }
        if width == 0 {
            assert(width * height == 0) by (nonlinear_arith)
                requires
                    width == 0,
            ;
        }
    }
}

/// Row `ty` of a frame shows board row `2 ty`, which the board has.
proof fn lemma_frame_rows(width: int, height: int, ty: int)
    requires
        0 <= ty < frame_height(height),
        height >= 0,
    ensures
        2 * ty < height,
{
}

/// A board with at most `i32::MAX` cells, of non-negative dimensions, has a
/// product of dimensions below `i32::MAX`.
proof fn lemma_area(width: int, height: int, count: int)
    requires
        width >= 0,
        height >= 0,
        count == (if width > 0 && height > 0 { width * height } else { 0 }),
        count <= i32::MAX,
    ensures
        width * height <= i32::MAX,
        width * height >= 0,
{
    if width == 0 || height == 0 {
        assert(width * height == 0) by (nonlinear_arith) requires width == 0 || height == 0;
    } else {
        assert(width * height >= 0) by (nonlinear_arith) requires width > 0, height > 0;
    }
}


/// No byte of `bytes` is `J`, the byte that ends the clear sequence.
spec fn without_clear_end(bytes: Seq<u8>) -> bool {
    forall|i: int| 0 <= i < bytes.len() ==> bytes[i] != 74u8
}

/// An ASCII text without `J` encodes to bytes without `J`.
proof fn lemma_ascii_without_clear_end(text: &str)
    requires
        vstd::utf8::is_ascii_chars(text@),
        forall|i: int| 0 <= i < text@.len() ==> text@[i] != 'J',
    ensures
        without_clear_end(text.spec_bytes()),
{
    vstd::utf8::is_ascii_chars_encode_utf8(text@);
    vstd::utf8::is_ascii_chars_nat_bound(text@);
    assert forall|i: int| 0 <= i < text.spec_bytes().len() implies text.spec_bytes()[i] != 74u8 by {
        let c = text@[i];
        assert(c as u8 == text.spec_bytes()[i]);
        assert((c as nat) < 128);
        assert(c != 'J');
    }
}

/// The bytes of a character with a three-byte encoding all have the high bit set.
proof fn lemma_wide_bytes(c: u32)
    by (bit_vector)
    ensures
        vstd::utf8::leading_byte_width_3(c) >= 0x80u8,
        vstd::utf8::second_last_continuation_byte(c) >= 0x80u8,
        vstd::utf8::last_continuation_byte(c) >= 0x80u8,
{
}

/// A one-character text whose character takes three bytes encodes without `J`.
proof fn lemma_glyph_without_clear_end(glyph: &str)
    requires
        glyph@.len() == 1,
        vstd::utf8::has_width_3_encoding(glyph@[0] as u32),
    ensures
        without_clear_end(glyph.spec_bytes()),
{
    let c = glyph@[0] as u32;
    assert(glyph@.drop_first() =~= Seq::<char>::empty());
    assert(vstd::utf8::encode_utf8(glyph@.drop_first()) =~= Seq::<u8>::empty());
    assert(glyph.spec_bytes() == vstd::utf8::encode_scalar(c) + vstd::utf8::encode_utf8(
        glyph@.drop_first(),
    ));
    assert(glyph.spec_bytes() =~= vstd::utf8::encode_scalar(c));
    lemma_wide_bytes(c);
}

/// None of the texts that a render writes, but the clear sequence, holds a `J`.
proof fn lemma_texts_without_clear_end()
    ensures
        without_clear_end(CSI.spec_bytes()),
        without_clear_end(CURSOR_SEPARATOR.spec_bytes()),
        without_clear_end(CURSOR_END.spec_bytes()),
        without_clear_end(FG_DIM.spec_bytes()),
        without_clear_end(SCORE_LABEL.spec_bytes()),
        without_clear_end(RESET.spec_bytes()),
        without_clear_end(SPACE.spec_bytes()),
        without_clear_end(FG_RED.spec_bytes()),
        without_clear_end(FG_GREEN.spec_bytes()),
        without_clear_end(FG_BRIGHT_BLACK.spec_bytes()),
        without_clear_end(BG_RED.spec_bytes()),
        without_clear_end(BG_GREEN.spec_bytes()),
        without_clear_end(BG_BRIGHT_BLACK.spec_bytes()),
        without_clear_end(UPPER_HALF_BLOCK.spec_bytes()),
        without_clear_end(LOWER_HALF_BLOCK.spec_bytes()),
        without_clear_end(FULL_BLOCK.spec_bytes()),
{
    reveal_strlit("\x1B[");
    reveal_strlit(";");
    reveal_strlit("H");
    reveal_strlit("\x1b[2m");
    reveal_strlit("Score");
    reveal_strlit("\x1b[0m");
    reveal_strlit(" ");
    reveal_strlit("\x1b[31m");
    reveal_strlit("\x1b[32m");
    reveal_strlit("\x1b[90m");
    reveal_strlit("\x1b[41m");
    reveal_strlit("\x1b[42m");
    reveal_strlit("\x1b[100m");
    reveal_strlit("▀");
    reveal_strlit("▄");
    reveal_strlit("█");
    lemma_ascii_without_clear_end(CSI);
    lemma_ascii_without_clear_end(CURSOR_SEPARATOR);
    lemma_ascii_without_clear_end(CURSOR_END);
    lemma_ascii_without_clear_end(FG_DIM);
    lemma_ascii_without_clear_end(SCORE_LABEL);
    lemma_ascii_without_clear_end(RESET);
    lemma_ascii_without_clear_end(SPACE);
    lemma_ascii_without_clear_end(FG_RED);
    lemma_ascii_without_clear_end(FG_GREEN);
    lemma_ascii_without_clear_end(FG_BRIGHT_BLACK);
    lemma_ascii_without_clear_end(BG_RED);
    lemma_ascii_without_clear_end(BG_GREEN);
    lemma_ascii_without_clear_end(BG_BRIGHT_BLACK);
    lemma_glyph_without_clear_end(UPPER_HALF_BLOCK);
    lemma_glyph_without_clear_end(LOWER_HALF_BLOCK);
    lemma_glyph_without_clear_end(FULL_BLOCK);
}

/// Two byte sequences without `J` join into one without `J`.
proof fn lemma_join_without_clear_end(a: Seq<u8>, b: Seq<u8>)
    requires
        without_clear_end(a),
        without_clear_end(b),
    ensures
        without_clear_end(a + b),
{
    assert forall|i: int| 0 <= i < (a + b).len() implies (a + b)[i] != 74u8 by {
        if i < a.len() {
            assert((a + b)[i] == a[i]);
        } else {
            assert((a + b)[i] == b[i - a.len()]);
        }
    }
}

/// Decimal digits and cursor moves hold no `J`.
proof fn lemma_cursor_without_clear_end(row: nat, col: nat)
    ensures
        without_clear_end(decimal(row)),
        without_clear_end(cursor_bytes(row, col)),
{
    crate::ansi::law_decimal_spells_n(row);
    crate::ansi::law_decimal_spells_n(col);
    lemma_texts_without_clear_end();
    lemma_join_without_clear_end(CSI.spec_bytes(), decimal(row));
    lemma_join_without_clear_end(CSI.spec_bytes() + decimal(row), CURSOR_SEPARATOR.spec_bytes());
    lemma_join_without_clear_end(
        CSI.spec_bytes() + decimal(row) + CURSOR_SEPARATOR.spec_bytes(),
        decimal(col),
    );
    lemma_join_without_clear_end(
        CSI.spec_bytes() + decimal(row) + CURSOR_SEPARATOR.spec_bytes() + decimal(col),
        CURSOR_END.spec_bytes(),
    );
}

/// The score line holds no `J`.
proof fn lemma_header_without_clear_end(score: nat)
    ensures
        without_clear_end(header_bytes(score)),
{
    lemma_texts_without_clear_end();
    lemma_cursor_without_clear_end(Y_OFFSET as nat, X_OFFSET as nat);
    lemma_cursor_without_clear_end(score, 0);
    let a = cursor_bytes(Y_OFFSET as nat, X_OFFSET as nat);
    lemma_join_without_clear_end(a, FG_DIM.spec_bytes());
    let a = a + FG_DIM.spec_bytes();
    lemma_join_without_clear_end(a, SCORE_LABEL.spec_bytes());
    let a = a + SCORE_LABEL.spec_bytes();
    lemma_join_without_clear_end(a, RESET.spec_bytes());
    let a = a + RESET.spec_bytes();
    lemma_join_without_clear_end(a, SPACE.spec_bytes());
    let a = a + SPACE.spec_bytes();
    lemma_join_without_clear_end(a, FG_GREEN.spec_bytes());
    let a = a + FG_GREEN.spec_bytes();
    lemma_join_without_clear_end(a, decimal(score));
    let a = a + decimal(score);
    lemma_join_without_clear_end(a, RESET.spec_bytes());
}

/// The bytes that draw a terminal cell hold no `J`.
proof fn lemma_cell_without_clear_end(cell: TerminalCell)
    ensures
        without_clear_end(cell_bytes(cell)),
{
    lemma_texts_without_clear_end();
    let reset = RESET.spec_bytes();
    match (spec_color(cell.top), spec_color(cell.bottom)) {
        (None, None) => {},
        (None, Some(bottom)) => {
            lemma_join_without_clear_end(bottom.fg.spec_bytes(), LOWER_HALF_BLOCK.spec_bytes());
            lemma_join_without_clear_end(
                bottom.fg.spec_bytes() + LOWER_HALF_BLOCK.spec_bytes(),
                reset,
            );
        },
        (Some(top), None) => {
            lemma_join_without_clear_end(top.fg.spec_bytes(), UPPER_HALF_BLOCK.spec_bytes());
            lemma_join_without_clear_end(top.fg.spec_bytes() + UPPER_HALF_BLOCK.spec_bytes(), reset);
        },
        (Some(top), Some(bottom)) => {
            lemma_join_without_clear_end(top.fg.spec_bytes(), FULL_BLOCK.spec_bytes());
            lemma_join_without_clear_end(top.fg.spec_bytes() + FULL_BLOCK.spec_bytes(), reset);
            lemma_join_without_clear_end(top.fg.spec_bytes(), bottom.bg.spec_bytes());
            let a = top.fg.spec_bytes() + bottom.bg.spec_bytes();
            lemma_join_without_clear_end(a, UPPER_HALF_BLOCK.spec_bytes());
            lemma_join_without_clear_end(a + UPPER_HALF_BLOCK.spec_bytes(), reset);
        },
    }
}

/// The updates of the first `n` cells of a row hold no `J`.
proof fn lemma_row_without_clear_end(
    previous: Option<Seq<TerminalCell>>,
    scene: spec_fn(Point) -> RenderCell,
    width: int,
    height: int,
    ty: int,
    n: nat,
)
    ensures
        without_clear_end(row_updates(previous, scene, width, height, ty, n)),
    decreases n,
{
    if n > 0 {
        lemma_row_without_clear_end(previous, scene, width, height, ty, (n - 1) as nat);
        let x = n - 1;
        lemma_cursor_without_clear_end(
            (Y_OFFSET + HEADER_SIZE + ty) as nat,
            (X_OFFSET + x) as nat,
        );
        lemma_cell_without_clear_end(frame_cell(scene, height, x, ty));
        lemma_join_without_clear_end(
            cursor_bytes((Y_OFFSET + HEADER_SIZE + ty) as nat, (X_OFFSET + x) as nat),
            cell_bytes(frame_cell(scene, height, x, ty)),
        );
        lemma_join_without_clear_end(
            row_updates(previous, scene, width, height, ty, (n - 1) as nat),
            cell_update(previous, scene, width, height, x, ty),
        );
    }
}

/// The updates of the first `n` rows hold no `J`.
proof fn lemma_frame_without_clear_end(
    previous: Option<Seq<TerminalCell>>,
    scene: spec_fn(Point) -> RenderCell,
    width: int,
    height: int,
    n: nat,
)
    ensures
        without_clear_end(frame_updates(previous, scene, width, height, n)),
    decreases n,
{
    if n > 0 {
        lemma_frame_without_clear_end(previous, scene, width, height, (n - 1) as nat);
        lemma_row_without_clear_end(previous, scene, width, height, n - 1, width as nat);
        lemma_join_without_clear_end(
            frame_updates(previous, scene, width, height, (n - 1) as nat),
            row_updates(previous, scene, width, height, n - 1, width as nat),
        );
    }
}

/// The first render of a renderer that has drawn nothing yet, as `Renderer::new`
/// and `Renderer::default` make it, clears the screen exactly once: the clear
/// sequence opens its bytes and occurs nowhere else in them.
pub proof fn law_first_render_clears_once(
    scene: spec_fn(Point) -> RenderCell,
    width: int,
    height: int,
    score: nat,
)
    ensures
        ({
            let bytes = (RendererModel { work: None, displayed: None }).render_bytes(
                scene,
                width,
                height,
                score,
            );
            let clear = CLEAR_SCREEN.spec_bytes();
            &&& clear.len() <= bytes.len()
            &&& bytes.subrange(0, clear.len() as int) == clear
            &&& forall|i: int|
                0 <= i && i + clear.len() <= bytes.len() && #[trigger] bytes.subrange(
                    i,
                    i + clear.len(),
                ) == clear ==> i == 0
        }),
{
    let fresh = RendererModel { work: None, displayed: None };
    let clear = CLEAR_SCREEN.spec_bytes();
    reveal_strlit("\x1B[2J");
    assert(clear =~= seq![27u8, 91u8, 50u8, 74u8]) by {
        vstd::utf8::is_ascii_chars_encode_utf8(CLEAR_SCREEN@);
    }
    let rest = header_bytes(score) + fresh.grid_bytes(scene, width, height) + cursor_bytes(
        (Y_OFFSET + HEADER_SIZE + frame_height(height)) as nat,
        X_OFFSET as nat,
    );
    lemma_header_without_clear_end(score);
    lemma_frame_without_clear_end(None, scene, width, height, frame_height(height));
    lemma_cursor_without_clear_end(
        (Y_OFFSET + HEADER_SIZE + frame_height(height)) as nat,
        X_OFFSET as nat,
    );
    lemma_join_without_clear_end(header_bytes(score), fresh.grid_bytes(scene, width, height));
    lemma_join_without_clear_end(
        header_bytes(score) + fresh.grid_bytes(scene, width, height),
        cursor_bytes((Y_OFFSET + HEADER_SIZE + frame_height(height)) as nat, X_OFFSET as nat),
    );
    let bytes = fresh.render_bytes(scene, width, height, score);
    assert(bytes =~= clear + rest);
    assert(bytes.subrange(0, 4) =~= clear);
    assert forall|i: int|
        0 <= i && i + clear.len() <= bytes.len() && #[trigger] bytes.subrange(i, i + clear.len())
            == clear implies i == 0 by {
        assert(bytes.subrange(i, i + 4)[3] == clear[3]);
        assert(bytes[i + 3] == 74u8);
        if i > 0 {
            assert(bytes[i + 3] == rest[i + 3 - 4]);
        }
    }
}

/// A drawn terminal cell shows the colour of its top board cell in its upper half
/// and that of its bottom board cell in its lower half.
pub proof fn law_cell_shows_its_halves(cell: TerminalCell)
    ensures
        shows_halves(cell_bytes(cell), spec_color(cell.top), spec_color(cell.bottom)),
{
    let top = spec_color(cell.top);
    let bottom = spec_color(cell.bottom);
    let bytes = cell_bytes(cell);
    match (top, bottom) {
        (None, None) => {
            assert(styled(Glyph::Blank, None, None) =~= bytes);
            assert(painted(Glyph::Blank, None, None) == (top, bottom));
        },
        (None, Some(b)) => {
            assert(styled(Glyph::LowerHalf, bottom, None) =~= bytes);
            assert(painted(Glyph::LowerHalf, bottom, None) == (top, bottom));
        },
        (Some(t), None) => {
            assert(styled(Glyph::UpperHalf, top, None) =~= bytes);
            assert(painted(Glyph::UpperHalf, top, None) == (top, bottom));
        },
        (Some(t), Some(b)) => {
            if t == b {
                assert(styled(Glyph::Full, top, None) =~= bytes);
                assert(painted(Glyph::Full, top, None) == (top, bottom));
            } else {
                assert(styled(Glyph::UpperHalf, top, bottom) =~= bytes);
                assert(painted(Glyph::UpperHalf, top, bottom) == (top, bottom));
            }
        },
    }
}

/// `bytes` hold `piece` as a run of consecutive bytes.
pub open spec fn holds_run(bytes: Seq<u8>, piece: Seq<u8>) -> bool {
    exists|start: int|
        0 <= start && start + piece.len() <= bytes.len() && #[trigger] bytes.subrange(
            start,
            start + piece.len(),
        ) == piece
}

/// A run held by `a` is held by `a + b`, and so is a run held by `b`.
proof fn lemma_run_in_join(a: Seq<u8>, b: Seq<u8>, piece: Seq<u8>)
    requires
        holds_run(a, piece) || holds_run(b, piece),
    ensures
        holds_run(a + b, piece),
{
    if holds_run(a, piece) {
        let start = choose|start: int|
            0 <= start && start + piece.len() <= a.len() && #[trigger] a.subrange(
                start,
                start + piece.len(),
            ) == piece;
        assert((a + b).subrange(start, start + piece.len()) =~= piece);
    } else {
        let start = choose|start: int|
            0 <= start && start + piece.len() <= b.len() && #[trigger] b.subrange(
                start,
                start + piece.len(),
            ) == piece;
        let at = a.len() + start;
        assert((a + b).subrange(at, at + piece.len()) =~= piece);
    }
}

/// The bytes that move the cursor to the terminal position of column `x` of
/// frame row `ty` and draw `cell` there.
pub open spec fn drawing_at(x: int, ty: int, cell: TerminalCell) -> Seq<u8> {
    cursor_bytes((Y_OFFSET + HEADER_SIZE + ty) as nat, (X_OFFSET + x) as nat) + cell_bytes(cell)
}

/// A cell that changed in column `x` of row `ty` is drawn by the updates of the
/// first `n` cells of that row when `x < n`.
proof fn lemma_changed_cell_in_row(
    previous: Option<Seq<TerminalCell>>,
    scene: spec_fn(Point) -> RenderCell,
    width: int,
    height: int,
    ty: int,
    n: nat,
    x: int,
)
    requires
        0 <= x < n,
        previous is None || previous.unwrap()[frame_index(width, x, ty)] != frame_cell(
            scene,
            height,
            x,
            ty,
        ),
    ensures
        holds_run(
            row_updates(previous, scene, width, height, ty, n),
            drawing_at(x, ty, frame_cell(scene, height, x, ty)),
        ),
    decreases n,
{
    let piece = drawing_at(x, ty, frame_cell(scene, height, x, ty));
    let earlier = row_updates(previous, scene, width, height, ty, (n - 1) as nat);
    let last = cell_update(previous, scene, width, height, n - 1, ty);
    if x < n - 1 {
        lemma_changed_cell_in_row(previous, scene, width, height, ty, (n - 1) as nat, x);
    } else {
        assert(x == n - 1);
        assert(cell_update(previous, scene, width, height, x, ty) == piece);
        assert(last == piece);
        let start: int = 0;
        assert(last.subrange(start, start + piece.len()) =~= piece);
    }
    lemma_run_in_join(earlier, last, piece);
}

/// A cell that changed in row `ty` is drawn by the updates of the first `n` rows
/// when `ty < n`.
proof fn lemma_changed_cell_in_frame(
    previous: Option<Seq<TerminalCell>>,
    scene: spec_fn(Point) -> RenderCell,
    width: int,
    height: int,
    n: nat,
    x: int,
    ty: int,
)
    requires
        0 <= x < width,
        0 <= ty < n,
        previous is None || previous.unwrap()[frame_index(width, x, ty)] != frame_cell(
            scene,
            height,
            x,
            ty,
        ),
    ensures
        holds_run(
            frame_updates(previous, scene, width, height, n),
            drawing_at(x, ty, frame_cell(scene, height, x, ty)),
        ),
    decreases n,
{
    let piece = drawing_at(x, ty, frame_cell(scene, height, x, ty));
    let earlier = frame_updates(previous, scene, width, height, (n - 1) as nat);
    let last = row_updates(previous, scene, width, height, n - 1, width as nat);
    if ty < n - 1 {
        lemma_changed_cell_in_frame(previous, scene, width, height, (n - 1) as nat, x, ty);
    } else {
        lemma_changed_cell_in_row(previous, scene, width, height, ty, width as nat, x);
    }
    lemma_run_in_join(earlier, last, piece);
}

/// Every terminal cell of the new frame that differs from the cell on screen, and
/// every cell when the screen is not kept, is drawn by a render: its bytes move
/// the cursor to the cell's place on the terminal and draw the new cell there. So
/// once the bytes are written, the screen shows the new frame.
pub proof fn law_changed_cells_are_drawn(
    before: RendererModel,
    scene: spec_fn(Point) -> RenderCell,
    width: int,
    height: int,
    score: nat,
    x: int,
    ty: int,
)
    requires
        0 <= x < width,
        0 <= ty < frame_height(height),
        before.previous_cells(width, height) is None || before.previous_cells(
            width,
            height,
        ).unwrap()[frame_index(width, x, ty)] != frame_cell(scene, height, x, ty),
    ensures
        holds_run(
            before.render_bytes(scene, width, height, score),
            drawing_at(x, ty, frame_cell(scene, height, x, ty)),
        ),
{
    let piece = drawing_at(x, ty, frame_cell(scene, height, x, ty));
    let grid = before.grid_bytes(scene, width, height);
    lemma_changed_cell_in_frame(
        before.previous_cells(width, height),
        scene,
        width,
        height,
        frame_height(height),
        x,
        ty,
    );
    let opening = (if before.keeps_screen(width, height) {
        Seq::empty()
    } else {
        CLEAR_SCREEN.spec_bytes()
    }) + header_bytes(score);
    let footer = cursor_bytes(
        (Y_OFFSET + HEADER_SIZE + frame_height(height)) as nat,
        X_OFFSET as nat,
    );
    lemma_run_in_join(opening, grid, piece);
    lemma_run_in_join(opening + grid, footer, piece);
}

} // verus!
