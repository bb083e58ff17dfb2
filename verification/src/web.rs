use crate::game::{Game, GameCommand, GameModel, GameResult};
use crate::grid::{initial_cell, Grid, GridCell, Point};
use crate::grid_geometry::GridGeometry;
use crate::renderer::{game_cell, RenderCell};
use crate::snake::{Direction, Snake, SnakeModel};
use vstd::prelude::*;

verus! {

pub const DEFAULT_WIDTH: i32 = 32;

pub const DEFAULT_HEIGHT: i32 = 32;

pub const DEFAULT_START_X: i32 = 5;

pub const DEFAULT_START_Y: i32 = 5;

pub const DEFAULT_FOOD_SPAWN_ATTEMPT_PROBABILITY: i32 = 4;

/// The code of a cell for the browser: 0 empty, 1 wall, 2 food, 3 snake, and
/// `u8::MAX` off the board.
pub open spec fn cell_code(game: GameModel, at: Point) -> u8 {
    if game.snake.occupies(at) {
        3
    } else if game.food.contains(at) {
        2
    } else {
        match game.grid.cell(at) {
            None => u8::MAX,
            Some(GridCell::Empty) => 0,
            Some(GridCell::Wall) => 1,
            Some(GridCell::Food) => 2,
        }
    }
}

/// On the board, the browser's codes name the cells that the terminal picture
/// draws, one code per kind: empty 0, wall 1, food 2, snake 3. So food that the
/// snake does not cover is reported as food, and two cells get the same code
/// exactly when the picture draws them alike.
pub proof fn law_cell_codes_name_the_picture(game: GameModel, a: Point, b: Point)
    requires
        game.grid.geometry.spec_in_bounds(a),
        game.grid.geometry.spec_in_bounds(b),
    ensures
        game.food.contains(a) && !game.snake.occupies(a) ==> cell_code(game, a) == 2,
        game_cell(game, a) == RenderCell::Empty ==> cell_code(game, a) == 0,
        game_cell(game, a) == RenderCell::Wall ==> cell_code(game, a) == 1,
        game_cell(game, a) == RenderCell::Food ==> cell_code(game, a) == 2,
        game_cell(game, a) == RenderCell::Snake ==> cell_code(game, a) == 3,
        (cell_code(game, a) == cell_code(game, b)) <==> (game_cell(game, a) == game_cell(game, b)),
{
}

/// `game` is a fresh `width` by `height` game: a walled border around empty
/// cells, a one-segment snake at (`start_x`, `start_y`) heading right on the same
/// board, no food, and the given chance of dropping food.
pub open spec fn fresh_game(
    game: GameModel,
    width: i32,
    height: i32,
    start_x: i32,
    start_y: i32,
    food_spawn_attempt_probability: i32,
) -> bool {
    &&& game.grid.wf()
    &&& game.grid.geometry == (GridGeometry { width, height })
    &&& forall|p: Point|
        #[trigger] game.grid.geometry.spec_in_bounds(p) ==> game.grid.cell(p) == Some(
            initial_cell(width as int, height as int, p),
        )
    &&& game.snake == (SnakeModel {
        body: seq![Point { x: start_x, y: start_y }],
        direction: Direction::Right,
        pending_growth: 0,
        geometry: GridGeometry { width, height },
    })
    &&& game.food_spawn_attempt_probability == food_spawn_attempt_probability
    &&& game.food == Seq::<Point>::empty()
}

/// A game as the browser drives it.
pub struct WebGame {
    game: Game,
}

impl View for WebGame {
    type V = GameModel;

    closed spec fn view(&self) -> GameModel {
        self.game@
    }
}

impl WebGame {
    pub closed spec fn wf(&self) -> bool {
        self.game.wf()
    }

    /// A 32 by 32 game with the snake at (5, 5) and a 4 % chance per tick of dropping food.
    pub fn new() -> (result: Result<WebGame, String>)
        ensures
            result matches Ok(web) && web.wf() && fresh_game(
                web@,
                DEFAULT_WIDTH,
                DEFAULT_HEIGHT,
                DEFAULT_START_X,
                DEFAULT_START_Y,
                DEFAULT_FOOD_SPAWN_ATTEMPT_PROBABILITY,
            ),
    {
        Self::with_config(
            DEFAULT_WIDTH,
            DEFAULT_HEIGHT,
            DEFAULT_START_X,
            DEFAULT_START_Y,
            DEFAULT_FOOD_SPAWN_ATTEMPT_PROBABILITY,
        )
    }

    /// A `width` by `height` game with a walled border, the snake at
    /// (`start_x`, `start_y`) heading right, and the given chance in percent of
    /// dropping food per tick; an error when the start lies outside the board.
    pub fn with_config(
        width: i32,
        height: i32,
        start_x: i32,
        start_y: i32,
        food_spawn_attempt_probability: i32,
    ) -> (result: Result<WebGame, String>)
        requires
            0 <= width * height <= i32::MAX,
            0 <= food_spawn_attempt_probability <= 100,
        ensures
            result is Ok <==> (GridGeometry { width, height }).spec_in_bounds(
                Point { x: start_x, y: start_y },
            ),
            result matches Ok(web) ==> web.wf() && fresh_game(
                web@,
                width,
                height,
                start_x,
                start_y,
                food_spawn_attempt_probability,
            ),
            result matches Err(message) ==> message@ == "Starting point outside the grid bounds"@,
    {
        let geometry = GridGeometry::new(width, height);
        let grid = Grid::new(width, height);
        let snake = match Snake::new(Point::new(start_x, start_y), geometry) {
            Ok(snake) => snake,
            Err(err) => {
                return Err(err);
            },
        };
        Ok(WebGame { game: Game::new(grid, snake, food_spawn_attempt_probability) })
    }

    /// The snake's head can take its next step.
    pub fn can_tick(&self) -> (ok: bool)
        requires
            self.wf(),
        ensures
            ok == self@.can_tick(),
    {
        self.game.can_tick()
    }

    /// The score can be computed: the snake's length fits a `usize`.
    pub fn score_fits(&self) -> (ok: bool)
        requires
            self.wf(),
        ensures
            ok == (self@.snake.logical_len() <= usize::MAX),
    {
        self.game.score_fits()
    }

    /// One tick of the game; `true` while the game goes on.
    pub fn tick(&mut self) -> (running: bool)
        requires
            old(self).wf(),
            old(self)@.can_tick(),
        ensures
            final(self).wf(),
            old(self)@.ticks_to(final(self)@),
            running == !old(self)@.ends_on_move(),
    {
        match self.game.tick() {
            GameResult::Running => true,
            GameResult::GameOver => false,
        }
    }

    pub fn move_up(&mut self)
        requires
            old(self).wf(),
        ensures
            final(self).wf(),
            final(self)@ == old(self)@.commanded(Direction::Up),
    {
        self.game.apply_command(GameCommand::Move(Direction::Up));
    }

    pub fn move_down(&mut self)
        requires
            old(self).wf(),
        ensures
            final(self).wf(),
            final(self)@ == old(self)@.commanded(Direction::Down),
    {
        self.game.apply_command(GameCommand::Move(Direction::Down));
    }

    pub fn move_left(&mut self)
        requires
            old(self).wf(),
        ensures
            final(self).wf(),
            final(self)@ == old(self)@.commanded(Direction::Left),
    {
        self.game.apply_command(GameCommand::Move(Direction::Left));
    }

    pub fn move_right(&mut self)
        requires
            old(self).wf(),
        ensures
            final(self).wf(),
            final(self)@ == old(self)@.commanded(Direction::Right),
    {
        self.game.apply_command(GameCommand::Move(Direction::Right));
    }

    /// The score, cut to its low 32 bits.
    pub fn score(&self) -> (score: u32)
        requires
            self.wf(),
            self@.snake.logical_len() <= usize::MAX,
        ensures
            score == self@.score() as u32,
    {
        self.game.score() as u32
    }

    pub fn width(&self) -> (width: i32)
        requires
            self.wf(),
        ensures
            width == self@.grid.geometry.width,
    {
        self.game.grid().width()
    }

    pub fn height(&self) -> (height: i32)
        requires
            self.wf(),
        ensures
            height == self@.grid.geometry.height,
    {
        self.game.grid().height()
    }

    /// What lies at (`x`, `y`), as a code for the browser.
    pub fn cell_at(&self, x: i32, y: i32) -> (code: u8)
        requires
            self.wf(),
        ensures
            code == cell_code(self@, Point { x, y }),
    {
        let point = Point::new(x, y);
        if self.game.snake().occupies(&point) {
            return 3;
        }
        if self.game.food_at(&point) {
            return 2;
        }
        if !self.game.grid().in_bounds(&point) {
            return u8::MAX;
        }
        match self.game.grid().cell(&point) {
            Some(GridCell::Empty) => 0,
            Some(GridCell::Wall) => 1,
            Some(GridCell::Food) => 2,
            None => u8::MAX,
        }
    }

    pub fn head_x(&self) -> (x: i32)
        requires
            self.wf(),
        ensures
            x == self@.snake.head().x,
    {
        self.game.snake().head().x
    }

    pub fn head_y(&self) -> (y: i32)
        requires
            self.wf(),
        ensures
            y == self@.snake.head().y,
    {
        self.game.snake().head().y
    }
}

} // verus!
