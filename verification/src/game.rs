use crate::grid::{Grid, GridCell, GridModel, Point};
use crate::random::{random_in, thread_rng};
use crate::snake::{can_step, Direction, MoveResult, Snake, SnakeModel};
use rand::rngs::ThreadRng;
use vstd::prelude::*;

verus! {

/// A request of the player.
pub enum GameCommand {
    Move(Direction),
}

/// Whether the game goes on after a tick.
#[derive(Debug, PartialEq, Eq, Structural)]
pub enum GameResult {
    GameOver,
    Running,
}

/// A game of snake: the board, the snake, the food lying about, and the chance
/// (in percent) that a tick tries to drop new food.
pub struct Game {
    grid: Grid,
    snake: Snake,
    rng: ThreadRng,
    food_spawn_attempt_probability: i32,
    /// The food on the board, held as a list without duplicates (see `wf`).
    /// A hash set would do, but vstd's specification of `HashSet` proves nothing
    /// of lookups by a key of this crate's own `Point` type, so the set is kept
    /// as a `Vec` whose invariant says that no point occurs twice.
    food_points: Vec<Point>,
    /// The values drawn from `rng` so far, in the order they were drawn.
    draws: Ghost<Seq<i32>>,
}

/// What a game is, mathematically (the random generator aside).
pub struct GameModel {
    pub grid: GridModel,
    pub snake: SnakeModel,
    pub food_spawn_attempt_probability: int,
    /// The food on the board, in the order it was dropped.
    pub food: Seq<Point>,
}

impl GameModel {
    /// The move of this tick ends the game: the snake runs into itself, leaves
    /// the board, or hits a wall.
    pub open spec fn ends_on_move(self) -> bool {
        let head = self.snake.next_head();
        ||| self.snake.collides_on_move()
        ||| self.grid.cell(head) is None
        ||| self.grid.cell(head) == Some(GridCell::Wall)
    }

    /// The move of this tick lands the head on food, which the snake eats.
    pub open spec fn eats_on_move(self) -> bool {
        !self.ends_on_move() && self.food.contains(self.snake.next_head())
    }

    /// The game after the move of a tick, before any new food: the snake moves
    /// unless it collides with itself, and on food it grows by one segment and
    /// the food goes.
    pub open spec fn after_move(self) -> GameModel {
        let moved = if self.snake.collides_on_move() {
            self.snake
        } else {
            self.snake.moved()
        };
        GameModel {
            snake: if self.eats_on_move() {
                SnakeModel { pending_growth: moved.pending_growth + 1, ..moved }
            } else {
                moved
            },
            food: if self.eats_on_move() {
                self.food.remove_value(self.snake.next_head())
            } else {
                self.food
            },
            ..self
        }
    }

    /// Food may be dropped at `point`: an empty cell of the board that the snake does not cover.
    pub open spec fn can_place_food(self, point: Point) -> bool {
        self.grid.cell(point) == Some(GridCell::Empty) && !self.snake.occupies(point)
    }

    /// The game after trying to drop food at `point`; food already there is not doubled.
    pub open spec fn with_food_at(self, point: Point) -> GameModel {
        if self.can_place_food(point) && !self.food.contains(point) {
            GameModel { food: self.food.push(point), ..self }
        } else {
            self
        }
    }

    /// A roll of `roll` (drawn from `0..100`) fires the attempt to drop food: it
    /// lies below the chance in percent.
    pub open spec fn attempts(self, roll: int) -> bool {
        roll < self.food_spawn_attempt_probability
    }

    /// `next` is what an attempt to drop food at a random cell can give: food
    /// tried at some point of the board, drawn from `0..width` and `0..height`.
    pub open spec fn drops_food_to(self, next: GameModel) -> bool {
        exists|point: Point|
            self.grid.geometry.spec_in_bounds(point) && next == #[trigger] self.with_food_at(point)
    }

    /// `next` is a state that a tick from this one reaches for some draw. When the
    /// move ends the game, nothing is drawn and `next` is the game after the move.
    /// Otherwise a roll is drawn from `0..100`; a roll that fires the attempt is
    /// followed by an attempt to drop food on a random cell of the board, any
    /// other roll leaves the game after the move.
    pub open spec fn ticks_to(self, next: GameModel) -> bool {
        if self.ends_on_move() {
            next == self.after_move()
        } else {
            exists|roll: int|
                0 <= roll < 100 && if #[trigger] self.attempts(roll) {
                    self.after_move().drops_food_to(next)
                } else {
                    next == self.after_move()
                }
        }
    }

    /// The game after the player asks the snake to head to `direction`.
    pub open spec fn commanded(self, direction: Direction) -> GameModel {
        GameModel {
            snake: SnakeModel { direction: self.snake.turned(direction), ..self.snake },
            ..self
        }
    }

    /// The snake's head can move one cell in its direction without leaving the
    /// range of `i32` coordinates.
    pub open spec fn can_tick(self) -> bool {
        can_step(self.snake.head(), self.snake.direction)
    }

    /// Every piece of food lies on an empty cell of the board that the snake does not cover.
    pub open spec fn food_well_placed(self) -> bool {
        forall|i: int| 0 <= i < self.food.len() ==> #[trigger] self.can_place_food(self.food[i])
    }

    /// One less than the snake's length, counting pending growth; zero for a fresh snake.
    pub open spec fn score(self) -> nat {
        if self.snake.logical_len() >= 1 {
            (self.snake.logical_len() - 1) as nat
        } else {
            0
        }
    }
}

impl View for Game {
    type V = GameModel;

    closed spec fn view(&self) -> GameModel {
        GameModel {
            grid: self.grid@,
            snake: self.snake@,
            food_spawn_attempt_probability: self.food_spawn_attempt_probability as int,
            food: self.food_points@,
        }
    }
}

impl Game {
    /// The board and the snake are consistent, the chance is a percentage, no
    /// food lies twice, and all food lies on empty cells clear of the snake.
    pub closed spec fn wf(&self) -> bool {
        &&& self.grid@.wf()
        &&& self.snake.wf()
        &&& 0 <= self.food_spawn_attempt_probability <= 100
        &&& self.food_points@.no_duplicates()
        &&& self@.food_well_placed()
    }

    /// What a consistent game guarantees of its parts.
    pub proof fn lemma_wf_facts(&self)
        requires
            self.wf(),
        ensures
            self@.grid.wf(),
            self@.snake.body.len() >= 1,
            0 <= self@.food_spawn_attempt_probability <= 100,
            self@.food.no_duplicates(),
    {
        self.snake.lemma_wf_facts();
    }

    /// The values the game has drawn from its random generator, in order: each
    /// roll against the chance, and the column and row of each cell tried for food.
    pub closed spec fn draws(&self) -> Seq<i32> {
        self.draws@
    }

    /// A game on `grid` with `snake`, no food yet, and the given chance in percent
    /// that a tick tries to drop food.
    pub fn new(grid: Grid, snake: Snake, food_spawn_attempt_probability: i32) -> (game: Game)
        requires
            grid@.wf(),
            snake.wf(),
            0 <= food_spawn_attempt_probability <= 100,
        ensures
            game.wf(),
            game@ == (GameModel {
                grid: grid@,
                snake: snake@,
                food_spawn_attempt_probability: food_spawn_attempt_probability as int,
                food: Seq::empty(),
            }),
            game.draws() == Seq::<i32>::empty(),
    {
        let rng = thread_rng();
        Game {
            grid,
            snake,
            rng,
            food_spawn_attempt_probability,
            food_points: Vec::new(),
            draws: Ghost(Seq::empty()),
        }
    }

    /// Passes a direction on to the snake, which ignores a request to reverse.
    pub fn apply_command(&mut self, command: GameCommand)
        requires
            old(self).wf(),
        ensures
            final(self).wf(),
            match command {
                GameCommand::Move(direction) => final(self)@ == old(self)@.commanded(direction),
            },
            final(self).draws() == old(self).draws(),
    {
        match command {
            GameCommand::Move(direction) => {
                self.snake.set_direction(direction);
                proof {
                    lemma_same_board_keeps_food_placed(old(self)@, self@);
                }
            },
        }
    }

    /// The rules of one tick, before any food is dropped: moves the snake, ends
    /// the game on a collision with itself, off the board or on a wall, and lets
    /// the snake eat food under its new head.
    pub fn advance(&mut self) -> (result: GameResult)
        requires
            old(self).wf(),
            can_step(old(self)@.snake.head(), old(self)@.snake.direction),
        ensures
            final(self).wf(),
            final(self)@ == old(self)@.after_move(),
            final(self).draws() == old(self).draws(),
            result == (if old(self)@.ends_on_move() {
                GameResult::GameOver
            } else {
                GameResult::Running
            }),
            result == GameResult::Running ==> final(self)@.grid.geometry.spec_in_bounds(
                final(self)@.snake.head(),
            ),
    {
        let ghost start_snake = self.snake;
        proof {
            start_snake.lemma_growth_fits();
            self.lemma_wf_facts();
            lemma_after_move_keeps_food_placed(self@);
        }
        if let MoveResult::SelfCollision = self.snake.move_snake() {
            return GameResult::GameOver;
        }
        let head = self.snake.head();
        if !self.grid.in_bounds(&head) {
            return GameResult::GameOver;
        }
        match self.grid.cell(&head) {
            Some(GridCell::Wall) => {
                return GameResult::GameOver;
            },
            _ => {},
        }
        if let Some(idx) = self.food_index(&head) {
            self.snake.grow();
            self.food_points.remove(idx);
            proof {
                lemma_remove_unique(old(self)@.food, idx as int, head);
            }
        }
        GameResult::Running
    }

    /// One tick: the rules of `advance`, then, while the game runs, a draw
    /// against the chance in percent and, on success, an attempt to drop food at
    /// a random cell. Where food lands rests on chance; whatever it is, the food
    /// on the board is that of `advance` or that plus one point where food may be
    /// placed. With a chance of zero, no food is ever dropped.
    pub fn tick(&mut self) -> (result: GameResult)
        requires
            old(self).wf(),
            can_step(old(self)@.snake.head(), old(self)@.snake.direction),
        ensures
            final(self).wf(),
            result == (if old(self)@.ends_on_move() {
                GameResult::GameOver
            } else {
                GameResult::Running
            }),
            old(self)@.ticks_to(final(self)@),
            !old(self)@.ends_on_move() && old(self)@.food_spawn_attempt_probability == 100
                ==> old(self)@.after_move().drops_food_to(final(self)@),
            old(self)@.food_spawn_attempt_probability == 0 ==> final(self)@ == old(
                self,
            )@.after_move(),
            ({
                let before = old(self).draws();
                let after = final(self).draws();
                let n = before.len() as int;
                let moved = old(self)@.after_move();
                if old(self)@.ends_on_move() {
                    after == before
                } else {
                    &&& after.len() > n
                    &&& after.subrange(0, n) == before
                    &&& 0 <= after[n] < 100
                    &&& if old(self)@.attempts(after[n] as int) {
                        &&& after.len() == n + 3
                        &&& 0 <= after[n + 1] < moved.grid.geometry.width
                        &&& 0 <= after[n + 2] < moved.grid.geometry.height
                        &&& final(self)@ == moved.with_food_at(
                            Point { x: after[n + 1], y: after[n + 2] },
                        )
                    } else {
                        after.len() == n + 1 && final(self)@ == moved
                    }
                }
            }),
    {
        let result = self.advance();
        if let GameResult::GameOver = result {
            return result;
        }
        let ghost after = self@;
        proof {
            lemma_board_not_empty(after.grid.geometry, after.snake.head());
        }
        let attempt = self.should_attempt_food_spawn();
        let ghost roll = choose|roll: int| 0 <= roll < 100 && attempt == #[trigger] after.attempts(roll);
        if attempt {
            self.attempt_food_spawn();
        }
        proof {
            assert(old(self)@.attempts(roll) == after.attempts(roll));
        }
        GameResult::Running
    }

    /// The snake's head can take its next step.
    pub fn can_tick(&self) -> (ok: bool)
        requires
            self.wf(),
        ensures
            ok == self@.can_tick(),
    {
        let head = self.snake.head();
        match self.snake.direction() {
            Direction::Up => head.y > i32::MIN,
            Direction::Down => head.y < i32::MAX,
            Direction::Left => head.x > i32::MIN,
            Direction::Right => head.x < i32::MAX,
        }
    }

    /// The score can be computed: the snake's length fits a `usize`.
    pub fn score_fits(&self) -> (ok: bool)
        requires
            self.wf(),
        ensures
            ok == (self@.snake.logical_len() <= usize::MAX),
    {
        self.snake.logical_len_fits()
    }

    /// Draws a roll from `0..100` and tells whether it fires the attempt to drop
    /// food: never at 0 %, always at 100 %.
    pub fn should_attempt_food_spawn(&mut self) -> (attempt: bool)
        requires
            old(self).wf(),
        ensures
            final(self).wf(),
            final(self)@ == old(self)@,
            exists|roll: int| 0 <= roll < 100 && attempt == #[trigger] old(self)@.attempts(roll),
            old(self)@.food_spawn_attempt_probability == 0 ==> !attempt,
            old(self)@.food_spawn_attempt_probability == 100 ==> attempt,
            final(self).draws().len() == old(self).draws().len() + 1,
            final(self).draws().drop_last() == old(self).draws(),
            0 <= final(self).draws().last() < 100,
            attempt == old(self)@.attempts(final(self).draws().last() as int),
    {
        let roll = random_in(&mut self.rng, 0, 100);
        proof {
            self.draws@ = self.draws@.push(roll);
        }
        self.attempt_for_roll(roll)
    }

    /// Whether `roll`, drawn from `0..100`, fires the attempt to drop food: it
    /// lies below the chance in percent.
    pub fn attempt_for_roll(&self, roll: i32) -> (attempt: bool)
        requires
            0 <= roll < 100,
        ensures
            attempt == self@.attempts(roll as int),
    {
        roll < self.food_spawn_attempt_probability
    }

    /// The exclusive upper ends of the ranges that a drop of food draws its cell
    /// from: columns from `0..width`, rows from `0..height`.
    pub fn food_drop_bounds(&self) -> (bounds: (i32, i32))
        ensures
            bounds == (self@.grid.geometry.width, self@.grid.geometry.height),
    {
        (self.grid.width(), self.grid.height())
    }

    /// Tries to drop food at a cell drawn at random from the ranges of
    /// `food_drop_bounds`: a column of `0..width` and a row of `0..height`.
    pub fn attempt_food_spawn(&mut self)
        requires
            old(self).wf(),
            old(self)@.grid.geometry.width > 0,
            old(self)@.grid.geometry.height > 0,
        ensures
            final(self).wf(),
            old(self)@.drops_food_to(final(self)@),
            ({
                let before = old(self).draws();
                let after = final(self).draws();
                let n = before.len() as int;
                &&& after.len() == n + 2
                &&& after.subrange(0, n) == before
                &&& 0 <= after[n] < old(self)@.grid.geometry.width
                &&& 0 <= after[n + 1] < old(self)@.grid.geometry.height
                &&& final(self)@ == old(self)@.with_food_at(Point { x: after[n], y: after[n + 1] })
            }),
    {
        let (max_x, max_y) = self.food_drop_bounds();
        let x = random_in(&mut self.rng, 0, max_x);
        proof {
            self.draws@ = self.draws@.push(x);
        }
        let y = random_in(&mut self.rng, 0, max_y);
        proof {
            self.draws@ = self.draws@.push(y);
        }
        let point = Point::new(x, y);
        self.spawn_food_at(&point);
        assert(old(self)@.grid.geometry.spec_in_bounds(point));
    }

    /// Drops food at `point` if it is an empty cell of the board that the snake
    /// does not cover and holds no food yet.
    pub fn spawn_food_at(&mut self, point: &Point)
        requires
            old(self).wf(),
        ensures
            final(self).wf(),
            final(self)@ == old(self)@.with_food_at(*point),
            final(self).draws() == old(self).draws(),
    {
        let empty = match self.grid.cell(point) {
            Some(GridCell::Empty) => true,
            _ => false,
        };
        if self.grid.in_bounds(point) && empty && !self.snake.occupies(point) {
            if self.food_index(point).is_none() {
                self.food_points.push(*point);
                proof {
                    assert forall|i: int| 0 <= i < self@.food.len() implies #[trigger] self@.can_place_food(self@.food[i]) by {
                        if i < old(self)@.food.len() {
                            assert(self@.food[i] == old(self)@.food[i]);
                            assert(old(self)@.can_place_food(old(self)@.food[i]));
                        }
                    }
                    assert forall|i: int, j: int|
                        0 <= i < self.food_points@.len() && 0 <= j < self.food_points@.len() && i
                            != j implies self.food_points@[i] != self.food_points@[j] by {
                        let n = old(self)@.food.len() as int;
                        if i == n {
                            assert(self.food_points@[j] == old(self)@.food[j]);
                        } else if j == n {
                            assert(self.food_points@[i] == old(self)@.food[i]);
                        } else {
                            assert(self.food_points@[i] == old(self)@.food[i]);
                            assert(self.food_points@[j] == old(self)@.food[j]);
                        }
                    }
                }
            }
        }
    }

    /// The position of `point` in the food list, if food lies there.
    fn food_index(&self, point: &Point) -> (index: Option<usize>)
        ensures
            index is Some <==> self.food_points@.contains(*point),
            index matches Some(i) ==> i < self.food_points@.len() && self.food_points@[i as int]
                == *point && forall|j: int| 0 <= j < i ==> self.food_points@[j] != *point,
    {
        let mut i: usize = 0;
        while i < self.food_points.len()
            invariant
                i <= self.food_points@.len(),
                forall|j: int| 0 <= j < i ==> self.food_points@[j] != *point,
            decreases self.food_points@.len() - i,
        {
            if self.food_points[i] == *point {
                return Some(i);
            }
            i = i + 1;
        }
        None
    }

    /// The snake's segments from head to tail.
    pub fn snake_points(&self) -> (points: Vec<Point>)
        requires
            self.wf(),
        ensures
            points@ == self@.snake.body,
    {
        self.snake.occupied_points()
    }

    /// How many segments the snake has in place.
    pub fn snake_len(&self) -> (len: usize)
        requires
            self.wf(),
        ensures
            len == self@.snake.body.len(),
    {
        self.snake.occupied_len()
    }

    /// The snake's segment at `index`, counted from the head.
    pub fn snake_point_at(&self, index: usize) -> (point: Option<Point>)
        requires
            self.wf(),
        ensures
            point == (if index < self@.snake.body.len() {
                Some(self@.snake.body[index as int])
            } else {
                None::<Point>
            }),
    {
        self.snake.occupied_point_at(index)
    }

    /// The food on the board.
    pub fn food_points(&self) -> (points: Vec<Point>)
        ensures
            points@ == self@.food,
    {
        self.food_points.clone()
    }

    pub fn food_len(&self) -> (len: usize)
        ensures
            len == self@.food.len(),
    {
        self.food_points.len()
    }

    /// The food at `index` in the food list.
    pub fn food_point_at(&self, index: usize) -> (point: Option<Point>)
        ensures
            point == (if index < self@.food.len() {
                Some(self@.food[index as int])
            } else {
                None::<Point>
            }),
    {
        if index < self.food_points.len() {
            Some(self.food_points[index])
        } else {
            None
        }
    }

    /// Food lies at `point`.
    pub fn food_at(&self, point: &Point) -> (found: bool)
        ensures
            found == self@.food.contains(*point),
    {
        self.food_index(point).is_some()
    }

    /// The snake covers `point`.
    pub fn snake_at(&self, point: &Point) -> (covered: bool)
        requires
            self.wf(),
        ensures
            covered == self@.snake.occupies(*point),
    {
        self.snake.occupies(point)
    }

    /// One less than the snake's length, counting pending growth.
    pub fn score(&self) -> (score: usize)
        requires
            self.wf(),
            self@.snake.logical_len() <= usize::MAX,
        ensures
            score == self@.score(),
    {
        self.snake.logical_len().saturating_sub(1)
    }

    pub fn snake(&self) -> (snake: &Snake)
        requires
            self.wf(),
        ensures
            snake.wf(),
            snake@ == self@.snake,
    {
        &self.snake
    }

    pub fn grid(&self) -> (grid: &Grid)
        requires
            self.wf(),
        ensures
            grid@.wf(),
            grid@ == self@.grid,
    {
        &self.grid
    }
}

/// Eating raises the score by one; any other move leaves it as it was.
pub proof fn law_score_after_move(game: GameModel)
    requires
        game.snake.body.len() >= 1,
    ensures
        game.after_move().score() == game.score() + (if game.eats_on_move() {
            1int
        } else {
            0int
        }),
{
    crate::snake::law_move_keeps_length(game.snake);
}

/// Food never lies twice, never off the board or on a wall, and never under the snake.
pub proof fn law_food_well_placed(game: &Game)
    requires
        game.wf(),
    ensures
        game@.food.no_duplicates(),
        game@.food_well_placed(),
{
}

/// Whatever a tick draws, it keeps the board, eats or leaves food as the move
/// says, and adds at most one piece of food, on a cell where food may lie.
pub proof fn law_tick_adds_at_most_one_food(game: GameModel, next: GameModel)
    requires
        game.ticks_to(next),
    ensures
        next.grid == game.grid,
        next.snake == game.after_move().snake,
        next.food == game.after_move().food || exists|p: Point|
            game.after_move().can_place_food(p) && !game.after_move().food.contains(p)
                && next.food == game.after_move().food.push(p),
{
    if !game.ends_on_move() {
        let roll = choose|roll: int|
            0 <= roll < 100 && if #[trigger] game.attempts(roll) {
                game.after_move().drops_food_to(next)
            } else {
                next == game.after_move()
            };
        if game.attempts(roll) {
            let p = choose|p: Point|
                game.after_move().grid.geometry.spec_in_bounds(p) && next
                    == #[trigger] game.after_move().with_food_at(p);
            if next.food != game.after_move().food {
                assert(game.after_move().can_place_food(p) && !game.after_move().food.contains(p));
            }
        }
    }
}

/// A tick that does not end the game leaves the head on the board.
pub proof fn law_running_tick_keeps_head_on_board(game: GameModel, next: GameModel)
    requires
        game.ticks_to(next),
        !game.ends_on_move(),
        game.snake.body.len() >= 1,
    ensures
        next.grid.geometry.spec_in_bounds(next.snake.head()),
{
    law_tick_adds_at_most_one_food(game, next);
    assert(next.snake.head() == game.snake.next_head());
}

/// With a chance of zero no tick drops food.
pub proof fn law_zero_chance_drops_nothing(game: GameModel, next: GameModel)
    requires
        game.ticks_to(next),
        game.food_spawn_attempt_probability == 0,
    ensures
        next == game.after_move(),
{
}

/// With a chance of one hundred percent every tick that goes on tries to drop
/// food at a cell of the board.
pub proof fn law_certain_chance_always_tries(game: GameModel, next: GameModel)
    requires
        game.ticks_to(next),
        !game.ends_on_move(),
        game.food_spawn_attempt_probability == 100,
    ensures
        game.after_move().drops_food_to(next),
{
    let roll = choose|roll: int|
        0 <= roll < 100 && if #[trigger] game.attempts(roll) {
            game.after_move().drops_food_to(next)
        } else {
            next == game.after_move()
        };
    assert(game.attempts(roll));
}

/// A chance of `p` percent fires on exactly `p` of the hundred rolls that can be
/// drawn: the rolls below `p`, and no others.
pub proof fn law_chance_is_the_share_of_firing_rolls(game: GameModel)
    requires
        0 <= game.food_spawn_attempt_probability <= 100,
    ensures
        ({
            let firing = Set::new(|roll: int| 0 <= roll < 100 && game.attempts(roll));
            let p = game.food_spawn_attempt_probability;
            &&& firing == vstd::set_lib::set_int_range(0, p)
            &&& firing.finite()
            &&& firing.len() == p
        }),
{
    let firing = Set::new(|roll: int| 0 <= roll < 100 && game.attempts(roll));
    let p = game.food_spawn_attempt_probability;
    assert(firing =~= vstd::set_lib::set_int_range(0, p));
    vstd::set_lib::lemma_int_range(0, p);
}

/// Trying to drop food at `point` adds food at that point alone, and only when the
/// point is an empty cell of the board clear of the snake; all other food, the
/// board, the snake and the chance stay as they were.
pub proof fn law_food_lands_only_on_the_tried_cell(game: GameModel, point: Point, other: Point)
    ensures
        ({
            let next = game.with_food_at(point);
            &&& next.grid == game.grid
            &&& next.snake == game.snake
            &&& next.food_spawn_attempt_probability == game.food_spawn_attempt_probability
            &&& next.food.contains(other) <==> (game.food.contains(other) || (other == point
                && game.grid.cell(point) == Some(GridCell::Empty) && !game.snake.occupies(point)))
        }),
{
    let next = game.with_food_at(point);
    if game.can_place_food(point) && !game.food.contains(point) {
        if next.food.contains(other) {
            let i = choose|i: int| 0 <= i < next.food.len() && next.food[i] == other;
            if i < game.food.len() {
                assert(game.food[i] == other);
            }
        }
        if game.food.contains(other) {
            let i = choose|i: int| 0 <= i < game.food.len() && game.food[i] == other;
            assert(next.food[i] == other);
        }
        if other == point {
            assert(next.food[game.food.len() as int] == other);
        }
    }
}

/// A board holding a point has cells in both directions.
proof fn lemma_board_not_empty(geometry: crate::grid_geometry::GridGeometry, point: Point)
    requires
        geometry.spec_in_bounds(point),
    ensures
        geometry.width > 0,
        geometry.height > 0,
{
}

/// Two states with the same board, snake body and food agree on where food may lie.
proof fn lemma_same_board_keeps_food_placed(before: GameModel, after: GameModel)
    requires
        before.food_well_placed(),
        after.grid == before.grid,
        after.food == before.food,
        after.snake.body == before.snake.body,
        after.snake.geometry == before.snake.geometry,
    ensures
        after.food_well_placed(),
{
    assert forall|i: int| 0 <= i < after.food.len() implies #[trigger] after.can_place_food(after.food[i]) by {
        assert(before.can_place_food(before.food[i]));
    }
}

/// The move of a tick keeps every piece of food on an empty cell that the snake
/// does not cover: food under the new head is eaten, and the rest of the body was
/// there before.
proof fn lemma_after_move_keeps_food_placed(game: GameModel)
    requires
        game.food_well_placed(),
        game.food.no_duplicates(),
        game.snake.body.len() >= 1,
    ensures
        game.after_move().food_well_placed(),
        game.after_move().food.no_duplicates(),
{
    let after = game.after_move();
    let head = game.snake.next_head();
    let kept = game.snake.kept_on_move();
    if game.eats_on_move() {
        let i = choose|i: int| 0 <= i < game.food.len() && game.food[i] == head;
        lemma_remove_unique(game.food, i, head);
        game.food.remove_ensures(i);
    }
    assert forall|i: int| 0 <= i < after.food.len() implies #[trigger] after.can_place_food(after.food[i]) by {
        let p = after.food[i];
        let oi = if game.eats_on_move() {
            let j = choose|j: int| 0 <= j < game.food.len() && game.food[j] == head;
            if i < j { i } else { i + 1 }
        } else {
            i
        };
        assert(game.food[oi] == p);
        assert(game.can_place_food(game.food[oi]));
        if !game.snake.collides_on_move() {
            assert(p != head) by {
                if game.eats_on_move() {
                    let j = choose|j: int| 0 <= j < game.food.len() && game.food[j] == head;
                    assert(oi != j);
                }
            }
            if after.snake.occupies(p) {
                let k = choose|k: int| 0 <= k < after.snake.body.len() && after.snake.body[k] == p;
                assert(k != 0);
                assert(kept[k - 1] == p);
                assert(game.snake.body[k - 1] == p);
                assert(game.snake.body.contains(p));
            }
        }
    }
}

/// Removing the one occurrence of `value` at `index` from a list without
/// duplicates is removing that value, and leaves no duplicates.
proof fn lemma_remove_unique(s: Seq<Point>, index: int, value: Point)
    requires
        s.no_duplicates(),
        0 <= index < s.len(),
        s[index] == value,
    ensures
        s.remove(index) == s.remove_value(value),
        s.remove(index).no_duplicates(),
{
    s.index_of_first_ensures(value);
    s.remove_ensures(index);
    let r = s.remove(index);
    assert forall|i: int, j: int| 0 <= i < r.len() && 0 <= j < r.len() && i != j implies r[i] != r[j] by {
        let oi = if i < index { i } else { i + 1 };
        let oj = if j < index { j } else { j + 1 };
        assert(r[i] == s[oi]);
        assert(r[j] == s[oj]);
    }
}

} // verus!
