use crate::grid::Point;
use crate::grid_geometry::{lemma_index_in_range, lemma_small_board_indexable, GridGeometry};
use crate::grid::lemma_index_injective;
use std::collections::VecDeque;
use vstd::prelude::*;

verus! {

/// The way the snake's head goes on its next move.
#[derive(Debug, Clone, Copy, PartialEq, Eq, Structural)]
pub enum Direction {
    Up,
    Down,
    Left,
    Right,
}

/// What a move of the snake came to.
#[derive(Debug, PartialEq, Eq, Structural)]
pub enum MoveResult {
    Moved,
    SelfCollision,
}

/// The direction that undoes `direction`.
pub open spec fn opposite(direction: Direction) -> Direction {
    match direction {
        Direction::Up => Direction::Down,
        Direction::Down => Direction::Up,
        Direction::Left => Direction::Right,
        Direction::Right => Direction::Left,
    }
}

/// The neighbour of `point` in `direction` can be written with `i32` coordinates.
pub open spec fn can_step(point: Point, direction: Direction) -> bool {
    match direction {
        Direction::Up => point.y > i32::MIN,
        Direction::Down => point.y < i32::MAX,
        Direction::Left => point.x > i32::MIN,
        Direction::Right => point.x < i32::MAX,
    }
}

/// The neighbour of `point` in `direction`: up decreases `y`, down increases it,
/// left decreases `x`, right increases it.
pub open spec fn stepped(point: Point, direction: Direction) -> Point {
    match direction {
        Direction::Up => Point { x: point.x, y: (point.y - 1) as i32 },
        Direction::Down => Point { x: point.x, y: (point.y + 1) as i32 },
        Direction::Left => Point { x: (point.x - 1) as i32, y: point.y },
        Direction::Right => Point { x: (point.x + 1) as i32, y: point.y },
    }
}

/// A snake: its body from head to tail, where it heads, how many segments it
/// has still to grow, and the board it keeps track of.
pub struct Snake {
    body: VecDeque<Point>,
    direction: Direction,
    pending_growth: usize,
    occupancy: Vec<bool>,
    grid_geometry: GridGeometry,
}

/// What a snake is, mathematically.
pub struct SnakeModel {
    /// The segments from head (index 0) to tail.
    pub body: Seq<Point>,
    pub direction: Direction,
    pub pending_growth: nat,
    /// The board on which the snake records which cells it covers.
    pub geometry: GridGeometry,
}

impl SnakeModel {
    pub open spec fn head(self) -> Point {
        self.body[0]
    }

    pub open spec fn tail(self) -> Point {
        self.body.last()
    }

    /// The number of segments, counting those still to grow.
    pub open spec fn logical_len(self) -> nat {
        self.body.len() + self.pending_growth
    }

    /// The snake covers `point`: a segment lies there and it is on the board.
    pub open spec fn occupies(self, point: Point) -> bool {
        self.geometry.spec_in_bounds(point) && self.body.contains(point)
    }

    /// The segments that stay in place on the next move: all of them while the
    /// snake grows, all but the tail otherwise.
    pub open spec fn kept_on_move(self) -> Seq<Point> {
        if self.pending_growth > 0 {
            self.body
        } else {
            self.body.drop_last()
        }
    }

    /// Where the head goes on the next move.
    pub open spec fn next_head(self) -> Point {
        stepped(self.head(), self.direction)
    }

    /// The next move runs the head into a segment that stays in place.
    pub open spec fn collides_on_move(self) -> bool {
        self.geometry.spec_in_bounds(self.next_head()) && self.kept_on_move().contains(
            self.next_head(),
        )
    }

    /// The snake after a move that does not collide.
    pub open spec fn moved(self) -> SnakeModel {
        SnakeModel {
            body: seq![self.next_head()] + self.kept_on_move(),
            direction: self.direction,
            pending_growth: if self.pending_growth > 0 {
                (self.pending_growth - 1) as nat
            } else {
                0
            },
            geometry: self.geometry,
        }
    }

    /// The direction after asking to head to `direction`: a request to reverse is ignored.
    pub open spec fn turned(self, direction: Direction) -> Direction {
        if direction == opposite(self.direction) {
            self.direction
        } else {
            direction
        }
    }
}

/// Two cells are neighbours: they differ by one in exactly one coordinate.
pub open spec fn adjacent(a: Point, b: Point) -> bool {
    ||| a.x == b.x && (a.y - b.y == 1 || b.y - a.y == 1)
    ||| a.y == b.y && (a.x - b.x == 1 || b.x - a.x == 1)
}

/// Each segment of `body` is a neighbour of the next one.
pub open spec fn connected(body: Seq<Point>) -> bool {
    forall|i: int| 0 <= i < body.len() - 1 ==> adjacent(#[trigger] body[i], body[i + 1])
}

/// No two segments that lie on the board share a cell.
pub open spec fn distinct_on_board(geometry: GridGeometry, body: Seq<Point>) -> bool {
    forall|i: int, j: int|
        0 <= i < body.len() && 0 <= j < body.len() && i != j && geometry.spec_in_bounds(
            #[trigger] body[i],
        ) ==> body[i] != #[trigger] body[j]
}

/// `occupancy` marks exactly the cells of the board that `body` covers.
pub open spec fn occupancy_matches(
    geometry: GridGeometry,
    occupancy: Seq<bool>,
    body: Seq<Point>,
) -> bool {
    forall|p: Point| #[trigger]
        geometry.spec_in_bounds(p) ==> occupancy[geometry.spec_index(p)] == body.contains(p)
}

impl View for Snake {
    type V = SnakeModel;

    closed spec fn view(&self) -> SnakeModel {
        SnakeModel {
            body: self.body@,
            direction: self.direction,
            pending_growth: self.pending_growth as nat,
            geometry: self.grid_geometry,
        }
    }
}

impl Snake {
    /// The snake's own bookkeeping is consistent: it has a head, its occupancy
    /// map covers the board and marks exactly the cells of its body, and no two
    /// of its segments on the board share a cell.
    pub closed spec fn wf(&self) -> bool {
        &&& self.body@.len() >= 1
        &&& self.grid_geometry.cell_count() <= i32::MAX
        &&& self.occupancy@.len() == self.grid_geometry.cell_count()
        &&& occupancy_matches(self.grid_geometry, self.occupancy@, self.body@)
        &&& distinct_on_board(self.grid_geometry, self.body@)
        &&& connected(self.body@)
    }

    /// A one-segment snake at `starting_point` heading right, or an error when
    /// the point lies outside the board.
    pub fn new(starting_point: Point, grid_geometry: GridGeometry) -> (result: Result<
        Snake,
        String,
    >)
        requires
            i32::MIN <= grid_geometry.width * grid_geometry.height <= i32::MAX,
        ensures
            result is Ok <==> grid_geometry.spec_in_bounds(starting_point),
            result matches Ok(snake) ==> snake.wf() && snake@ == (SnakeModel {
                body: seq![starting_point],
                direction: Direction::Right,
                pending_growth: 0,
                geometry: grid_geometry,
            }),
            result matches Err(message) ==> message@ == "Starting point outside the grid bounds"@,
    {
        let height = grid_geometry.height();
        let width = grid_geometry.width();
        let capacity = (width * height) as usize;
        if !grid_geometry.in_bounds(&starting_point) {
            return Err("Starting point outside the grid bounds".to_owned());
        }
        proof {
            lemma_index_in_range(grid_geometry, starting_point);
        }
        let mut occupancy: Vec<bool> = Vec::new();
        let mut i: usize = 0;
        while i < capacity
            invariant
                i <= capacity,
                occupancy@.len() == i,
                forall|j: int| 0 <= j < i ==> occupancy@[j] == false,
            decreases capacity - i,
        {
            occupancy.push(false);
            i = i + 1;
        }
        let starting_idx = match grid_geometry.index(&starting_point) {
            Some(idx) => idx,
            None => {
                return Err("Starting point outside the grid bounds".to_owned());
            },
        };
        occupancy.set(starting_idx, true);
        let mut body: VecDeque<Point> = VecDeque::new();
        body.push_front(starting_point);
        let snake = Snake {
            body,
            direction: Direction::Right,
            pending_growth: 0,
            occupancy,
            grid_geometry,
        };
        proof {
            assert(snake.body@ =~= seq![starting_point]);
            assert forall|p: Point| #[trigger] grid_geometry.spec_in_bounds(p) implies snake.occupancy@[
                grid_geometry.spec_index(p)] == snake.body@.contains(p) by {
                lemma_index_in_range(grid_geometry, p);
                if p != starting_point {
                    lemma_index_injective(grid_geometry, p, starting_point);
                    assert(!snake.body@.contains(p)) by {
                        if snake.body@.contains(p) {
                            let k = choose|k: int| 0 <= k < snake.body@.len() && snake.body@[k] == p;
                            assert(k == 0);
                        }
                    }
                } else {
                    assert(snake.body@[0] == p);
                }
            }
        }
        Ok(snake)
    }

    pub fn head(&self) -> (head: Point)
        requires
            self.wf(),
        ensures
            head == self@.head(),
    {
        self.body[0]
    }

    /// Moves the head one cell in the current direction. The tail follows unless
    /// growth is pending, in which case one pending segment is used up. A move into
    /// a cell that a staying segment covers is refused and changes nothing.
    pub fn move_snake(&mut self) -> (result: MoveResult)
        requires
            old(self).wf(),
            can_step(old(self)@.head(), old(self)@.direction),
        ensures
            final(self).wf(),
            result == (if old(self)@.collides_on_move() {
                MoveResult::SelfCollision
            } else {
                MoveResult::Moved
            }),
            old(self)@.collides_on_move() ==> final(self)@ == old(self)@,
            !old(self)@.collides_on_move() ==> final(self)@ == old(self)@.moved(),
    {
        let ghost model = self@;
        let ghost geometry = self.grid_geometry;
        let ghost kept = model.kept_on_move();
        let old_head = self.head();
        let new_head = match self.direction {
            Direction::Up => Point::new(old_head.x, old_head.y - 1),
            Direction::Down => Point::new(old_head.x, old_head.y + 1),
            Direction::Left => Point::new(old_head.x - 1, old_head.y),
            Direction::Right => Point::new(old_head.x + 1, old_head.y),
        };
        assert(new_head == model.next_head());
        let growing = self.pending_growth > 0;
        let old_tail = if growing {
            None
        } else {
            Some(self.body[self.body.len() - 1])
        };
        if let Some(tail) = old_tail {
            proof {
                lemma_small_board_indexable(self.grid_geometry, tail);
            }
            if let Some(idx) = self.grid_geometry.index(&tail) {
                self.occupancy.set(idx, false);
                proof {
                    lemma_free_tail(geometry, old(self).occupancy@, model.body);
                }
            } else {
                proof {
                    lemma_drop_offboard_tail(geometry, self.occupancy@, model.body);
                }
            }
        }
        proof {
            lemma_kept_distinct(model);
        }
        let ghost freed = self.occupancy@;
        assert(occupancy_matches(geometry, freed, kept));
        if self.marked(&new_head) {
            if let Some(tail) = old_tail {
                proof {
                    lemma_small_board_indexable(self.grid_geometry, tail);
                }
                if let Some(idx) = self.grid_geometry.index(&tail) {
                    self.occupancy.set(idx, true);
                    proof {
                        lemma_index_in_range(geometry, tail);
                        assert(model.body[model.body.len() - 1] == tail);
                        assert(model.body.contains(tail));
                        assert(self.occupancy@ =~= old(self).occupancy@);
                    }
                }
            }
            return MoveResult::SelfCollision;
        }
        self.body.push_front(new_head);
        proof {
            lemma_small_board_indexable(self.grid_geometry, new_head);
        }
        if let Some(idx) = self.grid_geometry.index(&new_head) {
            self.occupancy.set(idx, true);
        }
        if growing {
            self.pending_growth = self.pending_growth - 1;
        } else {
            self.body.pop_back();
        }
        proof {
            assert(self.body@ =~= seq![new_head] + kept);
            lemma_push_head(geometry, freed, self.occupancy@, kept, new_head);
            law_move_keeps_body_connected(model);
        }
        MoveResult::Moved
    }

    /// Heads to `direction`, unless that would reverse the snake onto itself.
    pub fn set_direction(&mut self, direction: Direction)
        requires
            old(self).wf(),
        ensures
            final(self).wf(),
            final(self)@ == (SnakeModel { direction: old(self)@.turned(direction), ..old(self)@ }),
    {
        if self.direction == Direction::Down && direction == Direction::Up || self.direction
            == Direction::Up && direction == Direction::Down || self.direction == Direction::Left
            && direction == Direction::Right || self.direction == Direction::Right && direction
            == Direction::Left {
            return ;
        }
        self.direction = direction;
    }

    /// Adds one segment to grow on the coming moves.
    pub fn grow(&mut self)
        requires
            old(self).wf(),
            old(self)@.pending_growth < usize::MAX,
        ensures
            final(self).wf(),
            final(self)@ == (SnakeModel {
                pending_growth: old(self)@.pending_growth + 1,
                ..old(self)@
            }),
    {
        self.pending_growth = self.pending_growth + 1;
    }

    /// The pending growth of a snake is a machine integer.
    pub proof fn lemma_growth_fits(&self)
        ensures
            self@.pending_growth <= usize::MAX,
    {
    }

    /// A consistent snake has a head, and no two of its segments on the board share a cell.
    pub proof fn lemma_wf_facts(&self)
        requires
            self.wf(),
        ensures
            self@.body.len() >= 1,
            distinct_on_board(self@.geometry, self@.body),
            self@.geometry.cell_count() <= i32::MAX,
    {
    }

    /// The snake covers `point`.
    pub fn occupies(&self, point: &Point) -> (covered: bool)
        requires
            self.wf(),
        ensures
            covered == self@.occupies(*point),
    {
        self.marked(point)
    }

    /// The occupancy map marks the cell at `point`; `false` off the board.
    fn marked(&self, point: &Point) -> (covered: bool)
        requires
            self.grid_geometry.cell_count() <= i32::MAX,
            self.occupancy@.len() == self.grid_geometry.cell_count(),
        ensures
            covered == (self.grid_geometry.spec_in_bounds(*point)
                && self.occupancy@[self.grid_geometry.spec_index(*point)]),
    {
        proof {
            lemma_small_board_indexable(self.grid_geometry, *point);
        }
        match self.grid_geometry.index(point) {
            Some(idx) => self.occupancy[idx],
            None => false,
        }
    }

    /// The number of segments, counting those still to grow.
    pub fn logical_len(&self) -> (len: usize)
        requires
            self.wf(),
            self@.logical_len() <= usize::MAX,
        ensures
            len == self@.logical_len(),
    {
        self.body.len() + self.pending_growth
    }

    /// The snake's length, counting pending growth, fits a `usize`.
    pub fn logical_len_fits(&self) -> (fits: bool)
        requires
            self.wf(),
        ensures
            fits == (self@.logical_len() <= usize::MAX),
    {
        self.body.len() <= usize::MAX - self.pending_growth
    }

    /// Where the snake heads.
    pub fn direction(&self) -> (direction: Direction)
        ensures
            direction == self@.direction,
    {
        self.direction
    }

    /// Never true: a snake always has its head.
    pub fn is_empty(&self) -> (empty: bool)
        requires
            self.wf(),
        ensures
            empty == (self@.body.len() == 0),
            !empty,
    {
        self.body.len() == 0
    }

    /// How many segments lie on the board or off it, not counting those still to grow.
    pub fn occupied_len(&self) -> (len: usize)
        requires
            self.wf(),
        ensures
            len == self@.body.len(),
    {
        self.body.len()
    }

    /// The segment at `index`, counted from the head, or `None` past the tail.
    pub fn occupied_point_at(&self, index: usize) -> (point: Option<Point>)
        requires
            self.wf(),
        ensures
            point == (if index < self@.body.len() {
                Some(self@.body[index as int])
            } else {
                None::<Point>
            }),
    {
        if index < self.body.len() {
            Some(self.body[index])
        } else {
            None
        }
    }

    /// The segments from head to tail.
    pub fn occupied_points(&self) -> (points: Vec<Point>)
        requires
            self.wf(),
        ensures
            points@ == self@.body,
    {
        let mut points: Vec<Point> = Vec::new();
        let mut i: usize = 0;
        while i < self.body.len()
            invariant
                i <= self.body@.len(),
                points@ == self.body@.subrange(0, i as int),
            decreases self.body@.len() - i,
        {
            points.push(self.body[i]);
            i = i + 1;
            assert(points@ =~= self.body@.subrange(0, i as int));
        }
        assert(points@ =~= self.body@);
        points
    }
}

/// A move that does not collide puts the head on the neighbouring cell in the
/// snake's direction, and the old head becomes the second segment.
pub proof fn law_move_advances_head(snake: SnakeModel)
    requires
        snake.body.len() >= 1,
        can_step(snake.head(), snake.direction),
    ensures
        snake.moved().head() == stepped(snake.head(), snake.direction),
        adjacent(snake.moved().head(), snake.head()),
        snake.moved().body.len() >= 2 ==> snake.moved().body[1] == snake.head(),
{
}

/// A move keeps the snake's length: a segment in place replaces each pending one
/// used up, and without pending growth the tail goes as the head comes.
pub proof fn law_move_keeps_length(snake: SnakeModel)
    requires
        snake.body.len() >= 1,
    ensures
        snake.moved().logical_len() == snake.logical_len(),
{
}

/// Growing adds one to the snake's length.
pub proof fn law_grow_adds_one(snake: SnakeModel)
    ensures
        (SnakeModel { pending_growth: snake.pending_growth + 1, ..snake }).logical_len()
            == snake.logical_len() + 1,
{
}

/// A move keeps the body a chain of neighbouring cells.
pub proof fn law_move_keeps_body_connected(snake: SnakeModel)
    requires
        snake.body.len() >= 1,
        connected(snake.body),
        can_step(snake.head(), snake.direction),
    ensures
        connected(snake.moved().body),
{
    let body = snake.moved().body;
    let kept = snake.kept_on_move();
    assert forall|i: int| 0 <= i < body.len() - 1 implies adjacent(#[trigger] body[i], body[i + 1]) by {
        if i == 0 {
            assert(body[1] == kept[0]);
            assert(kept[0] == snake.body[0]);
        } else {
            assert(body[i] == kept[i - 1]);
            assert(body[i + 1] == kept[i]);
            assert(kept[i - 1] == snake.body[i - 1]);
            assert(kept[i] == snake.body[i]);
        }
    }
}

/// Asking to turn never leaves the snake heading back the way it came.
pub proof fn law_never_reverses(snake: SnakeModel, direction: Direction)
    ensures
        snake.turned(direction) != opposite(snake.direction),
        direction != opposite(snake.direction) ==> snake.turned(direction) == direction,
{
}

/// A snake never covers a cell of its board twice, and its body is always a
/// chain of neighbouring cells.
pub proof fn law_body_shape(snake: &Snake)
    requires
        snake.wf(),
    ensures
        distinct_on_board(snake@.geometry, snake@.body),
        connected(snake@.body),
{
    snake.lemma_wf_facts();
}

/// Freeing the cell of an on-board tail leaves a map that marks the body without its tail.
proof fn lemma_free_tail(geometry: GridGeometry, occupancy: Seq<bool>, body: Seq<Point>)
    requires
        body.len() >= 1,
        geometry.spec_in_bounds(body.last()),
        occupancy.len() == geometry.cell_count(),
        occupancy_matches(geometry, occupancy, body),
        distinct_on_board(geometry, body),
    ensures
        occupancy_matches(
            geometry,
            occupancy.update(geometry.spec_index(body.last()), false),
            body.drop_last(),
        ),
{
    let tail = body.last();
    let freed = occupancy.update(geometry.spec_index(tail), false);
    assert forall|p: Point| #[trigger] geometry.spec_in_bounds(p) implies freed[geometry.spec_index(p)]
        == body.drop_last().contains(p) by {
        lemma_index_in_range(geometry, p);
        lemma_index_in_range(geometry, tail);
        if p == tail {
            if body.drop_last().contains(p) {
                let k = choose|k: int| 0 <= k < body.len() - 1 && body.drop_last()[k] == p;
                assert(body[k] == body[body.len() - 1]);
            }
        } else {
            lemma_index_injective(geometry, p, tail);
            if body.contains(p) {
                let k = choose|k: int| 0 <= k < body.len() && body[k] == p;
                assert(body.drop_last()[k] == p);
            }
            if body.drop_last().contains(p) {
                let k = choose|k: int| 0 <= k < body.len() - 1 && body.drop_last()[k] == p;
                assert(body[k] == p);
            }
        }
    }
}

/// A tail off the board has no mark, so the map already marks the body without it.
proof fn lemma_drop_offboard_tail(geometry: GridGeometry, occupancy: Seq<bool>, body: Seq<Point>)
    requires
        body.len() >= 1,
        !geometry.spec_in_bounds(body.last()),
        occupancy_matches(geometry, occupancy, body),
    ensures
        occupancy_matches(geometry, occupancy, body.drop_last()),
{
    assert forall|p: Point| #[trigger] geometry.spec_in_bounds(p) implies occupancy[geometry.spec_index(p)]
        == body.drop_last().contains(p) by {
        if body.contains(p) {
            let k = choose|k: int| 0 <= k < body.len() && body[k] == p;
            assert(k != body.len() - 1);
            assert(body.drop_last()[k] == p);
        }
        if body.drop_last().contains(p) {
            let k = choose|k: int| 0 <= k < body.len() - 1 && body.drop_last()[k] == p;
            assert(body[k] == p);
        }
    }
}

/// The segments that stay in place on a move share no cell on the board.
proof fn lemma_kept_distinct(model: SnakeModel)
    requires
        model.body.len() >= 1,
        distinct_on_board(model.geometry, model.body),
    ensures
        distinct_on_board(model.geometry, model.kept_on_move()),
{
    let kept = model.kept_on_move();
    assert forall|i: int, j: int|
        0 <= i < kept.len() && 0 <= j < kept.len() && i != j && model.geometry.spec_in_bounds(
            #[trigger] kept[i],
        ) implies kept[i] != #[trigger] kept[j] by {
        assert(kept[i] == model.body[i]);
        assert(kept[j] == model.body[j]);
    }
}

/// Putting a new head in front of the staying segments, and marking its cell
/// when it is on the board, keeps the map exact and the segments distinct.
proof fn lemma_push_head(
    geometry: GridGeometry,
    before: Seq<bool>,
    after: Seq<bool>,
    kept: Seq<Point>,
    head: Point,
)
    requires
        before.len() == geometry.cell_count(),
        occupancy_matches(geometry, before, kept),
        distinct_on_board(geometry, kept),
        !(geometry.spec_in_bounds(head) && kept.contains(head)),
        geometry.spec_in_bounds(head) ==> after == before.update(geometry.spec_index(head), true),
        !geometry.spec_in_bounds(head) ==> after == before,
    ensures
        occupancy_matches(geometry, after, seq![head] + kept),
        distinct_on_board(geometry, seq![head] + kept),
{
    let body = seq![head] + kept;
    assert forall|p: Point| #[trigger] geometry.spec_in_bounds(p) implies after[geometry.spec_index(p)]
        == body.contains(p) by {
        lemma_index_in_range(geometry, p);
        if p == head {
            assert(body[0] == head);
            assert(body.contains(p));
            assert(after[geometry.spec_index(p)]);
        } else {
            if geometry.spec_in_bounds(head) {
                lemma_index_in_range(geometry, head);
                lemma_index_injective(geometry, p, head);
            }
            assert(after[geometry.spec_index(p)] == before[geometry.spec_index(p)]);
            if body.contains(p) {
                let k = choose|k: int| 0 <= k < body.len() && body[k] == p;
                assert(k != 0);
                assert(body[k] == kept[k - 1]);
                assert(kept.contains(p));
            }
            if kept.contains(p) {
                let k = choose|k: int| 0 <= k < kept.len() && kept[k] == p;
                assert(body[k + 1] == p);
            }
        }
    }
    assert forall|i: int, j: int|
        0 <= i < body.len() && 0 <= j < body.len() && i != j && geometry.spec_in_bounds(
            #[trigger] body[i],
        ) implies body[i] != #[trigger] body[j] by {
        if i == 0 {
            assert(body[j] == kept[j - 1]);
            if body[i] == body[j] {
                assert(kept.contains(head));
            }
        } else if j == 0 {
            assert(body[i] == kept[i - 1]);
            if body[i] == body[j] {
                assert(kept.contains(head));
            }
        } else {
            assert(body[i] == kept[i - 1]);
            assert(body[j] == kept[j - 1]);
        }
    }
}

} // verus!
