use snake::game::{Game, GameCommand, GameResult};
use snake::grid::{Grid, GridCell, Point};
use snake::snake::{Direction, MoveResult, Snake};

fn point(x: i32, y: i32) -> Point {
    Point::new(x, y)
}

fn snake_on_board(starting_point: Point, grid: &Grid) -> Snake {
    match Snake::new(starting_point, grid.geometry()) {
        Ok(snake) => snake,
        Err(e) => panic!("{}", e),
    }
}

fn game_at(starting_point: Point, food_spawn_attempt_probability: i32) -> Game {
    let grid = Grid::new(8, 8);
    let snake = snake_on_board(starting_point, &grid);
    Game::new(grid, snake, food_spawn_attempt_probability)
}

fn game_with_probability(food_spawn_attempt_probability: i32) -> Game {
    game_at(point(3, 3), food_spawn_attempt_probability)
}

fn game_with_growth(growth: usize) -> Game {
    let grid = Grid::new(8, 8);
    let mut snake = snake_on_board(point(3, 3), &grid);
    for _ in 0..growth {
        snake.grow();
    }
    Game::new(grid, snake, 0)
}

#[test]
fn should_attempt_food_spawn_is_never_true_at_zero_percent() {
    let mut game = game_with_probability(0);

    for _ in 0..100 {
        assert!(!game.should_attempt_food_spawn());
    }
}

#[test]
fn should_attempt_food_spawn_is_always_true_at_hundred_percent() {
    let mut game = game_with_probability(100);

    for _ in 0..100 {
        assert!(game.should_attempt_food_spawn());
    }
}

#[test]
fn game_spawn_food_at_places_food_on_empty_unoccupied_cell() {
    let mut game = game_with_probability(0);

    game.spawn_food_at(&point(4, 4));

    assert!(game.food_points().iter().any(|p| *p == point(4, 4)));
}

#[test]
fn game_spawn_food_at_does_not_place_food_on_snake() {
    let mut game = game_with_probability(0);

    game.spawn_food_at(&point(3, 3));

    assert!(!game.food_points().iter().any(|p| *p == point(3, 3)));
}

#[test]
fn game_spawn_food_at_does_not_overwrite_existing_food_or_wall() {
    let mut game = game_with_probability(0);
    game.spawn_food_at(&point(4, 4));

    game.spawn_food_at(&point(4, 4));
    game.spawn_food_at(&point(0, 0));

    assert_eq!(
        game.food_points().iter().filter(|p| **p == point(4, 4)).count(),
        1
    );
    assert_eq!(game.grid().cell(&point(0, 0)), Some(&GridCell::Wall));
}

#[test]
fn game_score_is_zero_for_new_snake() {
    let game = game_with_probability(0);

    assert_eq!(game.score(), 0);
}

#[test]
fn game_score_counts_growth_segments() {
    let game = game_with_growth(2);

    assert_eq!(game.score(), 2);
}

#[test]
fn game_exposes_current_grid_snake_and_score() {
    let game = game_with_growth(1);

    assert_eq!(game.grid().width(), 8);
    assert!(game.snake().occupies(&point(3, 3)));
    assert_eq!(game.score(), 1);
}

#[test]
fn game_exposes_snake_and_food_accessors() {
    let mut game = game_with_growth(1);
    game.spawn_food_at(&point(4, 4));

    let snake_points: Vec<Point> = game.snake_points();
    let food_points: Vec<Point> = game.food_points();

    assert_eq!(snake_points, vec![point(3, 3)]);
    assert_eq!(game.snake_len(), 1);
    assert_eq!(game.snake_point_at(0), Some(point(3, 3)));
    assert_eq!(game.snake_point_at(1), None);
    assert!(game.snake_at(&point(3, 3)));
    assert!(!game.snake_at(&point(4, 4)));

    assert_eq!(food_points, vec![point(4, 4)]);
    assert_eq!(game.food_len(), 1);
    assert_eq!(game.food_point_at(0), Some(point(4, 4)));
    assert_eq!(game.food_point_at(1), None);
    assert!(game.food_at(&point(4, 4)));
    assert!(!game.food_at(&point(3, 3)));
}

#[test]
fn apply_command_changes_snake_direction_for_next_tick() {
    let mut game = game_with_probability(0);

    game.apply_command(GameCommand::Move(Direction::Down));

    assert!(matches!(game.tick(), GameResult::Running));
    assert_eq!(game.snake().head(), point(3, 4));
}

#[test]
fn apply_command_updates_direction_immediately() {
    let mut game = game_with_probability(0);

    game.apply_command(GameCommand::Move(Direction::Down));
    game.apply_command(GameCommand::Move(Direction::Left));

    assert!(matches!(game.tick(), GameResult::Running));
    assert_eq!(game.snake().head(), point(2, 3));
}

#[test]
fn tick_returns_game_over_when_snake_hits_wall() {
    let mut game = game_at(point(6, 3), 0);

    assert!(matches!(game.tick(), GameResult::GameOver));
    assert_eq!(game.snake().head(), point(7, 3));
}

#[test]
fn tick_returns_game_over_when_snake_moves_out_of_bounds() {
    let mut game = game_at(point(7, 3), 0);

    assert!(matches!(game.tick(), GameResult::GameOver));
    assert_eq!(game.snake().head(), point(8, 3));
}

#[test]
fn tick_consumes_food_and_increases_score() {
    let mut game = game_with_probability(0);
    game.spawn_food_at(&point(4, 3));

    assert!(matches!(game.tick(), GameResult::Running));
    assert_eq!(game.score(), 1);
    assert!(!game.food_points().iter().any(|p| *p == point(4, 3)));
    assert_eq!(game.snake().head(), point(4, 3));
}

#[test]
fn tick_returns_game_over_when_snake_hits_itself() {
    let grid = Grid::new(8, 8);
    let mut snake = Snake::new(point(2, 2), grid.geometry()).expect("snake should fit in grid");

    snake.grow();
    assert!(matches!(snake.move_snake(), MoveResult::Moved));

    snake.grow();
    snake.set_direction(Direction::Down);
    assert!(matches!(snake.move_snake(), MoveResult::Moved));

    snake.grow();
    snake.set_direction(Direction::Left);
    assert!(matches!(snake.move_snake(), MoveResult::Moved));

    snake.grow();
    snake.set_direction(Direction::Up);
    let mut game = Game::new(grid, snake, 0);

    assert!(matches!(game.tick(), GameResult::GameOver));
    assert_eq!(game.snake().head(), point(2, 3));
}

#[test]
fn advance_keeps_food_list_without_the_eaten_point() {
    let mut game = game_with_probability(0);
    game.spawn_food_at(&point(5, 5));
    game.spawn_food_at(&point(4, 3));
    game.spawn_food_at(&point(6, 6));

    assert_eq!(game.advance(), GameResult::Running);
    assert_eq!(game.food_points(), vec![point(5, 5), point(6, 6)]);
    assert_eq!(game.snake().logical_len(), 2);
}

#[test]
fn attempt_food_spawn_adds_at_most_one_valid_point() {
    let mut game = game_with_probability(100);

    for _ in 0..50 {
        game.attempt_food_spawn();
    }

    let food = game.food_points();
    assert!(food.len() <= 50);
    for p in &food {
        assert_eq!(game.grid().cell(p), Some(&GridCell::Empty));
        assert!(!game.snake_at(p));
        assert_eq!(food.iter().filter(|q| *q == p).count(), 1);
    }
}

#[test]
fn tick_at_full_chance_still_moves_the_snake() {
    let mut game = game_with_probability(100);

    assert_eq!(game.tick(), GameResult::Running);
    assert_eq!(game.snake().head(), point(4, 3));
    assert!(game.food_len() <= 1);
    assert!(!game.food_at(&point(4, 3)));
}

#[test]
fn can_tick_holds_inside_the_board() {
    let game = game_with_probability(0);

    assert!(game.can_tick());
    assert!(game.score_fits());
}

#[test]
fn should_spawn_food_is_never_true_at_zero_percent() {
    let mut game = game_with_probability(0);

    for _ in 0..100 {
        assert!(!game.should_attempt_food_spawn());
    }
}

#[test]
fn should_spawn_food_is_always_true_at_hundred_percent() {
    let mut game = game_with_probability(100);

    for _ in 0..100 {
        assert!(game.should_attempt_food_spawn());
    }
}

#[test]
fn render_state_uses_current_grid_snake_and_score() {
    let game = game_with_growth(1);

    assert_eq!(game.grid().width(), 8);
    assert!(game.snake().occupies(&point(3, 3)));
    assert_eq!(game.score(), 1);
}

#[test]
fn attempt_for_roll_compares_the_roll_with_the_chance() {
    let game = game_with_probability(4);

    assert!(game.attempt_for_roll(0));
    assert!(game.attempt_for_roll(3));
    assert!(!game.attempt_for_roll(4));
    assert!(!game.attempt_for_roll(99));
}

#[test]
fn attempts_to_drop_food_succeed_eventually() {
    let mut game = game_with_probability(100);
    let mut dropped = false;

    for _ in 0..200 {
        game.attempt_food_spawn();
        if game.food_len() > 0 {
            dropped = true;
            break;
        }
    }
    assert!(dropped);
}

#[test]
fn food_is_drawn_from_the_whole_board() {
    let grid = Grid::new(6, 4);
    let snake = snake_on_board(point(2, 1), &grid);
    let game = Game::new(grid, snake, 4);

    assert_eq!(game.food_drop_bounds(), (6, 4));
}

#[test]
fn a_running_tick_at_full_chance_drops_food_only_on_the_board() {
    let mut game = game_with_probability(100);

    for _ in 0..3 {
        let before = game.food_len();
        assert_eq!(game.tick(), GameResult::Running);
        assert!(game.food_len() <= before + 1);
        for index in 0..game.food_len() {
            let food = game.food_point_at(index).expect("food in range");
            assert!(food.x > 0 && food.x < 7 && food.y > 0 && food.y < 7);
            assert!(!game.snake_at(&food));
        }
        game.apply_command(GameCommand::Move(Direction::Down));
    }
}
