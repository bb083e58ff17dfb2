use snake::ansi::{FG_DIM, FG_GREEN, RESET};
use snake::grid::{Grid, GridCell, Point};
use snake::grid_geometry::GridGeometry;
use snake::renderer::Renderer;
use snake::snake::{Direction, MoveResult, Snake};

fn point(x: i32, y: i32) -> Point {
    Point::new(x, y)
}

fn adjacent(a: Point, b: Point) -> bool {
    (a.x == b.x && (a.y - b.y).abs() == 1) || (a.y == b.y && (a.x - b.x).abs() == 1)
}

#[test]
fn rewriting_a_cell_with_its_own_value_changes_nothing() {
    let mut grid = Grid::new(5, 5);

    grid.change_cell(&point(0, 0), GridCell::Wall);
    grid.change_cell(&point(2, 2), GridCell::Empty);

    assert_eq!(grid.cell(&point(0, 0)), Some(&GridCell::Wall));
    assert_eq!(grid.cell(&point(2, 2)), Some(&GridCell::Empty));
    assert_eq!(grid.cell(&point(1, 2)), Some(&GridCell::Empty));
}

#[test]
fn consuming_food_twice_is_consuming_it_once() {
    let mut grid = Grid::new(5, 5);
    grid.change_cell(&point(2, 2), GridCell::Food);

    grid.on_food_consumed(&point(2, 2));
    grid.on_food_consumed(&point(2, 2));

    assert_eq!(grid.cell(&point(2, 2)), Some(&GridCell::Empty));
}

#[test]
fn moves_keep_the_body_connected_and_the_length() {
    let geometry = GridGeometry::new(10, 10);
    let mut snake = Snake::new(point(2, 2), geometry).expect("snake should fit in grid");
    snake.grow();
    snake.grow();
    snake.grow();
    let turns = [
        Direction::Right,
        Direction::Down,
        Direction::Down,
        Direction::Left,
        Direction::Up,
        Direction::Left,
    ];

    for direction in turns {
        let before = snake.logical_len();
        snake.set_direction(direction);
        assert!(matches!(snake.move_snake(), MoveResult::Moved));
        assert_eq!(snake.logical_len(), before);
        let body = snake.occupied_points();
        for pair in body.windows(2) {
            assert!(adjacent(pair[0], pair[1]));
        }
    }
    assert_eq!(snake.occupied_len(), 4);
}

#[test]
fn a_turn_never_reverses_the_snake() {
    let geometry = GridGeometry::new(10, 10);
    let mut snake = Snake::new(point(5, 5), geometry).expect("snake should fit in grid");

    snake.set_direction(Direction::Left);
    snake.move_snake();

    assert_eq!(snake.head(), point(6, 5));
}

#[test]
fn the_score_line_spells_large_scores_in_decimal() {
    let renderer = Renderer::new();
    let mut out = Vec::new();

    renderer.render_header(&mut out, 1_234_567);

    let output = String::from_utf8(out).expect("header should be utf-8");
    assert_eq!(
        output,
        format!("\x1B[1;1H{FG_DIM}Score{RESET} {FG_GREEN}1234567{RESET}")
    );
}

#[test]
fn the_score_line_spells_zero() {
    let renderer = Renderer::new();
    let mut out = Vec::new();

    renderer.render_header(&mut out, 0);

    let output = String::from_utf8(out).expect("header should be utf-8");
    assert!(output.ends_with(&format!("{FG_GREEN}0{RESET}")));
}

#[test]
fn a_third_render_of_the_same_board_is_also_minimal() {
    let mut renderer = Renderer::new();
    let grid = Grid::new(6, 4);
    let snake = Snake::new(point(2, 1), grid.geometry()).expect("snake should fit in grid");
    let mut first = Vec::new();
    let mut second = Vec::new();
    let mut third = Vec::new();

    renderer.render_to(&mut first, &grid, &snake, 0);
    renderer.render_to(&mut second, &grid, &snake, 0);
    renderer.render_to(&mut third, &grid, &snake, 0);

    let expected = format!("\x1B[1;1H{FG_DIM}Score{RESET} {FG_GREEN}0{RESET}\x1B[4;1H");
    assert_eq!(String::from_utf8(second).expect("utf-8"), expected);
    assert_eq!(String::from_utf8(third).expect("utf-8"), expected);
}

#[test]
fn the_first_render_clears_the_screen_exactly_once() {
    let grid = Grid::new(6, 4);
    let snake = Snake::new(point(2, 1), grid.geometry()).expect("snake should fit in grid");
    for mut renderer in [Renderer::new(), Renderer::default()] {
        let mut out = Vec::new();
        renderer.render_to(&mut out, &grid, &snake, 12);
        let text = String::from_utf8(out).expect("utf-8");

        assert!(text.starts_with("\x1B[2J"));
        assert_eq!(text.matches("\x1B[2J").count(), 1);
    }
}
