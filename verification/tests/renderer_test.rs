use snake::ansi::{
    BG_BRIGHT_BLACK, BG_GREEN, BG_RED, FG_BRIGHT_BLACK, FG_DIM, FG_GREEN, FG_RED, RESET,
};
use snake::game::Game;
use snake::grid::{Grid, GridCell, Point};
use snake::renderer::{Color, RenderCell, Renderer};
use snake::snake::Snake;

fn point(x: i32, y: i32) -> Point {
    Point::new(x, y)
}

#[test]
fn renderer_render_accepts_grid_snake_and_score() {
    let mut renderer = Renderer::new();
    let grid = Grid::new(5, 5);
    let snake = Snake::new(Point::new(2, 2), grid.geometry()).expect("snake should fit in grid");
    let mut out = Vec::new();

    renderer.render_to(&mut out, &grid, &snake, 7);

    let output = String::from_utf8(out).expect("render should be utf-8");

    assert!(output.contains(&format!("{FG_DIM}Score{RESET} {FG_GREEN}7{RESET}")));
    assert!(output.contains("\x1B[2;1H"));
}

#[test]
fn renderer_render_header_writes_dimmed_score_line() {
    let renderer = Renderer::new();
    let mut out = Vec::new();

    renderer.render_header(&mut out, 3);

    assert_eq!(
        String::from_utf8(out).expect("header should be utf-8"),
        format!("\x1B[1;1H{FG_DIM}Score{RESET} {FG_GREEN}3{RESET}")
    );
}

#[test]
fn renderer_render_grid_writes_mixed_cells_with_cursor_moves() {
    let mut renderer = Renderer::new();
    let mut grid = Grid::new(5, 5);
    let snake = Snake::new(Point::new(2, 2), grid.geometry()).expect("snake should fit in grid");
    grid.change_cell(&point(2, 3), GridCell::Food);
    grid.change_cell(&point(3, 3), GridCell::Food);
    let mut out = Vec::new();

    renderer.render_grid(&mut out, &snake, &grid);

    let output = String::from_utf8(out).expect("grid should be utf-8");

    assert!(output.contains(" "));
    assert!(output.contains("█"));
    assert!(output.contains("▀"));
    assert!(output.contains("▄"));
    assert!(output.contains("\x1B[2;1H"));
    assert!(output.contains("\x1B[3;3H"));
    assert!(!output.contains("\r\n"));
}

#[test]
fn renderer_render_writes_clear_sequence_header_and_grid() {
    let mut renderer = Renderer::new();
    let mut grid = Grid::new(5, 5);
    let snake = Snake::new(Point::new(2, 2), grid.geometry()).expect("snake should fit in grid");
    grid.change_cell(&point(2, 3), GridCell::Food);
    let mut out = Vec::new();

    renderer.render_to(&mut out, &grid, &snake, 1);

    let output = String::from_utf8(out).expect("render should be utf-8");

    assert!(output.starts_with("\x1B[2J\x1B[1;1H"));
    assert_eq!(output.matches("\x1B[2J").count(), 1);
    assert!(output.contains(&format!("{FG_DIM}Score{RESET} {FG_GREEN}1{RESET}")));
    assert!(output.contains("\x1B[2;1H"));
    assert!(output.ends_with("\x1B[5;1H"));
    assert!(output.contains("█"));
}

#[test]
fn renderer_second_render_with_same_state_updates_only_header_and_footer_cursor() {
    let mut renderer = Renderer::new();
    let grid = Grid::new(5, 5);
    let snake = Snake::new(Point::new(2, 2), grid.geometry()).expect("snake should fit in grid");
    let mut first_out = Vec::new();
    let mut second_out = Vec::new();

    renderer.render_to(&mut first_out, &grid, &snake, 1);
    renderer.render_to(&mut second_out, &grid, &snake, 1);

    let output = String::from_utf8(second_out).expect("render should be utf-8");

    assert!(!output.contains("\x1B[2J"));
    assert_eq!(
        output,
        format!("\x1B[1;1H{FG_DIM}Score{RESET} {FG_GREEN}1{RESET}\x1B[5;1H")
    );
}

#[test]
fn renderer_second_render_with_changed_state_updates_only_changed_cells() {
    let mut renderer = Renderer::new();
    let grid = Grid::new(5, 5);
    let first_snake =
        Snake::new(Point::new(2, 2), grid.geometry()).expect("snake should fit in grid");
    let second_snake =
        Snake::new(Point::new(3, 2), grid.geometry()).expect("snake should fit in grid");
    let mut first_out = Vec::new();
    let mut second_out = Vec::new();

    renderer.render_to(&mut first_out, &grid, &first_snake, 0);
    renderer.render_to(&mut second_out, &grid, &second_snake, 0);

    let output = String::from_utf8(second_out).expect("render should be utf-8");

    assert!(!output.contains("\x1B[2J"));
    assert_eq!(
        output,
        format!(
            "\x1B[1;1H{FG_DIM}Score{RESET} {FG_GREEN}0{RESET}\x1B[3;3H \x1B[3;4H{FG_GREEN}▀{RESET}\x1B[5;1H"
        )
    );
}

#[test]
fn render_cell_prefers_snake_over_grid_contents() {
    let mut grid = Grid::new(5, 5);
    grid.change_cell(&point(2, 2), GridCell::Food);
    let snake = Snake::new(Point::new(2, 2), grid.geometry()).expect("snake should fit in grid");

    assert!(matches!(
        RenderCell::new(&grid, &snake, &point(2, 2)),
        RenderCell::Snake
    ));
}

#[test]
fn render_cell_reads_food_wall_and_empty_from_grid() {
    let mut grid = Grid::new(5, 5);
    let snake = Snake::new(Point::new(1, 1), grid.geometry()).expect("snake should fit in grid");
    grid.change_cell(&point(2, 2), GridCell::Food);

    assert!(matches!(
        RenderCell::new(&grid, &snake, &point(2, 2)),
        RenderCell::Food
    ));
    assert!(matches!(
        RenderCell::new(&grid, &snake, &point(0, 0)),
        RenderCell::Wall
    ));
    assert!(matches!(
        RenderCell::new(&grid, &snake, &point(3, 3)),
        RenderCell::Empty
    ));
}

#[test]
fn renderer_to_color_returns_expected_palette() {
    assert_eq!(
        RenderCell::Food.to_color(),
        Some(Color {
            fg: FG_RED,
            bg: BG_RED,
        })
    );
    assert_eq!(
        RenderCell::Snake.to_color(),
        Some(Color {
            fg: FG_GREEN,
            bg: BG_GREEN,
        })
    );
    assert_eq!(
        RenderCell::Wall.to_color(),
        Some(Color {
            fg: FG_BRIGHT_BLACK,
            bg: BG_BRIGHT_BLACK,
        })
    );
    assert_eq!(RenderCell::Empty.to_color(), None);
}

fn game_at(start: Point) -> Game {
    game_with_geometry(5, 5, start)
}

fn game_with_geometry(width: i32, height: i32, start: Point) -> Game {
    let grid = Grid::new(width, height);
    let snake = Snake::new(start, grid.geometry()).expect("snake should fit in grid");
    Game::new(grid, snake, 0)
}

#[test]
fn render_cell_reads_snake_wall_and_empty_from_game_and_grid() {
    let game = game_at(Point::new(1, 1));

    assert!(matches!(
        RenderCell::in_game(&game, &point(1, 1)),
        RenderCell::Snake
    ));
    assert!(matches!(
        RenderCell::in_game(&game, &point(0, 0)),
        RenderCell::Wall
    ));
    assert!(matches!(
        RenderCell::in_game(&game, &point(3, 3)),
        RenderCell::Empty
    ));
}

#[test]
fn game_render_grid_writes_mixed_cells_with_cursor_moves() {
    let mut renderer = Renderer::new();
    let game = game_with_geometry(5, 6, Point::new(2, 2));
    let mut out = Vec::new();

    renderer.render_game_to(&mut out, &game, game.score());

    let output = String::from_utf8(out).expect("grid should be utf-8");

    assert!(output.contains(" "));
    assert!(output.contains("█"));
    assert!(output.contains("▀"));
    assert!(output.contains("▄"));
    assert!(output.contains("\x1B[2;1H"));
    assert!(output.contains("\x1B[3;3H"));
    assert!(!output.contains("\r\n"));
}

#[test]
fn game_render_shows_food_of_the_game() {
    let mut renderer = Renderer::new();
    let mut game = game_at(Point::new(1, 1));
    game.spawn_food_at(&point(3, 3));
    let mut out = Vec::new();

    renderer.render_game_to(&mut out, &game, 0);

    let output = String::from_utf8(out).expect("render should be utf-8");

    assert!(matches!(
        RenderCell::in_game(&game, &point(3, 3)),
        RenderCell::Food
    ));
    assert!(output.contains(&format!("\x1B[3;4H{FG_RED}▄{RESET}")));
}

#[test]
fn render_redraws_everything_when_dimensions_change() {
    let mut renderer = Renderer::new();
    let small = Grid::new(5, 5);
    let large = Grid::new(6, 7);
    let snake = Snake::new(Point::new(2, 2), small.geometry()).expect("snake should fit in grid");
    let mut first_out = Vec::new();
    let mut second_out = Vec::new();

    renderer.render_to(&mut first_out, &small, &snake, 0);
    renderer.render_to(&mut second_out, &large, &snake, 0);

    let output = String::from_utf8(second_out).expect("render should be utf-8");

    assert!(output.starts_with("\x1B[2J\x1B[1;1H"));
    assert!(output.contains("\x1B[5;6H"));
    assert!(output.ends_with("\x1B[6;1H"));
}

#[test]
fn a_board_without_rows_renders_only_the_score_line() {
    let mut renderer = Renderer::new();
    let grid = Grid::new(0, -2);
    let snake = Snake::new(Point::new(0, 0), snake::grid_geometry::GridGeometry::new(3, 3))
        .expect("snake should fit in its own board");
    let mut first_out = Vec::new();
    let mut second_out = Vec::new();

    renderer.render_to(&mut first_out, &grid, &snake, 0);
    renderer.render_to(&mut second_out, &grid, &snake, 0);

    assert_eq!(
        String::from_utf8(first_out).expect("utf-8"),
        format!("\x1B[2J\x1B[1;1H{FG_DIM}Score{RESET} {FG_GREEN}0{RESET}\x1B[2;1H")
    );
    assert_eq!(
        String::from_utf8(second_out).expect("utf-8"),
        format!("\x1B[1;1H{FG_DIM}Score{RESET} {FG_GREEN}0{RESET}\x1B[2;1H")
    );
}

#[test]
fn a_board_of_negative_width_without_rows_renders_only_the_score_line() {
    let mut renderer = Renderer::new();
    let grid = Grid::new(-1, -1);
    let snake = Snake::new(Point::new(0, 0), snake::grid_geometry::GridGeometry::new(3, 3))
        .expect("snake should fit in its own board");
    let mut out = Vec::new();

    renderer.render_to(&mut out, &grid, &snake, 5);

    assert_eq!(
        String::from_utf8(out).expect("utf-8"),
        format!("\x1B[2J\x1B[1;1H{FG_DIM}Score{RESET} {FG_GREEN}5{RESET}\x1B[2;1H")
    );
}
