use snake::web::{DEFAULT_HEIGHT, DEFAULT_START_X, DEFAULT_START_Y, DEFAULT_WIDTH, WebGame};

#[test]
fn new_uses_default_configuration() {
    let game = WebGame::new().expect("default web game should initialize");

    assert_eq!(game.width(), DEFAULT_WIDTH);
    assert_eq!(game.height(), DEFAULT_HEIGHT);
    assert_eq!(game.head_x(), DEFAULT_START_X);
    assert_eq!(game.head_y(), DEFAULT_START_Y);
    assert_eq!(game.score(), 0);
    assert_eq!(game.cell_at(DEFAULT_START_X, DEFAULT_START_Y), 3);
}

#[test]
fn cell_at_reports_snake_wall_empty_and_out_of_bounds() {
    let game = WebGame::with_config(8, 8, 3, 3, 0).expect("web game should initialize");

    assert_eq!(game.cell_at(3, 3), 3);
    assert_eq!(game.cell_at(0, 0), 1);
    assert_eq!(game.cell_at(4, 3), 0);
    assert_eq!(game.cell_at(-1, 0), u8::MAX);
}

#[test]
fn movement_methods_update_direction_and_head_position() {
    let mut move_up =
        WebGame::with_config(8, 8, 3, 3, 0).expect("web game should initialize in bounds");
    move_up.move_down();
    move_up.move_left();
    move_up.move_up();
    assert!(move_up.tick());
    assert_eq!((move_up.head_x(), move_up.head_y()), (3, 2));

    let mut move_down =
        WebGame::with_config(8, 8, 3, 3, 0).expect("web game should initialize in bounds");
    move_down.move_down();
    assert!(move_down.tick());
    assert_eq!((move_down.head_x(), move_down.head_y()), (3, 4));

    let mut move_left =
        WebGame::with_config(8, 8, 3, 3, 0).expect("web game should initialize in bounds");
    move_left.move_down();
    move_left.move_left();
    assert!(move_left.tick());
    assert_eq!((move_left.head_x(), move_left.head_y()), (2, 3));

    let mut move_right =
        WebGame::with_config(8, 8, 3, 3, 0).expect("web game should initialize in bounds");
    move_right.move_down();
    move_right.move_right();
    assert!(move_right.tick());
    assert_eq!((move_right.head_x(), move_right.head_y()), (4, 3));
}

#[test]
fn tick_returns_false_when_game_is_over() {
    let mut game =
        WebGame::with_config(4, 4, 3, 1, 0).expect("web game should initialize in bounds");

    assert!(!game.tick());
    assert_eq!((game.head_x(), game.head_y()), (4, 1));
}

#[test]
fn with_config_rejects_a_start_outside_the_board() {
    match WebGame::with_config(8, 8, 8, 3, 0) {
        Ok(_) => panic!("a start outside the board must be refused"),
        Err(message) => assert_eq!(message, "Starting point outside the grid bounds"),
    }
}

#[test]
fn web_can_tick_inside_the_board() {
    let game = WebGame::with_config(8, 8, 3, 3, 0).expect("web game should initialize");

    assert!(game.can_tick());
}
