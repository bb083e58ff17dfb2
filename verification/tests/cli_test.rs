use snake::cli::{Cli, RunResult};
use snake::game::Game;
use snake::grid::{Grid, Point};
use snake::renderer::Renderer;
use snake::snake::Snake;
use snake::terminal::{Terminal, TerminalCommand};

fn cli_at(start: Point) -> Cli {
    let grid = Grid::new(8, 8);
    let snake = Snake::new(start, grid.geometry()).expect("snake should fit in grid");
    let game = Game::new(grid, snake, 0);
    Cli::new(game, Terminal::default(), Renderer::new())
}

#[test]
fn start_draws_the_whole_board() {
    let mut cli = cli_at(Point::new(3, 3));
    let mut out = Vec::new();

    cli.start(&mut out);

    let output = String::from_utf8(out).expect("render should be utf-8");
    assert!(output.starts_with("\x1B[2J\x1B[1;1H"));
    assert!(output.ends_with("\x1B[6;1H"));
}

#[test]
fn escape_quits_with_the_score_and_draws_nothing() {
    let mut cli = cli_at(Point::new(3, 3));
    let mut out = Vec::new();

    let outcome = cli.step(Some(TerminalCommand::Escape), &mut out);

    assert_eq!(outcome, Some(RunResult::Quit { score: 0 }));
    assert!(out.is_empty());
    assert_eq!(cli.game().snake().head(), Point::new(3, 3));
}

#[test]
fn a_step_without_command_moves_the_snake() {
    let mut cli = cli_at(Point::new(3, 3));
    let mut out = Vec::new();

    assert_eq!(cli.step(None, &mut out), None);
    assert_eq!(cli.game().snake().head(), Point::new(4, 3));
    assert!(!out.is_empty());
}

#[test]
fn arrows_turn_the_snake_before_the_tick() {
    let mut cli = cli_at(Point::new(3, 3));
    let mut out = Vec::new();

    assert_eq!(cli.step(Some(TerminalCommand::Down), &mut out), None);
    assert_eq!(cli.game().snake().head(), Point::new(3, 4));
}

#[test]
fn space_pauses_and_resumes() {
    let mut cli = cli_at(Point::new(3, 3));
    let mut out = Vec::new();

    assert_eq!(cli.step(Some(TerminalCommand::Space), &mut out), None);
    assert!(cli.is_paused());
    assert_eq!(cli.game().snake().head(), Point::new(3, 3));

    assert_eq!(cli.step(None, &mut out), None);
    assert_eq!(cli.game().snake().head(), Point::new(3, 3));

    assert_eq!(cli.step(Some(TerminalCommand::Space), &mut out), None);
    assert!(!cli.is_paused());
    assert_eq!(cli.game().snake().head(), Point::new(4, 3));
}

#[test]
fn hitting_the_wall_ends_the_session() {
    let mut cli = cli_at(Point::new(6, 3));
    let mut out = Vec::new();

    assert_eq!(
        cli.step(None, &mut out),
        Some(RunResult::GameOver { score: 0 })
    );
    assert!(!out.is_empty());
}

#[test]
fn every_round_of_a_running_session_can_be_taken() {
    let mut cli = cli_at(Point::new(2, 2));
    let mut out = Vec::new();
    let commands = [
        None,
        Some(TerminalCommand::Down),
        None,
        Some(TerminalCommand::Space),
        Some(TerminalCommand::Left),
        Some(TerminalCommand::Space),
        None,
        Some(TerminalCommand::Up),
    ];

    for command in commands {
        assert!(cli.can_continue(command));
        assert_eq!(cli.step(command, &mut out), None);
    }
    assert!(cli.can_continue(Some(TerminalCommand::Escape)));
    assert_eq!(
        cli.step(Some(TerminalCommand::Escape), &mut out),
        Some(RunResult::Quit { score: 0 })
    );
}
