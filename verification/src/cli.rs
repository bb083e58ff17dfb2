use crate::game::{Game, GameCommand, GameModel, GameResult};
use crate::grid::Point;
use crate::renderer::{drawable, game_scene, Renderer, RendererModel};
use crate::snake::{opposite, Direction};
use crate::terminal::{Terminal, TerminalCommand};
use vstd::prelude::*;

verus! {

/// How an interactive session ended, with the score at that moment.
#[derive(Debug, Clone, Copy, PartialEq, Eq, Structural)]
pub enum RunResult {
    GameOver { score: usize },
    Quit { score: usize },
}

/// The decisions of an interactive session in the terminal: which input to wait
/// for, what a command does to the game, when to tick, when to stop, and what to
/// draw. Reading keys, writing the bytes and sleeping are left to the caller.
pub struct Cli {
    game: Game,
    terminal: Terminal,
    renderer: Renderer,
    paused: bool,
}

/// A session, mathematically.
pub struct CliModel {
    pub game: GameModel,
    pub renderer: RendererModel,
    pub paused: bool,
}

/// The direction an arrow command asks for.
pub open spec fn spec_direction(command: TerminalCommand) -> Option<Direction> {
    match command {
        TerminalCommand::Up => Some(Direction::Up),
        TerminalCommand::Down => Some(Direction::Down),
        TerminalCommand::Left => Some(Direction::Left),
        TerminalCommand::Right => Some(Direction::Right),
        _ => None,
    }
}

/// The game once `command` has been passed on: arrows turn the snake, anything
/// else leaves it.
pub open spec fn commanded_game(game: GameModel, command: Option<TerminalCommand>) -> GameModel {
    match command {
        Some(c) => match spec_direction(c) {
            Some(direction) => game.commanded(direction),
            None => game,
        },
        None => game,
    }
}

/// `out` grew by the bytes of a render of `game`, and the renderer went from
/// `before` to `after` by drawing it.
pub open spec fn rendered(
    before: RendererModel,
    after: RendererModel,
    game: GameModel,
    out_before: Seq<u8>,
    out_after: Seq<u8>,
) -> bool {
    let width = game.grid.geometry.width as int;
    let height = game.grid.geometry.height as int;
    &&& out_after == out_before + before.render_bytes(game_scene(game), width, height, game.score())
    &&& before.drew(after, game_scene(game), width, height)
}

/// The head is at least one cell away from the limits of `i32`, so it can move
/// in any direction.
pub open spec fn head_clear_of_limits(game: GameModel) -> bool {
    let head = game.snake.head();
    i32::MIN < head.x < i32::MAX && i32::MIN < head.y < i32::MAX
}

/// The round with `command` ticks the game: the command is not Escape and the
/// session is running once the command is handled.
pub open spec fn round_ticks(cli: CliModel, command: Option<TerminalCommand>) -> bool {
    command != Some(TerminalCommand::Escape) && cli.paused == (command == Some(
        TerminalCommand::Space,
    ))
}

/// The round with `command` can be taken: when it ticks, the head can take its
/// step in the direction it has once the command is handled, and the snake's
/// length leaves room for one more segment.
pub open spec fn round_possible(cli: CliModel, command: Option<TerminalCommand>) -> bool {
    &&& round_ticks(cli, command) ==> commanded_game(cli.game, command).can_tick()
    &&& cli.game.snake.logical_len() < usize::MAX
}

/// The snake's head lies on the board. A session keeps this from round to round
/// for as long as it goes on, and it lets every round take its step.
pub open spec fn on_board(game: GameModel) -> bool {
    game.grid.geometry.spec_in_bounds(game.snake.head())
}

/// A head on a board whose dimensions are `i32` values can take a step in any
/// direction: once a round has ticked and the game goes on, the next round can
/// be taken whatever command it reads, as far as the head goes.
pub proof fn law_head_on_board_can_step(game: GameModel, command: Option<TerminalCommand>)
    requires
        on_board(game),
    ensures
        head_clear_of_limits(game),
        commanded_game(game, command).can_tick(),
{
}

/// A session whose head lies on the board can take its next round, whatever
/// command it reads, while the snake's length leaves room for one more segment.
/// With the invariant of `step`, every round of a session that started with the
/// head on the board can be taken, up to that machine limit.
pub proof fn law_session_round_possible(cli: CliModel, command: Option<TerminalCommand>)
    requires
        on_board(cli.game),
        cli.game.snake.logical_len() < usize::MAX,
    ensures
        round_possible(cli, command),
{
    law_head_on_board_can_step(cli.game, command);
}

/// The direction after asking `current` to turn to `requested`: a reversal is ignored.
fn turned_direction(current: Direction, requested: Direction) -> (direction: Direction)
    ensures
        direction == (if requested == opposite(current) {
            current
        } else {
            requested
        }),
{
    match (current, requested) {
        (Direction::Down, Direction::Up) => current,
        (Direction::Up, Direction::Down) => current,
        (Direction::Left, Direction::Right) => current,
        (Direction::Right, Direction::Left) => current,
        _ => requested,
    }
}

impl View for Cli {
    type V = CliModel;

    closed spec fn view(&self) -> CliModel {
        CliModel { game: self.game@, renderer: self.renderer@, paused: self.paused }
    }
}

impl Cli {
    /// The game and the renderer are consistent, and the board has dimensions
    /// that can be drawn.
    pub closed spec fn wf(&self) -> bool {
        &&& self.game.wf()
        &&& self.renderer.wf()
        &&& drawable(self.game@.grid.geometry.width as int, self.game@.grid.geometry.height as int)
    }

    /// A session that plays `game`, running (not paused).
    pub fn new(game: Game, terminal: Terminal, renderer: Renderer) -> (cli: Cli)
        requires
            game.wf(),
            renderer.wf(),
            drawable(game@.grid.geometry.width as int, game@.grid.geometry.height as int),
        ensures
            cli.wf(),
            cli@ == (CliModel { game: game@, renderer: renderer@, paused: false }),
    {
        Cli { game, terminal, renderer, paused: false }
    }

    /// The game being played.
    pub fn game(&self) -> (game: &Game)
        requires
            self.wf(),
        ensures
            game.wf(),
            game@ == self@.game,
    {
        &self.game
    }

    /// The terminal that turns events into commands.
    pub fn terminal(&self) -> (terminal: &Terminal)
        ensures
            *terminal == (Terminal {  }),
    {
        &self.terminal
    }

    /// While paused the session blocks for the next key; else it only polls.
    pub fn is_paused(&self) -> (paused: bool)
        ensures
            paused == self@.paused,
    {
        self.paused
    }

    /// The round with `command` can be taken.
    pub fn can_continue(&self, command: Option<TerminalCommand>) -> (ok: bool)
        requires
            self.wf(),
        ensures
            ok == round_possible(self@, command),
    {
        let snake = self.game.snake();
        let current = snake.direction();
        let direction = match command {
            Some(TerminalCommand::Up) => turned_direction(current, Direction::Up),
            Some(TerminalCommand::Down) => turned_direction(current, Direction::Down),
            Some(TerminalCommand::Left) => turned_direction(current, Direction::Left),
            Some(TerminalCommand::Right) => turned_direction(current, Direction::Right),
            _ => current,
        };
        let head = snake.head();
        let can_step = match direction {
            Direction::Up => head.y > i32::MIN,
            Direction::Down => head.y < i32::MAX,
            Direction::Left => head.x > i32::MIN,
            Direction::Right => head.x < i32::MAX,
        };
        let escape = match command {
            Some(TerminalCommand::Escape) => true,
            _ => false,
        };
        let space = match command {
            Some(TerminalCommand::Space) => true,
            _ => false,
        };
        let ticks = !escape && self.paused == space;
        (!ticks || can_step) && self.game.score_fits() && self.game.score() < usize::MAX - 1
    }

    /// Draws the game as it starts.
    pub fn start(&mut self, out: &mut Vec<u8>)
        requires
            old(self).wf(),
            old(self)@.game.snake.logical_len() <= usize::MAX,
        ensures
            final(self).wf(),
            final(self)@.game == old(self)@.game,
            final(self)@.paused == old(self)@.paused,
            rendered(old(self)@.renderer, final(self)@.renderer, old(self)@.game, old(out)@, final(out)@),
    {
        let score = self.game.score();
        self.renderer.render_game_to(out, &self.game, score);
    }

    /// One round of the session with the command read this round, if any.
    /// Escape ends the session at once. Space pauses or resumes. An arrow turns
    /// the snake. Then, unless paused, the game ticks; when the tick ends the
    /// game, the final state is drawn and the session ends. Otherwise the game is
    /// drawn and the session goes on (`None`); the caller sleeps between rounds
    /// that are not paused.
    pub fn step(&mut self, command: Option<TerminalCommand>, out: &mut Vec<u8>) -> (outcome: Option<RunResult>)
        requires
            old(self).wf(),
            round_possible(old(self)@, command),
        ensures
            final(self).wf(),
            on_board(old(self)@.game) && outcome is None ==> on_board(final(self)@.game),
            command == Some(TerminalCommand::Escape) ==> {
                &&& outcome == Some(RunResult::Quit { score: old(self)@.game.score() as usize })
                &&& final(self)@ == old(self)@
                &&& final(out)@ == old(out)@
            },
            command != Some(TerminalCommand::Escape) ==> {
                let paused = old(self)@.paused != (command == Some(TerminalCommand::Space));
                let turned = commanded_game(old(self)@.game, command);
                &&& final(self)@.paused == paused
                &&& paused ==> final(self)@.game == turned && outcome is None
                &&& !paused ==> turned.ticks_to(final(self)@.game)
                &&& !paused ==> outcome == (if turned.ends_on_move() {
                    Some(RunResult::GameOver { score: final(self)@.game.score() as usize })
                } else {
                    None
                })
                &&& !paused && outcome is None ==> on_board(final(self)@.game)
                &&& rendered(old(self)@.renderer, final(self)@.renderer, final(self)@.game, old(out)@, final(out)@)
            },
    {
        if let Some(command) = command {
            match command {
                TerminalCommand::Escape => {
                    return Some(RunResult::Quit { score: self.game.score() });
                },
                TerminalCommand::Down => self.game.apply_command(GameCommand::Move(Direction::Down)),
                TerminalCommand::Up => self.game.apply_command(GameCommand::Move(Direction::Up)),
                TerminalCommand::Left => self.game.apply_command(GameCommand::Move(Direction::Left)),
                TerminalCommand::Right => self.game.apply_command(GameCommand::Move(Direction::Right)),
                TerminalCommand::Space => {
                    self.paused = !self.paused;
                },
            }
        }
        if !self.paused {
            proof {
                self.game.lemma_wf_facts();
                lemma_tick_keeps_length_bound(self.game@);
            }
            let ghost before_tick = self.game@;
            if let GameResult::GameOver = self.game.tick() {
                let score = self.game.score();
                self.renderer.render_game_to(out, &self.game, score);
                return Some(RunResult::GameOver { score });
            }
            proof {
                crate::game::law_running_tick_keeps_head_on_board(before_tick, self.game@);
            }
        }
        let score = self.game.score();
        self.renderer.render_game_to(out, &self.game, score);
        None
    }
}

/// A tick adds at most one segment to the snake's length.
proof fn lemma_tick_keeps_length_bound(game: GameModel)
    requires
        game.snake.body.len() >= 1,
    ensures
        forall|next: GameModel| #[trigger] game.ticks_to(next) ==> next.snake.logical_len() <= game.snake.logical_len() + 1,
{
    assert forall|next: GameModel| #[trigger] game.ticks_to(next) implies next.snake.logical_len() <= game.snake.logical_len() + 1 by {
        crate::game::law_tick_adds_at_most_one_food(game, next);
        assert(game.after_move().snake.logical_len() <= game.snake.logical_len() + 1);
    }
}

} // verus!
