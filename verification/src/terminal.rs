use vstd::prelude::*;

verus! {

/// A key as the game reads it; keys it has no use for are `Other`.
#[derive(Debug, Clone, Copy, PartialEq, Eq, Structural)]
pub enum KeyCode {
    Up,
    Down,
    Left,
    Right,
    Esc,
    Enter,
    Char(char),
    Other,
}

/// Whether a key went down, repeats while held, or came up.
#[derive(Debug, Clone, Copy, PartialEq, Eq, Structural)]
pub enum KeyEventKind {
    Press,
    Repeat,
    Release,
}

/// A key event: the key and what happened to it.
#[derive(Debug, Clone, Copy, PartialEq, Eq, Structural)]
pub struct KeyEvent {
    pub code: KeyCode,
    pub kind: KeyEventKind,
}

impl KeyEvent {
    pub fn new_with_kind(code: KeyCode, kind: KeyEventKind) -> (event: KeyEvent)
        ensures
            event == (KeyEvent { code, kind }),
    {
        KeyEvent { code, kind }
    }
}

/// A terminal event: a key, a resize to columns and rows, or anything else.
#[derive(Debug, Clone, Copy, PartialEq, Eq, Structural)]
pub enum Event {
    Key(KeyEvent),
    Resize(u16, u16),
    Other,
}

/// What the player asks for at the keyboard.
#[derive(Debug, Clone, Copy, PartialEq, Eq, Structural)]
pub enum TerminalCommand {
    Escape,
    Space,
    Up,
    Down,
    Left,
    Right,
}

/// The key of an event, for key presses only.
pub open spec fn spec_key_code(event: Event) -> Option<KeyCode> {
    match event {
        Event::Key(key) => if key.kind == KeyEventKind::Press {
            Some(key.code)
        } else {
            None
        },
        _ => None,
    }
}

/// The command a key stands for: the arrows, escape, and the space bar.
pub open spec fn spec_command(key_code: KeyCode) -> Option<TerminalCommand> {
    match key_code {
        KeyCode::Up => Some(TerminalCommand::Up),
        KeyCode::Down => Some(TerminalCommand::Down),
        KeyCode::Left => Some(TerminalCommand::Left),
        KeyCode::Right => Some(TerminalCommand::Right),
        KeyCode::Esc => Some(TerminalCommand::Escape),
        KeyCode::Char(c) => if c == ' ' {
            Some(TerminalCommand::Space)
        } else {
            None
        },
        _ => None,
    }
}

/// Turns terminal events into commands.
pub struct Terminal {}

impl Default for Terminal {
    fn default() -> (terminal: Terminal)
        ensures
            terminal == (Terminal {  }),
    {
        Terminal {  }
    }
}

impl Terminal {
    /// The command that `event` asks for, if any.
    pub fn command_from_event(&self, event: Event) -> (command: Option<TerminalCommand>)
        ensures
            command == (match spec_key_code(event) {
                Some(key) => spec_command(key),
                None => None,
            }),
    {
        if let Some(key) = self.key_code_from_event(event) {
            return self.key_to_command(key);
        }
        None
    }

    /// The key of a key press; other events, repeats and releases give `None`.
    pub fn key_code_from_event(&self, event: Event) -> (key: Option<KeyCode>)
        ensures
            key == spec_key_code(event),
    {
        match event {
            Event::Key(key) => {
                if key.kind == KeyEventKind::Press {
                    Some(key.code)
                } else {
                    None
                }
            },
            _ => None,
        }
    }

    pub fn key_to_command(&self, key_code: KeyCode) -> (command: Option<TerminalCommand>)
        ensures
            command == spec_command(key_code),
    {
        match key_code {
            KeyCode::Up => Some(TerminalCommand::Up),
            KeyCode::Down => Some(TerminalCommand::Down),
            KeyCode::Left => Some(TerminalCommand::Left),
            KeyCode::Right => Some(TerminalCommand::Right),
            KeyCode::Esc => Some(TerminalCommand::Escape),
            KeyCode::Char(c) => {
                if c == ' ' {
                    Some(TerminalCommand::Space)
                } else {
                    None
                }
            },
            _ => None,
        }
    }
}

} // verus!
