use snake::terminal::{Event, KeyCode, KeyEvent, KeyEventKind, Terminal, TerminalCommand};

#[test]
fn terminal_key_code_from_event_reads_only_press_events() {
    let terminal = Terminal::default();
    let press_event = Event::Key(KeyEvent::new_with_kind(KeyCode::Up, KeyEventKind::Press));
    let repeat_event = Event::Key(KeyEvent::new_with_kind(KeyCode::Up, KeyEventKind::Repeat));
    let release_event = Event::Key(KeyEvent::new_with_kind(KeyCode::Up, KeyEventKind::Release));

    assert_eq!(terminal.key_code_from_event(press_event), Some(KeyCode::Up));
    assert_eq!(terminal.key_code_from_event(repeat_event), None);
    assert_eq!(terminal.key_code_from_event(release_event), None);
    assert_eq!(terminal.key_code_from_event(Event::Resize(80, 24)), None);
}

#[test]
fn terminal_key_to_command_maps_arrow_keys_escape_and_pause() {
    let terminal = Terminal::default();

    assert!(matches!(
        terminal.key_to_command(KeyCode::Up),
        Some(TerminalCommand::Up)
    ));
    assert!(matches!(
        terminal.key_to_command(KeyCode::Down),
        Some(TerminalCommand::Down)
    ));
    assert!(matches!(
        terminal.key_to_command(KeyCode::Left),
        Some(TerminalCommand::Left)
    ));
    assert!(matches!(
        terminal.key_to_command(KeyCode::Right),
        Some(TerminalCommand::Right)
    ));
    assert!(matches!(
        terminal.key_to_command(KeyCode::Esc),
        Some(TerminalCommand::Escape)
    ));
    assert!(matches!(
        terminal.key_to_command(KeyCode::Char(' ')),
        Some(TerminalCommand::Space)
    ));
}

#[test]
fn terminal_key_to_command_ignores_unhandled_keys() {
    let terminal = Terminal::default();

    assert!(terminal.key_to_command(KeyCode::Enter).is_none());
}

#[test]
fn command_from_event_ignores_other_characters_and_releases() {
    let terminal = Terminal::default();

    assert_eq!(
        terminal.command_from_event(Event::Key(KeyEvent::new_with_kind(
            KeyCode::Char(' '),
            KeyEventKind::Press
        ))),
        Some(TerminalCommand::Space)
    );
    assert_eq!(
        terminal.command_from_event(Event::Key(KeyEvent::new_with_kind(
            KeyCode::Char('q'),
            KeyEventKind::Press
        ))),
        None
    );
    assert_eq!(
        terminal.command_from_event(Event::Key(KeyEvent::new_with_kind(
            KeyCode::Esc,
            KeyEventKind::Release
        ))),
        None
    );
    assert_eq!(terminal.command_from_event(Event::Other), None);
}
