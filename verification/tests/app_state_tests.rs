use qmk_tui::app::{
    Action, App, AppCommand, KeyCode, KeyEvent, KeyboardDiscovery, TextInput, WorkerMessage,
};
use qmk_tui::cli::Cli;
use qmk_tui::qmk::{Keyboard, KeyboardSource, QmkCommandOutput, QmkError};

fn key(code: KeyCode) -> KeyEvent {
    KeyEvent::from(code)
}

fn found() -> KeyboardDiscovery {
    KeyboardDiscovery::Found(vec![
        Keyboard { name: String::from("planck/rev6"), source: KeyboardSource::QmkRepo },
        Keyboard { name: String::from("acme/mini"), source: KeyboardSource::Userspace },
    ])
}

fn app_with(keyboard: &str, keymap: Option<&str>, discovery: KeyboardDiscovery) -> App {
    let cli = Cli {
        qmk_home: None,
        keyboard: Some(keyboard.to_string()),
        keymap: keymap.map(|k| k.to_string()),
    };
    App::from_cli(cli, None, discovery)
}

#[test]
fn starts_with_settings_and_discovered_keyboards() {
    let app = app_with("planck/rev6", None, found());
    assert_eq!(app.inputs()[0].value(), "");
    assert_eq!(app.inputs()[1].value(), "planck/rev6");
    assert_eq!(app.inputs()[1].cursor_column(), 11);
    assert_eq!(app.inputs()[2].value(), "default");
    assert_eq!(app.inputs()[0].label(), "QMK home");
    assert_eq!(app.inputs()[0].placeholder(), "Optional, e.g. ~/qmk_firmware");
    assert_eq!(app.focused_input_index(), Some(1));
    assert_eq!(app.status(), "Ready");
    assert_eq!(app.keyboard_status(), "1 userspace, 1 QMK repo");
    assert_eq!(app.keyboard_rows().len(), 4);
    assert_eq!(app.keyboard_count(), 2);
    assert_eq!(app.selected_keyboard_row_index(), Some(1));
    assert_eq!(app.log_text(), "Fill keyboard/keymap, then press Enter, c, or f.");
    assert!(!app.is_running());
    assert!(!app.should_quit());
}

#[test]
fn focus_and_action_selection_cycle() {
    let mut app = app_with("k", None, KeyboardDiscovery::NoHome);
    assert!(matches!(app.handle_key_event(key(KeyCode::Tab)), AppCommand::Nothing));
    assert_eq!(app.focused_input_index(), Some(2));
    app.handle_key_event(key(KeyCode::Tab));
    assert!(app.is_action_focused());
    app.handle_key_event(key(KeyCode::Down));
    assert_eq!(app.selected_action(), Action::Flash);
    app.handle_key_event(key(KeyCode::Down));
    assert_eq!(app.selected_action_index(), 0);
    app.handle_key_event(key(KeyCode::Up));
    assert_eq!(app.selected_action(), Action::Flash);
    app.handle_key_event(key(KeyCode::Tab));
    assert!(app.is_keyboard_list_focused());
    app.handle_key_event(key(KeyCode::Tab));
    assert_eq!(app.focused_input_index(), Some(0));
    app.handle_key_event(key(KeyCode::BackTab));
    assert!(app.is_keyboard_list_focused());
    app.handle_key_event(key(KeyCode::Tab));
    app.handle_key_event(key(KeyCode::Tab));
    assert_eq!(app.focused_input_index(), Some(1));
}

#[test]
fn keyboard_selection_skips_headers_and_wraps() {
    let mut app = app_with("k", None, found());
    for _ in 0..3 {
        app.handle_key_event(key(KeyCode::Tab));
    }
    assert!(app.is_keyboard_list_focused());
    assert_eq!(app.selected_keyboard_row_index(), Some(1));
    app.handle_key_event(key(KeyCode::Down));
    assert_eq!(app.selected_keyboard_row_index(), Some(3));
    app.handle_key_event(key(KeyCode::Down));
    assert_eq!(app.selected_keyboard_row_index(), Some(1));
    app.handle_key_event(key(KeyCode::Up));
    assert_eq!(app.selected_keyboard_row_index(), Some(3));
    app.handle_key_event(key(KeyCode::Down));
    app.handle_key_event(key(KeyCode::Up));
    assert_eq!(app.selected_keyboard_row_index(), Some(3));
    assert!(matches!(app.handle_key_event(key(KeyCode::Enter)), AppCommand::Nothing));
    assert_eq!(app.inputs()[1].value(), "planck/rev6");
    assert_eq!(app.focused_input_index(), Some(2));
    assert_eq!(app.status(), "Selected planck/rev6");
}

#[test]
fn typing_edits_the_focused_input() {
    let mut app = app_with("abc", None, KeyboardDiscovery::NoHome);
    app.handle_key_event(key(KeyCode::Left));
    assert_eq!(app.inputs()[1].cursor_column(), 2);
    app.handle_key_event(key(KeyCode::Delete));
    assert_eq!(app.inputs()[1].value(), "ab");
    app.handle_key_event(key(KeyCode::Left));
    app.handle_key_event(key(KeyCode::Backspace));
    assert_eq!(app.inputs()[1].value(), "b");
    assert_eq!(app.inputs()[1].cursor_column(), 0);
    app.handle_key_event(key(KeyCode::Right));
    assert!(matches!(app.handle_key_event(key(KeyCode::Char('q'))), AppCommand::Nothing));
    assert!(matches!(app.handle_key_event(key(KeyCode::Char('c'))), AppCommand::Nothing));
    assert_eq!(app.inputs()[1].value(), "bqc");
    assert!(!app.should_quit());
}

#[test]
fn quit_keys() {
    let mut app = app_with("k", None, KeyboardDiscovery::NoHome);
    assert!(matches!(app.handle_key_event(key(KeyCode::Esc)), AppCommand::Quit));
    assert!(matches!(
        app.handle_key_event(KeyEvent::new(KeyCode::Char('c'), true)),
        AppCommand::Quit
    ));
    app.handle_key_event(key(KeyCode::Tab));
    app.handle_key_event(key(KeyCode::Tab));
    assert!(matches!(app.handle_key_event(key(KeyCode::Char('q'))), AppCommand::Quit));
    app.quit();
    assert!(app.should_quit());
}

#[test]
fn refresh_keys_ask_for_discovery() {
    let mut app = app_with("k", None, found());
    assert!(matches!(app.handle_key_event(key(KeyCode::F(5))), AppCommand::RefreshKeyboards));
    assert!(matches!(app.handle_key_event(key(KeyCode::Char('r'))), AppCommand::Nothing));
    assert_eq!(app.inputs()[1].value(), "kr");
    app.handle_key_event(key(KeyCode::Tab));
    app.handle_key_event(key(KeyCode::Tab));
    assert!(matches!(app.handle_key_event(key(KeyCode::Char('r'))), AppCommand::RefreshKeyboards));
    app.refresh_keyboards(KeyboardDiscovery::Failed(QmkError::Io(String::from("boom"))));
    assert_eq!(app.keyboard_status(), "failed to run qmk: boom");
    assert!(app.keyboard_rows().is_empty());
    assert_eq!(app.selected_keyboard_row_index(), None);
    assert!(app.log_text().ends_with("\nKeyboard discovery error: failed to run qmk: boom"));
    app.refresh_keyboards(KeyboardDiscovery::NoHome);
    assert_eq!(app.keyboard_status(), "Set QMK home or create ~/qmk_firmware");
}

#[test]
fn runs_an_action_once_and_records_its_output() {
    let mut app = app_with(" planck/rev6 ", None, KeyboardDiscovery::NoHome);
    app.handle_key_event(key(KeyCode::Tab));
    app.handle_key_event(key(KeyCode::Tab));
    match app.handle_key_event(key(KeyCode::Char('c'))) {
        AppCommand::Run(action, request) => {
            assert_eq!(action, Action::Compile);
            assert_eq!(request.keyboard, " planck/rev6 ");
            assert_eq!(request.keymap, "default");
            assert_eq!(request.qmk_home, None);
        }
        other => panic!("unexpected command {:?}", other),
    }
    assert!(app.is_running());
    assert_eq!(app.status(), "Running Compile keymap");
    assert!(app.log_text().ends_with("\n$ qmk compile -kb planck/rev6 -km default"));
    assert!(matches!(app.handle_key_event(key(KeyCode::Char('f'))), AppCommand::Nothing));
    assert_eq!(app.status(), "A QMK command is already running");

    app.handle_worker_message(WorkerMessage::Finished {
        action: Action::Compile,
        output: Ok(QmkCommandOutput {
            status_code: Some(0),
            stdout: String::from("ok\r\nbuilt"),
            stderr: String::new(),
        }),
    });
    assert!(!app.is_running());
    assert_eq!(app.status(), "Compile keymap finished successfully");
    assert!(app.log_text().ends_with("\nstdout:\nok\nbuilt"));

    app.handle_worker_message(WorkerMessage::Finished {
        action: Action::Flash,
        output: Ok(QmkCommandOutput {
            status_code: Some(2),
            stdout: String::new(),
            stderr: String::from("no device"),
        }),
    });
    assert_eq!(app.status(), "Flash keyboard failed with status 2");
    assert!(app.log_text().ends_with("\nstderr:\nno device"));

    app.handle_worker_message(WorkerMessage::Finished {
        action: Action::Flash,
        output: Ok(QmkCommandOutput { status_code: None, stdout: String::new(), stderr: String::new() }),
    });
    assert_eq!(app.status(), "Flash keyboard failed with status unknown");

    app.handle_worker_message(WorkerMessage::Finished {
        action: Action::Flash,
        output: Err(QmkError::Io(String::from("qmk not found"))),
    });
    assert_eq!(app.status(), "failed to run qmk: qmk not found");
    assert!(app.log_text().ends_with("\nError: failed to run qmk: qmk not found"));
}

#[test]
fn input_errors_are_reported() {
    let mut app = app_with("x", Some("  "), KeyboardDiscovery::NoHome);
    assert!(matches!(app.handle_key_event(key(KeyCode::Enter)), AppCommand::Nothing));
    assert_eq!(app.status(), "keymap is required");
    assert!(app.log_text().ends_with("\nInput error: keymap is required"));

    let cli = Cli {
        qmk_home: Some(String::from("~/no-such-qmk-dir")),
        keyboard: Some(String::from("x")),
        keymap: None,
    };
    let mut app = App::from_cli(cli, Some(String::from("/no-such-home")), KeyboardDiscovery::NoHome);
    assert!(matches!(app.handle_key_event(key(KeyCode::Enter)), AppCommand::Nothing));
    assert_eq!(app.status(), "QMK home directory does not exist: /no-such-home/no-such-qmk-dir");
    assert!(!app.is_running());
}

#[test]
fn discovery_home_follows_the_first_input() {
    let cli = Cli { qmk_home: Some(String::from(" /srv/qmk ")), keyboard: None, keymap: None };
    let app = App::from_cli(cli, None, KeyboardDiscovery::NoHome);
    assert_eq!(app.keyboard_discovery_home(), Some(String::from("/srv/qmk")));
    assert_eq!(app.keyboard_status(), "Set QMK home or create ~/qmk_firmware");
}

#[test]
fn text_input_editing() {
    let mut input = TextInput::new("Keymap", "default", "ab");
    input.move_left();
    input.insert('é');
    assert_eq!(input.value(), "aéb");
    assert_eq!(input.cursor_column(), 2);
    input.move_right();
    input.move_right();
    assert_eq!(input.cursor_column(), 3);
    input.delete();
    assert_eq!(input.value(), "aéb");
    input.set_value("xyz");
    assert_eq!(input.cursor_column(), 3);
    input.move_left();
    input.move_left();
    input.move_left();
    input.move_left();
    input.backspace();
    assert_eq!(input.value(), "xyz");
    input.delete();
    assert_eq!(input.value(), "yz");
}

#[test]
fn shown_text_and_cursor_cell() {
    let empty = TextInput::new("Keymap", "default", "");
    assert_eq!(empty.shown_text(), "default");
    let input = TextInput::new("Keyboard", "kb", "planck/rev6");
    assert_eq!(input.shown_text(), "planck/rev6");
    assert_eq!(input.cursor_column_in(40), 11);
    assert_eq!(input.cursor_column_in(10), 7);
    assert_eq!(input.cursor_column_in(2), 0);
}
