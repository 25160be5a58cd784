use pairs_rs::session::{
    App, InputMode, KeyEvent, PopupMsg, PopupSeverity, Screen, SessionAction, TitleButtons,
};

fn type_word(app: &mut App, word: &str) {
    for c in word.chars() {
        assert_eq!(app.handle_key(KeyEvent::Char(c)), SessionAction::Continue);
    }
}

fn name_entry_app() -> App {
    let mut app = App::default();
    app.curr_screen = Screen::PlayerNameInput;
    app.input_mode = InputMode::TextEntry;
    app
}

#[test]
fn title_cursor_wraps_after_three_downs() {
    let mut app = App::default();
    assert_eq!(app.curr_index, 0);
    app.handle_key(KeyEvent::Down);
    assert_eq!(app.curr_index, 1);
    app.handle_key(KeyEvent::Down);
    assert_eq!(app.curr_index, 2);
    app.handle_key(KeyEvent::Down);
    assert_eq!(app.curr_index, 0, "three downs over three buttons wrap around");
    assert_eq!(app.curr_index_mod, 3);
}

#[test]
fn title_cursor_wraps_upward_too() {
    let mut app = App::default();
    app.handle_key(KeyEvent::Up);
    assert_eq!(app.curr_index, 2);
    app.handle_key(KeyEvent::Left);
    assert_eq!(app.curr_index, 1);
    app.handle_key(KeyEvent::Right);
    assert_eq!(app.curr_index, 2);
}

#[test]
fn title_enter_follows_the_selected_button() {
    let mut app = App::default();
    assert_eq!(app.handle_key(KeyEvent::Enter), SessionAction::Continue);
    assert_eq!(app.curr_screen, Screen::PlayerCountInput);

    let mut app = App::default();
    app.handle_key(KeyEvent::Down);
    assert_eq!(app.handle_key(KeyEvent::Enter), SessionAction::Continue);
    assert_eq!(app.curr_screen, Screen::Options);

    let mut app = App::default();
    app.handle_key(KeyEvent::Up);
    assert_eq!(app.handle_key(KeyEvent::Enter), SessionAction::Exit);
    assert_eq!(app.curr_screen, Screen::Title);
}

#[test]
fn normal_mode_keys_enter_text_entry_or_quit() {
    let mut app = App::default();
    app.curr_screen = Screen::PlayerNameInput;
    assert_eq!(app.handle_key(KeyEvent::Char('e')), SessionAction::Continue);
    assert!(matches!(app.input_mode, InputMode::TextEntry));

    let mut app = App::default();
    app.curr_screen = Screen::PlayerCountInput;
    assert_eq!(app.handle_key(KeyEvent::Char('q')), SessionAction::Exit);

    let mut app = App::default();
    app.curr_screen = Screen::PlayerCountInput;
    assert_eq!(app.handle_key(KeyEvent::Char('x')), SessionAction::Continue);
    assert!(matches!(app.input_mode, InputMode::Normal));
}

#[test]
fn empty_name_raises_warn_popup_and_adds_nothing() {
    let mut app = name_entry_app();
    assert_eq!(app.handle_key(KeyEvent::Enter), SessionAction::Continue);
    let popup = app.popup.as_ref().expect("a warning is shown");
    assert_eq!(popup.msg, "Name is required.");
    assert!(matches!(popup.severity, PopupSeverity::Warn));
    assert!(app.ui_var.player_names.is_empty());
}

#[test]
fn accepted_name_is_appended_and_buffer_cleared() {
    let mut app = name_entry_app();
    type_word(&mut app, "Alice");
    assert_eq!(app.input, "Alice");
    app.handle_key(KeyEvent::Enter);
    assert_eq!(app.ui_var.player_names, vec!["Alice".to_string()]);
    assert_eq!(app.input, "");
    assert!(app.popup.is_none());
}

#[test]
fn duplicate_name_is_rejected_with_warn_popup() {
    let mut app = name_entry_app();
    type_word(&mut app, "Alice");
    app.handle_key(KeyEvent::Enter);
    type_word(&mut app, "Alice");
    app.handle_key(KeyEvent::Enter);
    let popup = app.popup.as_ref().expect("a warning is shown");
    assert_eq!(popup.msg, "Name \"Alice\" already exists.");
    assert!(matches!(popup.severity, PopupSeverity::Warn));
    assert_eq!(app.ui_var.player_names, vec!["Alice".to_string()]);
}

#[test]
fn names_are_trimmed_before_checks_and_storage() {
    let mut app = name_entry_app();
    type_word(&mut app, "  Bob  ");
    app.handle_key(KeyEvent::Enter);
    assert_eq!(app.ui_var.player_names, vec!["Bob".to_string()]);
    // a name that is whitespace only counts as empty
    type_word(&mut app, "   ");
    app.handle_key(KeyEvent::Enter);
    let popup = app.popup.as_ref().expect("a warning is shown");
    assert_eq!(popup.msg, "Name is required.");
    assert_eq!(app.ui_var.player_names, vec!["Bob".to_string()]);
}

#[test]
fn backspace_removes_the_last_character() {
    let mut app = name_entry_app();
    type_word(&mut app, "ab");
    app.handle_key(KeyEvent::Backspace);
    assert_eq!(app.input, "a");
    app.handle_key(KeyEvent::Backspace);
    app.handle_key(KeyEvent::Backspace);
    assert_eq!(app.input, "");
}

#[test]
fn escape_leaves_text_entry_but_keeps_the_buffer() {
    let mut app = name_entry_app();
    type_word(&mut app, "Carol");
    app.handle_key(KeyEvent::Esc);
    assert!(matches!(app.input_mode, InputMode::Normal));
    assert_eq!(app.input, "Carol");
}

#[test]
fn popup_is_cleared_by_the_very_next_event() {
    let mut app = name_entry_app();
    app.handle_key(KeyEvent::Enter);
    assert!(app.popup.is_some());
    app.handle_key(KeyEvent::Esc);
    assert!(app.popup.is_none());
}

#[test]
fn popup_constructors_carry_text_and_severity() {
    let p = PopupMsg::new("hi".to_string(), PopupSeverity::Info);
    assert_eq!(p.msg, "hi");
    assert!(matches!(p.severity, PopupSeverity::Info));
    assert!(matches!(
        PopupMsg::info("a".to_string()).severity,
        PopupSeverity::Info
    ));
    assert!(matches!(
        PopupMsg::warn("b".to_string()).severity,
        PopupSeverity::Warn
    ));
    assert!(matches!(
        PopupMsg::err("c".to_string()).severity,
        PopupSeverity::Error
    ));
}

#[test]
fn defaults_start_at_the_title_screen() {
    let app = App::default();
    assert!(matches!(app.curr_screen, Screen::Title));
    assert!(matches!(app.input_mode, InputMode::Normal));
    assert!(app.popup.is_none());
    assert_eq!(app.input, "");
    assert_eq!(app.curr_index, 0);
    assert_eq!(app.curr_index_mod, 1);
    assert!(app.ui_var.player_names.is_empty());
    assert_eq!(
        app.ui_defaults.all_buttons,
        vec![TitleButtons::Start, TitleButtons::Options, TitleButtons::Exit]
    );
    assert_eq!(TitleButtons::Start.label(), "Start");
    assert_eq!(TitleButtons::Options.label(), "Options");
    assert_eq!(TitleButtons::Exit.label(), "Exit");
}
