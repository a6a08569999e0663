use tff::app::{App, Mode};
use tff::line::{Key, KeyCode};

fn app_with_line() -> App {
    let mut app = App::new(Vec::new(), Vec::new(), false);
    app.start_edit_output();
    app
}

fn press(app: &mut App, code: KeyCode, modifiers: u8) {
    app.text_input_handle_key(Key { code, modifiers });
}

fn text(app: &App) -> String {
    app.typed_text().unwrap()
}

/// The line opens with the text it is given and the cursor behind it.
#[test]
fn line_opens_with_the_cursor_at_its_end() {
    let mut app = app_with_line();
    assert_eq!(text(&app), "output.mkv");
    press(&mut app, KeyCode::Char('x'), 0);
    assert_eq!(text(&app), "output.mkvx");
}

#[test]
fn line_is_edited_at_its_cursor() {
    let mut app = app_with_line();
    for _ in 0..4 {
        press(&mut app, KeyCode::Left, 0);
    }
    press(&mut app, KeyCode::Char('é'), 0);
    assert_eq!(text(&app), "outputé.mkv");
    press(&mut app, KeyCode::Backspace, 0);
    press(&mut app, KeyCode::Delete, 0);
    assert_eq!(text(&app), "outputmkv");
    press(&mut app, KeyCode::Home, 0);
    press(&mut app, KeyCode::Char('a'), 0);
    assert_eq!(text(&app), "aoutputmkv");
    press(&mut app, KeyCode::End, 0);
    press(&mut app, KeyCode::Char('z'), 0);
    assert_eq!(text(&app), "aoutputmkvz");
}

/// What was cut can be put back.
#[test]
fn line_is_cut_and_pasted() {
    let mut app = app_with_line();
    press(&mut app, KeyCode::Home, 0);
    press(&mut app, KeyCode::Right, 0);
    press(&mut app, KeyCode::Char('k'), 2);
    assert_eq!(text(&app), "o");
    press(&mut app, KeyCode::Char('y'), 2);
    assert_eq!(text(&app), "output.mkv");
}

/// Keys that edit nothing leave the line as it is.
#[test]
fn other_keys_leave_the_line() {
    let mut app = app_with_line();
    press(&mut app, KeyCode::PageUp, 0);
    press(&mut app, KeyCode::Other, 0);
    assert_eq!(text(&app), "output.mkv");
    app.cancel_text_input();
    assert!(matches!(app.mode, Mode::Normal));
    assert_eq!(app.typed_text(), None);
}

/// Control and `u` empties the line, and what was cut comes back.
#[test]
fn line_is_emptied() {
    let mut app = app_with_line();
    press(&mut app, KeyCode::Left, 0);
    press(&mut app, KeyCode::Char('u'), 2);
    assert_eq!(text(&app), "");
    press(&mut app, KeyCode::Delete, 0);
    press(&mut app, KeyCode::Backspace, 0);
    press(&mut app, KeyCode::Char('y'), 2);
    assert_eq!(text(&app), "output.mkv");
}

/// Cuts in a row add up, each on its side; a key in between starts anew, and
/// what is put back stays cut.
#[test]
fn cuts_in_a_row_are_put_back_together() {
    let mut app = app_with_line();
    for _ in 0..4 {
        press(&mut app, KeyCode::Left, 0);
    }
    press(&mut app, KeyCode::Char('k'), 2);
    assert_eq!(text(&app), "output");
    press(&mut app, KeyCode::Char('u'), 2);
    assert_eq!(text(&app), "");
    press(&mut app, KeyCode::Char('y'), 2);
    assert_eq!(text(&app), "output.mkv");
    press(&mut app, KeyCode::Char('y'), 2);
    assert_eq!(text(&app), "output.mkvoutput.mkv");
    press(&mut app, KeyCode::Home, 0);
    press(&mut app, KeyCode::Char('x'), 0);
    press(&mut app, KeyCode::Char('u'), 2);
    press(&mut app, KeyCode::Char('a'), 0);
    press(&mut app, KeyCode::Char('u'), 2);
    press(&mut app, KeyCode::Char('y'), 2);
    assert_eq!(text(&app), "a");
}

/// A line that was just opened has nothing to put back.
#[test]
fn fresh_line_has_nothing_cut() {
    let mut app = app_with_line();
    press(&mut app, KeyCode::Char('y'), 2);
    assert_eq!(text(&app), "output.mkv");
}
