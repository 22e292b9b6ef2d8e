// The views that a front end keeps of its buffers.

use swiboe::gui::buffer_views::{split_lines, BufferView, BufferViewError, BufferViews, Cursor, Position};
use swiboe::gui::keymap_handler::Key;
use swiboe::gui::terminal::{clamp, key_action, CompleterState, CompleterWidget, KeyAction, TerminalKey};
use swiboe::rpc;

#[test]
fn lines_of_a_text() {
    assert_eq!(split_lines("blub\nblah\nbli"), vec!["blub", "blah", "bli"]);
    assert_eq!(split_lines(""), vec![""]);
    assert_eq!(split_lines("a\n"), vec!["a", ""]);
    assert_eq!(split_lines("ö\n\nü"), vec!["ö", "", "ü"]);
}

#[test]
fn scrolling_stays_within_the_text() {
    let mut view = BufferView::with_ids("v".to_string(), "c".to_string(), 80, 24, "a\nb\nc\nd");
    assert_eq!(view.id(), "v");
    assert_eq!(view.top_line_index, 0);
    view.scroll(2);
    assert_eq!(view.top_line_index, 2);
    view.scroll(10);
    assert_eq!(view.top_line_index, 3);
    view.scroll(-10);
    assert_eq!(view.top_line_index, 0);
}

#[test]
fn cursors_move_to_the_nearest_place() {
    let mut views = BufferViews::new();
    let view = BufferView::with_ids("v".to_string(), "c".to_string(), 80, 24, "abc\nde\nf");
    assert_eq!(views.insert_view(view), "v");
    assert_eq!(views.move_cursor("c", Position { line_index: 1, column_index: 5 }), Ok(()));
    let cursor = &views.get(&"v".to_string()).unwrap().cursor;
    assert_eq!(cursor.id(), "c");
    assert_eq!(cursor.wanted_position, Position { line_index: 1, column_index: 5 });
    assert_eq!(cursor.position, Position { line_index: 1, column_index: 1 });

    assert_eq!(views.move_cursor("c", Position { line_index: -5, column_index: -3 }), Ok(()));
    let cursor = &views.get(&"v".to_string()).unwrap().cursor;
    assert_eq!(cursor.position, Position { line_index: 0, column_index: 2 });

    assert_eq!(views.move_cursor("nobody", Position { line_index: 1, column_index: 0 }), Err(BufferViewError::UnknownCursor));
    let err = BufferViewError::UnknownCursor.to_rpc_error();
    assert_eq!(err.kind, rpc::ErrorKind::InvalidArgs);
    assert_eq!(err.details, Some("\"unknown_cursor\"".to_string()));
}

#[test]
fn views_by_identifier() {
    let mut views = BufferViews::new();
    let id = views.new_view("x\ny", 10, 5);
    assert_eq!(id.chars().count(), 36);
    assert!(views.scroll(&id, 1));
    assert_eq!(views.get(&id).unwrap().top_line_index, 1);
    assert!(!views.scroll(&"missing".to_string(), 1));
    let other = views.new_view("", 10, 5);
    assert_ne!(id, other);
    let cursor = Cursor::new();
    assert_eq!(cursor.id().chars().count(), 36);
    assert_eq!(Position { line_index: 1, column_index: 2 }.add(Position { line_index: 3, column_index: -4 }),
        Position { line_index: 4, column_index: -2 });
}

#[test]
fn terminal_keys() {
    assert_eq!(key_action(TerminalKey::Char('q')), KeyAction::Quit);
    assert_eq!(key_action(TerminalKey::Char('x')), KeyAction::Press(Key::Char('x')));
    assert_eq!(key_action(TerminalKey::Ctrl('t')), KeyAction::OpenCompleter);
    assert_eq!(key_action(TerminalKey::Ctrl('g')), KeyAction::PressCtrl(Some(Key::Char('g'))));
    assert_eq!(key_action(TerminalKey::Ctrl('q')), KeyAction::PressCtrl(None));
    assert_eq!(key_action(TerminalKey::Esc), KeyAction::Timeout);
    assert_eq!(key_action(TerminalKey::Up), KeyAction::Press(Key::Up));
    assert_eq!(key_action(TerminalKey::Tab), KeyAction::Press(Key::Tab));
    assert_eq!(key_action(TerminalKey::Enter), KeyAction::Ignore);
}

#[test]
fn clamping() {
    let mut v: isize = -3;
    clamp(0, 4, &mut v);
    assert_eq!(v, 0);
    let mut v: isize = 9;
    clamp(0, 4, &mut v);
    assert_eq!(v, 4);
    let mut v: isize = 2;
    clamp(0, 4, &mut v);
    assert_eq!(v, 2);
    let mut v: isize = 2;
    clamp(5, 1, &mut v);
    assert_eq!(v, 1);
}

#[test]
fn completer_picks_a_file() {
    let mut completer = CompleterWidget::new();
    assert_eq!(completer.on_key(TerminalKey::Enter), CompleterState::Canceled);
    for c in "a b".chars() {
        assert_eq!(completer.on_key(TerminalKey::Char(c)), CompleterState::Running);
    }
    assert_eq!(completer.query_to_use(), vec!['a', 'b']);
    assert_eq!(completer.on_key(TerminalKey::Backspace), CompleterState::Running);
    assert_eq!(completer.query(), &vec!['a', ' ']);
    completer.set_results(vec!["src/a.rs".to_string(), "src/b.rs".to_string()]);
    assert_eq!(completer.on_key(TerminalKey::Down), CompleterState::Running);
    assert_eq!(completer.on_key(TerminalKey::Down), CompleterState::Running);
    assert_eq!(completer.selection_index(), 2);
    assert_eq!(completer.on_key(TerminalKey::Enter), CompleterState::Selected("src/b.rs".to_string()));
    assert_eq!(completer.selection_index(), 1);
    assert_eq!(completer.on_key(TerminalKey::Up), CompleterState::Running);
    assert_eq!(completer.on_key(TerminalKey::Up), CompleterState::Running);
    completer.set_results(vec!["x".to_string()]);
    assert_eq!(completer.selection_index(), 0);
    assert_eq!(completer.on_key(TerminalKey::Esc), CompleterState::Canceled);
    assert_eq!(completer.results(), &vec!["x".to_string()]);
}

#[test]
fn cursor_columns_count_characters() {
    let mut views = BufferViews::new();
    let view = BufferView::with_ids("v".to_string(), "cid".to_string(), 80, 24, "äö");
    views.insert_view(view);
    assert_eq!(views.move_cursor("cid", Position { line_index: 0, column_index: 5 }), Ok(()));
    let cursor = &views.get(&"v".to_string()).unwrap().cursor;
    assert_eq!(cursor.wanted_position, Position { line_index: 0, column_index: 5 });
    assert_eq!(cursor.position, Position { line_index: 0, column_index: 1 });
}

#[test]
fn completer_drops_all_white_space() {
    let mut completer = CompleterWidget::new();
    for c in "a\u{3000}b\tc\u{a0}d\u{200b}".chars() {
        completer.on_key(TerminalKey::Char(c));
    }
    // U+200B is no white space.
    assert_eq!(completer.query_to_use(), vec!['a', 'b', 'c', 'd', '\u{200b}']);
    for c in "x y".chars() {
        assert_eq!(c.is_whitespace(), c == ' ');
    }
}
