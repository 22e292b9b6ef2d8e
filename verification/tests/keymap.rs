// Key presses turned into mappings.

use swiboe::gui::keymap_handler::{Chord, Key, KeymapHandler, Mapping};

// The time between two presses, given in seconds.
fn after(seconds: f64) -> u64 {
    (seconds * 1e9).round() as u64
}

#[test]
fn test_simple_coord() {
    let mut keymap_handler = KeymapHandler::new();
    let mut arpeggio = Vec::new();
    arpeggio.push(Chord::with(Key::Up).and(Key::Down));
    keymap_handler.insert(Mapping::new(arpeggio));

    let mut v = false;
    v |= keymap_handler.key_down(after(1000.), Key::Down).is_some();
    v |= keymap_handler.key_down(after(20e-3), Key::Up).is_some();
    assert_eq!(v, true);
}

#[test]
fn test_simple_arpeggio() {
    let mut keymap_handler = KeymapHandler::new();
    let mut arpeggio = Vec::new();
    arpeggio.push(Chord::with(Key::Char(',')));
    arpeggio.push(Chord::with(Key::Char('g')));
    arpeggio.push(Chord::with(Key::Char('f')));
    keymap_handler.insert(Mapping::new(arpeggio));

    let mut v = false;
    v |= keymap_handler.key_down(after(1000.), Key::Char(',')).is_some();
    v |= keymap_handler.key_down(after(80e-3), Key::Char('g')).is_some();
    v |= keymap_handler.key_down(after(80e-3), Key::Char('f')).is_some();
    assert_eq!(v, true);
}

#[test]
fn test_arpeggio_with_chords() {
    let mut keymap_handler = KeymapHandler::new();
    let mut arpeggio = Vec::new();
    arpeggio.push(Chord::with(Key::Char('g')).and(Key::Ctrl));
    arpeggio.push(Chord::with(Key::Char(',')));
    arpeggio.push(Chord::with(Key::Char('f')));
    keymap_handler.insert(Mapping::new(arpeggio));

    let mut v = false;
    v |= keymap_handler.key_down(after(1000.), Key::Char('g')).is_some();
    v |= keymap_handler.key_down(after(80e-3), Key::Ctrl).is_some();
    v |= keymap_handler.key_down(after(80e-3), Key::Char(',')).is_some();
    v |= keymap_handler.key_down(after(80e-3), Key::Char('f')).is_some();
    assert_eq!(v, false);

    v |= keymap_handler.timeout().is_some();
    v |= keymap_handler.key_down(after(1000.), Key::Char('g')).is_some();
    v |= keymap_handler.key_down(after(40e-3), Key::Ctrl).is_some();
    v |= keymap_handler.key_down(after(80e-3), Key::Char(',')).is_some();
    v |= keymap_handler.key_down(after(80e-3), Key::Char('f')).is_some();
    assert_eq!(v, true);
}

#[test]
fn test_char_from_string() {
    assert_eq!(Some(Key::Up), Key::from_str("<UP>"));
    assert_eq!(Some(Key::Ctrl), Key::from_str("<CTrl>"));
    assert_eq!(Some(Key::Char('ö')), Key::from_str("ö"));
}

#[test]
fn key_names_in_any_case() {
    assert_eq!(Some(Key::Down), Key::from_str("<Down>"));
    assert_eq!(Some(Key::Left), Key::from_str("<LEFT>"));
    assert_eq!(Some(Key::Right), Key::from_str("<right>"));
    // A single character is read in lower case.
    assert_eq!(Some(Key::Char('a')), Key::from_str("A"));
    assert_eq!(Some(Key::Char('ö')), Key::from_str("Ö"));
    assert_eq!(None, Key::from_str("ab"));
    assert_eq!(None, Key::from_str(""));
    assert_eq!(None, Key::from_str("<pageup>"));
}

#[test]
fn presses_within_the_window_form_one_chord() {
    assert!(Chord::with(Key::Up).and(Key::Down).same_keys(&Chord::with(Key::Down).and(Key::Up)));
    assert!(!Chord::with(Key::Up).same_keys(&Chord::with(Key::Up).and(Key::Ctrl)));

    let mut keymap_handler = KeymapHandler::new();
    keymap_handler.insert(Mapping::new(vec![Chord::with(Key::Up), Chord::with(Key::Down)]));
    keymap_handler.insert(Mapping::new(vec![Chord::with(Key::Up).and(Key::Down)]));
    assert_eq!(keymap_handler.key_down(after(1.), Key::Up), None);
    // 50 ms is no longer within the window: a new chord starts.
    assert_eq!(keymap_handler.key_down(50_000_000, Key::Down), Some(0));
    assert_eq!(keymap_handler.timeout(), Some(0));
    assert_eq!(keymap_handler.check_if_current_key_match(), None);
    assert_eq!(keymap_handler.key_down(after(1.), Key::Up), None);
    // 49.999999 ms is.
    assert_eq!(keymap_handler.key_down(49_999_999, Key::Down), Some(1));
}

#[test]
fn two_equal_mappings_trigger_nothing() {
    let mut keymap_handler = KeymapHandler::new();
    keymap_handler.insert(Mapping::new(vec![Chord::with(Key::Char('x'))]));
    keymap_handler.insert(Mapping::new(vec![Chord::with(Key::Char('x'))]));
    assert_eq!(keymap_handler.key_down(after(1.), Key::Char('x')), None);
}
