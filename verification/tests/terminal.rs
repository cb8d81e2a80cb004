use rata_tea::{is_key_event, is_key_press, KeyKind, TermEventKind};

#[test]
fn only_key_presses_pass_the_press_filter() {
    assert!(is_key_press(TermEventKind::Key(KeyKind::Press)));
    assert!(!is_key_press(TermEventKind::Key(KeyKind::Repeat)));
    assert!(!is_key_press(TermEventKind::Key(KeyKind::Release)));
    assert!(!is_key_press(TermEventKind::Other));
}

#[test]
fn every_key_event_passes_the_key_filter() {
    assert!(is_key_event(TermEventKind::Key(KeyKind::Release)));
    assert!(is_key_event(TermEventKind::Key(KeyKind::Press)));
    assert!(!is_key_event(TermEventKind::Other));
}
