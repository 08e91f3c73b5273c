use vlawn::input::{InputEditor, InputMode};
use vlawn::message::ForwardPayload;

fn typed(s: &str) -> InputEditor {
    let mut e = InputEditor::new();
    for c in s.chars() {
        e.enter_char(c);
    }
    e
}

#[test]
fn new_editor_is_empty_and_normal() {
    let e = InputEditor::new();
    assert!(e.input.is_empty());
    assert_eq!(e.character_index, 0);
    assert!(matches!(e.input_mode, InputMode::Normal));
}

#[test]
fn entering_characters_advances_the_cursor() {
    let e = typed("hi");
    assert_eq!(e.input, vec!['h', 'i']);
    assert_eq!(e.character_index, 2);
}

#[test]
fn cursor_moves_are_clamped() {
    let mut e = typed("ab");
    e.move_cursor_right();
    assert_eq!(e.character_index, 2);
    e.move_cursor_left();
    e.move_cursor_left();
    e.move_cursor_left();
    assert_eq!(e.character_index, 0);
}

#[test]
fn insertion_at_cursor_position() {
    let mut e = typed("ac");
    e.move_cursor_left();
    e.enter_char('b');
    assert_eq!(e.input, vec!['a', 'b', 'c']);
    assert_eq!(e.character_index, 2);
}

#[test]
fn delete_char_removes_before_cursor() {
    let mut e = typed("abc");
    e.move_cursor_left();
    e.delete_char();
    assert_eq!(e.input, vec!['a', 'c']);
    assert_eq!(e.character_index, 1);
}

#[test]
fn delete_char_at_start_does_nothing() {
    let mut e = typed("abc");
    e.reset_cursor();
    e.delete_char();
    assert_eq!(e.input, vec!['a', 'b', 'c']);
    assert_eq!(e.character_index, 0);
}

#[test]
fn delete_forward_removes_at_cursor() {
    let mut e = typed("abc");
    e.reset_cursor();
    e.delete_forward();
    assert_eq!(e.input, vec!['b', 'c']);
    assert_eq!(e.character_index, 0);
}

#[test]
fn delete_forward_at_end_does_nothing() {
    let mut e = typed("ab");
    e.delete_forward();
    assert_eq!(e.input, vec!['a', 'b']);
    assert_eq!(e.character_index, 2);
}

#[test]
fn submit_returns_the_typed_text_and_clears() {
    let mut e = typed("hello ☃");
    let r = e.submit_message();
    match r {
        Some(ForwardPayload::Text(s)) => assert_eq!(s, "hello ☃"),
        other => panic!("expected submitted text, got {:?}", other),
    }
    assert!(e.input.is_empty());
    assert_eq!(e.character_index, 0);
}

#[test]
fn submit_of_blank_input_yields_nothing() {
    let mut e = typed("  \t ");
    assert!(e.submit_message().is_none());
    assert!(e.input.is_empty());
    assert_eq!(e.character_index, 0);
}

#[test]
fn submit_of_empty_input_yields_nothing() {
    let mut e = InputEditor::new();
    assert!(e.submit_message().is_none());
}

#[test]
fn submit_of_unicode_whitespace_input_yields_nothing() {
    let mut e = typed("\u{000B}\u{00A0}\u{2003}\u{3000}");
    assert!(e.submit_message().is_none());
    assert!(e.input.is_empty());
    assert_eq!(e.character_index, 0);
}

#[test]
fn submit_keeps_text_with_inner_whitespace() {
    let mut e = typed(" a b ");
    match e.submit_message() {
        Some(ForwardPayload::Text(s)) => assert_eq!(s, " a b "),
        other => panic!("expected submitted text, got {:?}", other),
    }
}
