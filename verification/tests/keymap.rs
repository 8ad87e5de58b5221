use eddy::keymap::{command_for_key, Key};
use eddy::Command;

#[test]
fn enter_breaks_the_line_whatever_is_held() {
    assert_eq!(command_for_key(Key::Return, Some('\r'), false, false, false, false), Some(Command::InsertNewline));
    assert_eq!(command_for_key(Key::KpEnter, None, true, true, true, true), Some(Command::InsertNewline));
}

#[test]
fn delete_and_backspace_act_without_modifiers_or_with_shift() {
    assert_eq!(command_for_key(Key::Delete, None, false, false, false, false), Some(Command::DeleteForward));
    assert_eq!(command_for_key(Key::Delete, None, false, false, false, true), Some(Command::DeleteForward));
    assert_eq!(command_for_key(Key::BackSpace, None, false, false, false, false), Some(Command::DeleteBackward));
    assert_eq!(command_for_key(Key::BackSpace, Some('\u{8}'), false, true, false, false), None);
}

#[test]
fn tab_inserts_only_without_shift() {
    assert_eq!(command_for_key(Key::Tab, Some('\t'), false, false, false, false), Some(Command::InsertTab));
    assert_eq!(command_for_key(Key::Tab, Some('\t'), false, false, false, true), None);
}

#[test]
fn arrows_move_and_shift_extends() {
    assert_eq!(command_for_key(Key::Up, None, false, false, false, false), Some(Command::MoveUp));
    assert_eq!(command_for_key(Key::Down, None, false, false, false, true), Some(Command::MoveDownAndModifySelection));
    assert_eq!(command_for_key(Key::Left, None, false, true, false, false), Some(Command::MoveWordLeft));
    assert_eq!(command_for_key(Key::Right, None, false, true, false, true), Some(Command::MoveWordRightAndModifySelection));
    assert_eq!(command_for_key(Key::Up, None, false, true, false, false), None);
    assert_eq!(command_for_key(Key::Left, None, true, false, false, false), None);
}

#[test]
fn home_end_and_page_keys() {
    assert_eq!(command_for_key(Key::Home, None, false, false, false, false), Some(Command::MoveToLeftEndOfLine));
    assert_eq!(command_for_key(Key::End, None, false, false, false, true), Some(Command::MoveToRightEndOfLineAndModifySelection));
    assert_eq!(command_for_key(Key::Home, None, false, true, false, true), Some(Command::MoveToBeginningOfDocumentAndModifySelection));
    assert_eq!(command_for_key(Key::End, None, false, true, false, false), Some(Command::MoveToEndOfDocument));
    assert_eq!(command_for_key(Key::PageUp, None, false, false, false, false), Some(Command::PageUp));
    assert_eq!(command_for_key(Key::PageDown, None, false, false, false, true), Some(Command::PageDownAndModifySelection));
    assert_eq!(command_for_key(Key::PageDown, None, false, true, false, false), None);
}

#[test]
fn control_shortcuts() {
    assert_eq!(command_for_key(Key::Other, Some('a'), false, true, false, false), Some(Command::SelectAll));
    assert_eq!(command_for_key(Key::Other, Some('c'), false, true, false, false), Some(Command::Copy));
    assert_eq!(command_for_key(Key::Other, Some('x'), false, true, false, false), Some(Command::Cut));
    assert_eq!(command_for_key(Key::Other, Some('v'), false, true, false, false), Some(Command::Paste));
    assert_eq!(command_for_key(Key::Other, Some('s'), false, true, false, false), Some(Command::Save));
    assert_eq!(command_for_key(Key::Other, Some('z'), false, true, false, false), Some(Command::Undo));
    assert_eq!(command_for_key(Key::Other, Some('Z'), false, true, false, true), Some(Command::Redo));
    assert_eq!(command_for_key(Key::Other, Some('Z'), false, true, false, false), None);
    assert_eq!(command_for_key(Key::Other, Some('f'), false, true, false, false), None);
    assert_eq!(command_for_key(Key::Other, Some('t'), false, true, false, false), None);
}

#[test]
fn typed_characters_are_inserted() {
    assert_eq!(command_for_key(Key::Other, Some('q'), false, false, false, false), Some(Command::Insert('q')));
    assert_eq!(command_for_key(Key::Other, Some('Q'), false, false, false, true), Some(Command::Insert('Q')));
    assert_eq!(command_for_key(Key::Other, Some(' '), false, false, false, false), Some(Command::Insert(' ')));
    assert_eq!(command_for_key(Key::Other, Some('\u{1b}'), false, false, false, false), None);
    assert_eq!(command_for_key(Key::Other, Some('q'), true, false, false, false), None);
    assert_eq!(command_for_key(Key::Other, Some('q'), false, false, true, false), None);
    assert_eq!(command_for_key(Key::Other, None, false, false, false, false), None);
}
