//! Which editor command a key press asks for, given the key, the character
//! it types and the modifiers held down.
use vstd::prelude::*;

verus! {

/// The keys that have a command of their own; every other key is `Other`
/// and only the character it types counts.
#[derive(Debug, Clone, Copy, PartialEq, Eq, Structural)]
pub enum Key {
    Delete,
    BackSpace,
    Return,
    KpEnter,
    Tab,
    Up,
    Down,
    Left,
    Right,
    Home,
    End,
    PageUp,
    PageDown,
    Other,
}

/// An editor command on the view that has the focus.
#[derive(Debug, Clone, Copy, PartialEq, Eq, Structural)]
pub enum Command {
    DeleteForward,
    DeleteBackward,
    InsertNewline,
    InsertTab,
    MoveUp,
    MoveDown,
    MoveLeft,
    MoveRight,
    MoveUpAndModifySelection,
    MoveDownAndModifySelection,
    MoveLeftAndModifySelection,
    MoveRightAndModifySelection,
    MoveWordLeft,
    MoveWordRight,
    MoveWordLeftAndModifySelection,
    MoveWordRightAndModifySelection,
    MoveToLeftEndOfLine,
    MoveToRightEndOfLine,
    MoveToLeftEndOfLineAndModifySelection,
    MoveToRightEndOfLineAndModifySelection,
    MoveToBeginningOfDocument,
    MoveToEndOfDocument,
    MoveToBeginningOfDocumentAndModifySelection,
    MoveToEndOfDocumentAndModifySelection,
    PageUp,
    PageDown,
    PageUpAndModifySelection,
    PageDownAndModifySelection,
    SelectAll,
    Copy,
    Cut,
    Paste,
    Save,
    Undo,
    Redo,
    Insert(char),
}

/// The move a key makes with no modifier held.
pub open spec fn plain_move(key: Key) -> Option<Command> {
    match key {
        Key::Up => Some(Command::MoveUp),
        Key::Down => Some(Command::MoveDown),
        Key::Left => Some(Command::MoveLeft),
        Key::Right => Some(Command::MoveRight),
        Key::Home => Some(Command::MoveToLeftEndOfLine),
        Key::End => Some(Command::MoveToRightEndOfLine),
        Key::PageUp => Some(Command::PageUp),
        Key::PageDown => Some(Command::PageDown),
        _ => None,
    }
}

/// The move a key makes with control held: by words, or to the ends of the
/// document.
pub open spec fn control_move(key: Key) -> Option<Command> {
    match key {
        Key::Left => Some(Command::MoveWordLeft),
        Key::Right => Some(Command::MoveWordRight),
        Key::Home => Some(Command::MoveToBeginningOfDocument),
        Key::End => Some(Command::MoveToEndOfDocument),
        _ => None,
    }
}

/// The same move, keeping the anchor of each selection where it is.
pub open spec fn extending(c: Command) -> Command {
    match c {
        Command::MoveUp => Command::MoveUpAndModifySelection,
        Command::MoveDown => Command::MoveDownAndModifySelection,
        Command::MoveLeft => Command::MoveLeftAndModifySelection,
        Command::MoveRight => Command::MoveRightAndModifySelection,
        Command::MoveWordLeft => Command::MoveWordLeftAndModifySelection,
        Command::MoveWordRight => Command::MoveWordRightAndModifySelection,
        Command::MoveToLeftEndOfLine => Command::MoveToLeftEndOfLineAndModifySelection,
        Command::MoveToRightEndOfLine => Command::MoveToRightEndOfLineAndModifySelection,
        Command::MoveToBeginningOfDocument => Command::MoveToBeginningOfDocumentAndModifySelection,
        Command::MoveToEndOfDocument => Command::MoveToEndOfDocumentAndModifySelection,
        Command::PageUp => Command::PageUpAndModifySelection,
        Command::PageDown => Command::PageDownAndModifySelection,
        other => other,
    }
}

/// A move, extending the selections when shift is held.
pub open spec fn with_shift(c: Command, shift: bool) -> Command {
    if shift {
        extending(c)
    } else {
        c
    }
}

/// The command a typed character asks for when control is held.
pub open spec fn control_letter(c: char, shift: bool) -> Option<Command> {
    if c == 'a' {
        Some(Command::SelectAll)
    } else if c == 'c' {
        Some(Command::Copy)
    } else if c == 'v' {
        Some(Command::Paste)
    } else if c == 's' {
        Some(Command::Save)
    } else if c == 'x' {
        Some(Command::Cut)
    } else if c == 'z' {
        Some(Command::Undo)
    } else if c == 'Z' && shift {
        Some(Command::Redo)
    } else {
        None
    }
}

/// The command for a key that has none of its own: a shortcut with
/// control, or the typed character itself when no modifier but shift is
/// held and it is not a control character.
pub open spec fn typed(ch: Option<char>, alt: bool, ctrl: bool, meta: bool, shift: bool) -> Option<Command> {
    match ch {
        None => None,
        Some(c) => if ctrl {
            control_letter(c, shift)
        } else if !alt && !meta && c >= ' ' {
            Some(Command::Insert(c))
        } else {
            None
        },
    }
}

/// The command that a key press asks for, if any.  Enter always breaks
/// the line; delete, backspace and tab act when no modifier but shift is
/// held (tab not with shift either); the arrows, home, end and the page
/// keys move, with control by words or to the document's ends, and with
/// shift they extend the selections; any other key press goes by the
/// character it types.
pub open spec fn keymap(key: Key, ch: Option<char>, alt: bool, ctrl: bool, meta: bool, shift: bool) -> Option<Command> {
    let norm = !alt && !ctrl && !meta;
    if key == Key::Return || key == Key::KpEnter {
        Some(Command::InsertNewline)
    } else if norm && key == Key::Delete {
        Some(Command::DeleteForward)
    } else if norm && key == Key::BackSpace {
        Some(Command::DeleteBackward)
    } else if norm && !shift && key == Key::Tab {
        Some(Command::InsertTab)
    } else if norm && plain_move(key) is Some {
        Some(with_shift(plain_move(key).unwrap(), shift))
    } else if ctrl && control_move(key) is Some {
        Some(with_shift(control_move(key).unwrap(), shift))
    } else {
        typed(ch, alt, ctrl, meta, shift)
    }
}

/// The arrow keys with no modifier move the cursor one step in their
/// direction (a grapheme left or right, a line up or down), and with shift
/// alone the same step extends the selections; with control, left and right
/// move by words, extending with shift too.  Whatever character the key
/// reports makes no difference.
pub proof fn lemma_arrow_keys(ch: Option<char>, shift: bool, alt: bool, meta: bool)
    ensures
        keymap(Key::Left, ch, false, false, false, shift) == Some(
            if shift { Command::MoveLeftAndModifySelection } else { Command::MoveLeft },
        ),
        keymap(Key::Right, ch, false, false, false, shift) == Some(
            if shift { Command::MoveRightAndModifySelection } else { Command::MoveRight },
        ),
        keymap(Key::Up, ch, false, false, false, shift) == Some(
            if shift { Command::MoveUpAndModifySelection } else { Command::MoveUp },
        ),
        keymap(Key::Down, ch, false, false, false, shift) == Some(
            if shift { Command::MoveDownAndModifySelection } else { Command::MoveDown },
        ),
        keymap(Key::Left, ch, alt, true, meta, shift) == Some(
            if shift { Command::MoveWordLeftAndModifySelection } else { Command::MoveWordLeft },
        ),
        keymap(Key::Right, ch, alt, true, meta, shift) == Some(
            if shift { Command::MoveWordRightAndModifySelection } else { Command::MoveWordRight },
        ),
{
}

/// A key without a command of its own, pressed with no modifier but shift,
/// types its character unless it is a control character; with control
/// alone, `a`, `c`, `x`, `v`, `s` and `z` select all, copy, cut, paste,
/// save and undo, and shift with `Z` redoes; Enter always breaks the line.
pub proof fn lemma_typing_and_shortcuts(c: char, shift: bool, alt: bool, ctrl: bool, meta: bool)
    ensures
        c >= ' ' ==> keymap(Key::Other, Some(c), false, false, false, shift) == Some(Command::Insert(c)),
        c < ' ' ==> keymap(Key::Other, Some(c), false, false, false, shift) is None,
        keymap(Key::Other, Some('a'), false, true, false, shift) == Some(Command::SelectAll),
        keymap(Key::Other, Some('c'), false, true, false, shift) == Some(Command::Copy),
        keymap(Key::Other, Some('x'), false, true, false, shift) == Some(Command::Cut),
        keymap(Key::Other, Some('v'), false, true, false, shift) == Some(Command::Paste),
        keymap(Key::Other, Some('s'), false, true, false, shift) == Some(Command::Save),
        keymap(Key::Other, Some('z'), false, true, false, shift) == Some(Command::Undo),
        keymap(Key::Other, Some('Z'), false, true, false, true) == Some(Command::Redo),
        keymap(Key::Return, Some(c), alt, ctrl, meta, shift) == Some(Command::InsertNewline),
        keymap(Key::KpEnter, None, alt, ctrl, meta, shift) == Some(Command::InsertNewline),
{
}

/// What a typed character asks for when the key has no command of its own.
fn command_for_char(ch: Option<char>, ctrl: bool, norm: bool, shift: bool) -> (c: Option<Command>)
    requires
        norm ==> !ctrl,
    ensures
        c == (match ch {
            None => None,
            Some(x) => if ctrl {
                control_letter(x, shift)
            } else if norm && x >= ' ' {
                Some(Command::Insert(x))
            } else {
                None
            },
        }),
{
    match ch {
        None => None,
        Some(c) => {
            if c == 'a' && ctrl {
                Some(Command::SelectAll)
            } else if c == 'c' && ctrl {
                Some(Command::Copy)
            } else if c == 'f' && ctrl {
                None
            } else if c == 'v' && ctrl {
                Some(Command::Paste)
            } else if c == 's' && ctrl {
                Some(Command::Save)
            } else if c == 't' && ctrl {
                None
            } else if c == 'x' && ctrl {
                Some(Command::Cut)
            } else if c == 'z' && ctrl {
                Some(Command::Undo)
            } else if c == 'Z' && ctrl && shift {
                Some(Command::Redo)
            } else if norm && c >= '\u{0020}' {
                Some(Command::Insert(c))
            } else {
                None
            }
        },
    }
}

/// The command that pressing `key`, which types `ch`, asks for while the
/// given modifiers are held; `None` where the key press does nothing.
pub fn command_for_key(key: Key, ch: Option<char>, alt: bool, ctrl: bool, meta: bool, shift: bool) -> (c: Option<Command>)
    ensures
        c == keymap(key, ch, alt, ctrl, meta, shift),
{
    let norm = !alt && !ctrl && !meta;
    match key {
        Key::Delete if norm => Some(Command::DeleteForward),
        Key::BackSpace if norm => Some(Command::DeleteBackward),
        Key::Return | Key::KpEnter => Some(Command::InsertNewline),
        Key::Tab if norm && !shift => Some(Command::InsertTab),
        Key::Up if norm && !shift => Some(Command::MoveUp),
        Key::Down if norm && !shift => Some(Command::MoveDown),
        Key::Left if norm && !shift => Some(Command::MoveLeft),
        Key::Right if norm && !shift => Some(Command::MoveRight),
        Key::Up if norm && shift => Some(Command::MoveUpAndModifySelection),
        Key::Down if norm && shift => Some(Command::MoveDownAndModifySelection),
        Key::Left if norm && shift => Some(Command::MoveLeftAndModifySelection),
        Key::Right if norm && shift => Some(Command::MoveRightAndModifySelection),
        Key::Left if ctrl && !shift => Some(Command::MoveWordLeft),
        Key::Right if ctrl && !shift => Some(Command::MoveWordRight),
        Key::Left if ctrl && shift => Some(Command::MoveWordLeftAndModifySelection),
        Key::Right if ctrl && shift => Some(Command::MoveWordRightAndModifySelection),
        Key::Home if norm && !shift => Some(Command::MoveToLeftEndOfLine),
        Key::End if norm && !shift => Some(Command::MoveToRightEndOfLine),
        Key::Home if norm && shift => Some(Command::MoveToLeftEndOfLineAndModifySelection),
        Key::End if norm && shift => Some(Command::MoveToRightEndOfLineAndModifySelection),
        Key::Home if ctrl && !shift => Some(Command::MoveToBeginningOfDocument),
        Key::End if ctrl && !shift => Some(Command::MoveToEndOfDocument),
        Key::Home if ctrl && shift => Some(Command::MoveToBeginningOfDocumentAndModifySelection),
        Key::End if ctrl && shift => Some(Command::MoveToEndOfDocumentAndModifySelection),
        Key::PageUp if norm && !shift => Some(Command::PageUp),
        Key::PageDown if norm && !shift => Some(Command::PageDown),
        Key::PageUp if norm && shift => Some(Command::PageUpAndModifySelection),
        Key::PageDown if norm && shift => Some(Command::PageDownAndModifySelection),
        _ => command_for_char(ch, ctrl, norm, shift),
    }
}

} // verus!
