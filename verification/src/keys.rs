//! What the composer does with a key press: formatting shortcuts, paste,
//! the palette, send or newline, word and line deletion, clipboard and
//! Emacs-style motions.

use vstd::prelude::*;

use crate::composer::{ComposerTarget, FormatMark};

verus! {

broadcast use vstd::string::group_string_axioms;

/// The modifier keys held. `command` is the platform's command key: ⌘ on
/// macOS, Ctrl elsewhere.
#[derive(Debug, Clone, Copy, PartialEq, Eq, Structural)]
pub struct Mods {
    pub command: bool,
    pub control: bool,
    pub shift: bool,
    pub alt: bool,
}

/// The key that was pressed.
#[derive(Debug, Clone, PartialEq, Eq)]
pub enum KeyKind {
    Enter,
    Backspace,
    Delete,
    /// A key that types text.
    Character(String),
    Other,
}

/// A key press as the composer reads it.
#[derive(Debug, Clone)]
pub struct KeyInput {
    pub key: KeyKind,
    /// The key with the modifiers applied is Enter.
    pub modified_enter: bool,
    /// The Latin letter or digit the key stands for on a Latin layout.
    pub latin: Option<char>,
}

/// Cursor motions of the editor.
#[derive(Debug, Clone, Copy, PartialEq, Eq, Structural)]
pub enum Motion {
    Home,
    End,
    Left,
    Right,
    Up,
    Down,
    WordLeft,
    WordRight,
}

/// Editor actions a shortcut maps to.
#[derive(Debug, Clone, Copy, PartialEq, Eq, Structural)]
pub enum EditorBinding {
    SelectAll,
    Copy,
    Cut,
    Undo,
    Redo,
    Delete,
    Move(Motion),
    Select(Motion),
}

/// What a key press does in the composer.
#[derive(Debug, Clone, Copy, PartialEq, Eq, Structural)]
pub enum KeyAction {
    /// Apply a formatting mark to the selection.
    Format(FormatMark),
    /// Paste files from the clipboard as attachments of the channel or
    /// thread composer.
    PasteAttachments(ComposerTarget),
    /// Paste text into the editor.
    Paste,
    /// Open or close the command palette.
    TogglePalette,
    /// Insert a newline.
    Newline,
    /// Send the message.
    Send,
    /// Delete from the cursor to where the motion leads.
    DeleteTo(Motion),
    /// An editor action.
    Editor(EditorBinding),
    /// What the editor does with the key by default.
    Default,
}

// ---------------------------------------------------------------------------
// Models
// ---------------------------------------------------------------------------

/// Is the key a text key whose text is `c` in either ASCII case?
pub open spec fn is_letter_key(key: KeyKind, c: char) -> bool {
    match key {
        KeyKind::Character(s) => s@.len() == 1 && crate::text::ascii_lower(s@[0]) == c,
        _ => false,
    }
}

pub open spec fn format_mark_spec(m: Mods, latin: Option<char>) -> Option<FormatMark> {
    if !m.command || latin is None {
        None
    } else {
        let c = latin->0;
        if c == 'b' && !m.shift && !m.alt {
            Some(FormatMark::Bold)
        } else if c == 'i' && !m.shift && !m.alt {
            Some(FormatMark::Italic)
        } else if c == 'x' && m.shift && !m.alt {
            Some(FormatMark::Strike)
        } else if c == 'c' && m.shift && m.alt {
            Some(FormatMark::CodeBlock)
        } else if c == 'c' && m.shift && !m.alt {
            Some(FormatMark::Code)
        } else if c == '9' && m.shift && !m.alt {
            Some(FormatMark::Quote)
        } else {
            None
        }
    }
}

pub open spec fn clipboard_spec(m: Mods, latin: Option<char>) -> Option<EditorBinding> {
    if !m.command || m.alt || latin is None {
        None
    } else {
        let c = latin->0;
        if c == 'a' && !m.shift {
            Some(EditorBinding::SelectAll)
        } else if c == 'c' && !m.shift {
            Some(EditorBinding::Copy)
        } else if c == 'x' && !m.shift {
            Some(EditorBinding::Cut)
        } else if c == 'z' && m.shift {
            Some(EditorBinding::Redo)
        } else if c == 'y' {
            Some(EditorBinding::Redo)
        } else if c == 'z' {
            Some(EditorBinding::Undo)
        } else {
            None
        }
    }
}

pub open spec fn delete_motion_spec(m: Mods, key: KeyKind, latin: Option<char>, macos: bool) -> Option<Motion> {
    if macos && m.control && !m.command && !m.alt && latin == Some('k') {
        Some(Motion::End)
    } else {
        match key {
            KeyKind::Backspace => if m.alt {
                Some(Motion::WordLeft)
            } else if m.command {
                Some(Motion::Home)
            } else {
                None
            },
            KeyKind::Delete => if m.alt {
                Some(Motion::WordRight)
            } else {
                None
            },
            _ => None,
        }
    }
}

pub open spec fn emacs_motion(c: char) -> Option<Motion> {
    if c == 'a' {
        Some(Motion::Home)
    } else if c == 'e' {
        Some(Motion::End)
    } else if c == 'b' {
        Some(Motion::Left)
    } else if c == 'f' {
        Some(Motion::Right)
    } else if c == 'p' {
        Some(Motion::Up)
    } else if c == 'n' {
        Some(Motion::Down)
    } else {
        None
    }
}

pub open spec fn emacs_spec(m: Mods, latin: Option<char>) -> Option<EditorBinding> {
    if !m.control || m.command || m.alt || latin is None {
        None
    } else if latin->0 == 'd' {
        Some(EditorBinding::Delete)
    } else {
        match emacs_motion(latin->0) {
            Some(mo) => Some(if m.shift {
                EditorBinding::Select(mo)
            } else {
                EditorBinding::Move(mo)
            }),
            None => None,
        }
    }
}

/// The composer's decision for a key press; `None` leaves the key to
/// nobody (unfocused editor, or a command shortcut the composer does not
/// handle).
pub open spec fn key_action_spec(focused: bool, m: Mods, input: KeyInput, target: ComposerTarget, macos: bool) -> Option<KeyAction> {
    if !focused {
        None
    } else if format_mark_spec(m, input.latin) is Some {
        Some(KeyAction::Format(format_mark_spec(m, input.latin)->0))
    } else if m.command && is_letter_key(input.key, 'v') {
        Some(match target {
            ComposerTarget::Edit => KeyAction::Paste,
            _ => KeyAction::PasteAttachments(target),
        })
    } else if m.command && is_letter_key(input.key, 'k') {
        Some(KeyAction::TogglePalette)
    } else if input.key == KeyKind::Enter || input.modified_enter {
        Some(if m.shift {
            KeyAction::Newline
        } else {
            KeyAction::Send
        })
    } else if delete_motion_spec(m, input.key, input.latin, macos) is Some {
        Some(KeyAction::DeleteTo(delete_motion_spec(m, input.key, input.latin, macos)->0))
    } else if clipboard_spec(m, input.latin) is Some {
        Some(KeyAction::Editor(clipboard_spec(m, input.latin)->0))
    } else if macos && emacs_spec(m, input.latin) is Some {
        Some(KeyAction::Editor(emacs_spec(m, input.latin)->0))
    } else if m.command && input.key is Character {
        None
    } else {
        Some(KeyAction::Default)
    }
}

// ---------------------------------------------------------------------------
// Decisions
// ---------------------------------------------------------------------------

/// The formatting mark of a shortcut.
pub fn format_mark_for(m: Mods, latin: Option<char>) -> (r: Option<FormatMark>)
    ensures
        r == format_mark_spec(m, latin),
{
    if !m.command {
        return None;
    }
    let c = match latin {
        Some(c) => c,
        None => return None,
    };
    if c == 'b' && !m.shift && !m.alt {
        Some(FormatMark::Bold)
    } else if c == 'i' && !m.shift && !m.alt {
        Some(FormatMark::Italic)
    } else if c == 'x' && m.shift && !m.alt {
        Some(FormatMark::Strike)
    } else if c == 'c' && m.shift && m.alt {
        Some(FormatMark::CodeBlock)
    } else if c == 'c' && m.shift && !m.alt {
        Some(FormatMark::Code)
    } else if c == '9' && m.shift && !m.alt {
        Some(FormatMark::Quote)
    } else {
        None
    }
}

/// Select all, copy, cut, undo and redo.
pub fn clipboard_binding(m: Mods, latin: Option<char>) -> (r: Option<EditorBinding>)
    ensures
        r == clipboard_spec(m, latin),
{
    if !m.command || m.alt {
        return None;
    }
    let c = match latin {
        Some(c) => c,
        None => return None,
    };
    if c == 'a' && !m.shift {
        Some(EditorBinding::SelectAll)
    } else if c == 'c' && !m.shift {
        Some(EditorBinding::Copy)
    } else if c == 'x' && !m.shift {
        Some(EditorBinding::Cut)
    } else if c == 'z' && m.shift {
        Some(EditorBinding::Redo)
    } else if c == 'y' {
        Some(EditorBinding::Redo)
    } else if c == 'z' {
        Some(EditorBinding::Undo)
    } else {
        None
    }
}

/// Word and line deletion: ⌥⌫ a word back, ⌘⌫ to the line start, ⌥⌦ a
/// word forward, and on macOS ⌃K to the line end.
pub fn delete_motion_for(m: Mods, key: &KeyKind, latin: Option<char>, macos: bool) -> (r: Option<Motion>)
    ensures
        r == delete_motion_spec(m, *key, latin, macos),
{
    if macos && m.control && !m.command && !m.alt {
        match latin {
            Some(c) => if c == 'k' {
                return Some(Motion::End);
            },
            None => {},
        }
    }
    match key {
        KeyKind::Backspace => if m.alt {
            Some(Motion::WordLeft)
        } else if m.command {
            Some(Motion::Home)
        } else {
            None
        },
        KeyKind::Delete => if m.alt {
            Some(Motion::WordRight)
        } else {
            None
        },
        _ => None,
    }
}

/// Emacs-style motions with Ctrl (macOS): A, E, B, F, P, N move, with Shift
/// they select; D deletes.
pub fn emacs_binding(m: Mods, latin: Option<char>) -> (r: Option<EditorBinding>)
    ensures
        r == emacs_spec(m, latin),
{
    if !m.control || m.command || m.alt {
        return None;
    }
    let c = match latin {
        Some(c) => c,
        None => return None,
    };
    if c == 'd' {
        return Some(EditorBinding::Delete);
    }
    let mo = if c == 'a' {
        Motion::Home
    } else if c == 'e' {
        Motion::End
    } else if c == 'b' {
        Motion::Left
    } else if c == 'f' {
        Motion::Right
    } else if c == 'p' {
        Motion::Up
    } else if c == 'n' {
        Motion::Down
    } else {
        return None;
    };
    Some(if m.shift {
        EditorBinding::Select(mo)
    } else {
        EditorBinding::Move(mo)
    })
}

/// Is a text key's text `c` in either ASCII case?
fn letter_key(key: &KeyKind, c: char) -> (r: bool)
    ensures
        r == is_letter_key(*key, c),
{
    match key {
        KeyKind::Character(s) => {
            let v = crate::text::to_chars(s.as_str());
            v.len() == 1 && crate::text::lower_char(v[0]) == c
        },
        _ => false,
    }
}

/// Is the press an Enter?
pub fn is_enter(key: &KeyKind, modified_enter: bool) -> (r: bool)
    ensures
        r == (*key == KeyKind::Enter || modified_enter),
{
    match key {
        KeyKind::Enter => true,
        _ => modified_enter,
    }
}

/// What a key press does in the composer of `target`.
pub fn key_action(focused: bool, m: Mods, input: &KeyInput, target: ComposerTarget, macos: bool) -> (r: Option<KeyAction>)
    ensures
        r == key_action_spec(focused, m, *input, target, macos),
{
    if !focused {
        return None;
    }
    match format_mark_for(m, input.latin) {
        Some(mark) => return Some(KeyAction::Format(mark)),
        None => {},
    }
    if m.command && letter_key(&input.key, 'v') {
        return Some(
            match target {
                ComposerTarget::Edit => KeyAction::Paste,
                _ => KeyAction::PasteAttachments(target),
            },
        );
    }
    if m.command && letter_key(&input.key, 'k') {
        return Some(KeyAction::TogglePalette);
    }
    if is_enter(&input.key, input.modified_enter) {
        return Some(
            if m.shift {
                KeyAction::Newline
            } else {
                KeyAction::Send
            },
        );
    }
    match delete_motion_for(m, &input.key, input.latin, macos) {
        Some(mo) => return Some(KeyAction::DeleteTo(mo)),
        None => {},
    }
    match clipboard_binding(m, input.latin) {
        Some(b) => return Some(KeyAction::Editor(b)),
        None => {},
    }
    if macos {
        match emacs_binding(m, input.latin) {
            Some(b) => return Some(KeyAction::Editor(b)),
            None => {},
        }
    }
    let is_char = match &input.key {
        KeyKind::Character(_) => true,
        _ => false,
    };
    if m.command && is_char {
        return None;
    }
    Some(KeyAction::Default)
}


/// A formatting shortcut wins over the clipboard: ⌘⇧X strikes through and
/// ⌘⇧C marks code rather than cutting or copying.
pub proof fn law_formatting_wins(m: Mods, input: KeyInput, target: ComposerTarget, macos: bool)
    requires
        format_mark_spec(m, input.latin) is Some,
    ensures
        key_action_spec(true, m, input, target, macos) == Some(KeyAction::Format(format_mark_spec(m, input.latin)->0)),
{
}

/// Enter sends and Shift+Enter inserts a newline, unless a formatting or
/// command shortcut claims the key.
pub proof fn law_enter_sends(m: Mods, input: KeyInput, target: ComposerTarget, macos: bool)
    requires
        input.key == KeyKind::Enter,
        format_mark_spec(m, input.latin) is None,
    ensures
        key_action_spec(true, m, input, target, macos) == Some(if m.shift {
            KeyAction::Newline
        } else {
            KeyAction::Send
        }),
{
}

} // verus!
