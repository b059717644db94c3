//! What key presses mean in the editors and panes.

use crate::strings;
use vstd::prelude::*;
use vstd::string::*;

verus! {

/// The modifier keys held during a key press.
#[derive(Clone, Copy, Debug, Default, PartialEq, Eq, Structural)]
pub struct Modifiers {
    pub control: bool,
    pub alt: bool,
    pub shift: bool,
    pub platform: bool,
    pub function: bool,
}

/// A control character of Unicode.
pub open spec fn is_control_char(ch: char) -> bool {
    ch as u32 <= 0x1f || 0x7f <= ch as u32 <= 0x9f
}

/// Whether a character is a control character.
pub fn is_control(ch: char) -> (control: bool)
    ensures
        control == is_control_char(ch),
{
    let code: u32 = ch as u32;
    code <= 0x1f || (code >= 0x7f && code <= 0x9f)
}

/// The text that a key press types: not empty and not led by a control character.
pub open spec fn types_text(key_char: Option<String>) -> bool {
    key_char matches Some(text) && text@.len() > 0 && !is_control_char(text@[0])
}

/// Whether a key press types text.
pub fn key_types_text(key_char: &Option<String>) -> (types: bool)
    ensures
        types == types_text(*key_char),
{
    match key_char {
        Some(text) => text.as_str().unicode_len() > 0 && !is_control(text.as_str().get_char(0)),
        None => false,
    }
}

/// Whether the key deletes backward: backspace, and on macOS the delete key too.
pub fn key_acts_as_backward_delete(key: &str, is_macos: bool) -> (backward: bool)
    ensures
        backward == (key@ == "backspace"@ || (is_macos && key@ == "delete"@)),
{
    strings::same_text(key, "backspace") || (is_macos && strings::same_text(key, "delete"))
}

/// Whether the key deletes forward: the delete key, except on macOS.
pub fn key_acts_as_forward_delete(key: &str, is_macos: bool) -> (forward: bool)
    ensures
        forward == (key@ == "delete"@ && !is_macos),
{
    strings::same_text(key, "delete") && !is_macos
}

/// Whether the key press copies: C with the platform or the control key.
pub fn is_copy_keystroke(key: &str, modifiers: &Modifiers) -> (copies: bool)
    ensures
        copies == (key@ == "c"@ && (modifiers.platform || modifiers.control)),
{
    strings::same_text(key, "c") && (modifiers.platform || modifiers.control)
}

/// What a key press does in the conflict editor.
#[derive(Clone, Copy, Debug, PartialEq, Eq, Structural)]
pub enum ConflictKeyCommand {
    DeleteBackward,
    DeleteForward,
    Outdent,
    Indent,
    MoveHorizontal { forward: bool },
    MoveVertical { down: bool },
    MoveLineEdge { to_end: bool },
    SelectAll,
    Copy,
    Cut,
    Paste,
    Save,
    InsertNewline,
    InsertTyped,
    Ignore,
}

/// The keys that the conflict editor leaves to others.
pub open spec fn conflict_ignores(key: Seq<char>) -> bool {
    ||| key == "escape"@
    ||| key == "shift"@
    ||| key == "control"@
    ||| key == "alt"@
    ||| key == "meta"@
    ||| key == "capslock"@
    ||| key == "f1"@
    ||| key == "f2"@
    ||| key == "f3"@
    ||| key == "f4"@
    ||| key == "f5"@
    ||| key == "f6"@
    ||| key == "f7"@
    ||| key == "f8"@
    ||| key == "f9"@
    ||| key == "f10"@
    ||| key == "f11"@
    ||| key == "f12"@
    ||| key == "pageup"@
    ||| key == "pagedown"@
}

fn conflict_key_ignored(key: &str) -> (ignored: bool)
    ensures
        ignored == conflict_ignores(key@),
{
    strings::same_text(key, "escape") || strings::same_text(key, "shift") || strings::same_text(
        key,
        "control",
    ) || strings::same_text(key, "alt") || strings::same_text(key, "meta") || strings::same_text(
        key,
        "capslock",
    ) || strings::same_text(key, "f1") || strings::same_text(key, "f2") || strings::same_text(
        key,
        "f3",
    ) || strings::same_text(key, "f4") || strings::same_text(key, "f5") || strings::same_text(
        key,
        "f6",
    ) || strings::same_text(key, "f7") || strings::same_text(key, "f8") || strings::same_text(
        key,
        "f9",
    ) || strings::same_text(key, "f10") || strings::same_text(key, "f11") || strings::same_text(
        key,
        "f12",
    ) || strings::same_text(key, "pageup") || strings::same_text(key, "pagedown")
}

/// What a key means in the conflict editor.
pub open spec fn conflict_command(
    key: Seq<char>,
    modifiers: Modifiers,
    key_char: Option<String>,
    is_macos: bool,
) -> ConflictKeyCommand {
    let command = modifiers.platform || modifiers.control;
    if key == "backspace"@ || (is_macos && key == "delete"@) {
        ConflictKeyCommand::DeleteBackward
    } else if key == "delete"@ {
        ConflictKeyCommand::DeleteForward
    } else if key == "tab"@ {
        if modifiers.shift {
            ConflictKeyCommand::Outdent
        } else {
            ConflictKeyCommand::Indent
        }
    } else if key == "left"@ {
        ConflictKeyCommand::MoveHorizontal { forward: false }
    } else if key == "right"@ {
        ConflictKeyCommand::MoveHorizontal { forward: true }
    } else if key == "up"@ {
        ConflictKeyCommand::MoveVertical { down: false }
    } else if key == "down"@ {
        ConflictKeyCommand::MoveVertical { down: true }
    } else if key == "home"@ {
        ConflictKeyCommand::MoveLineEdge { to_end: false }
    } else if key == "end"@ {
        ConflictKeyCommand::MoveLineEdge { to_end: true }
    } else if key == "a"@ && command {
        ConflictKeyCommand::SelectAll
    } else if key == "c"@ && command {
        ConflictKeyCommand::Copy
    } else if key == "x"@ && command {
        ConflictKeyCommand::Cut
    } else if key == "v"@ && command {
        ConflictKeyCommand::Paste
    } else if key == "s"@ && command {
        ConflictKeyCommand::Save
    } else if key == "enter"@ {
        ConflictKeyCommand::InsertNewline
    } else if !conflict_ignores(key) && types_text(key_char) {
        ConflictKeyCommand::InsertTyped
    } else {
        ConflictKeyCommand::Ignore
    }
}

/// Decides what a key press does in the conflict editor.
pub fn handle_conflict_key_down(
    key: &str,
    modifiers: &Modifiers,
    key_char: &Option<String>,
    is_macos: bool,
) -> (command: ConflictKeyCommand)
    ensures
        command == conflict_command(key@, *modifiers, *key_char, is_macos),
{
    let held = modifiers.platform || modifiers.control;
    if key_acts_as_backward_delete(key, is_macos) {
        ConflictKeyCommand::DeleteBackward
    } else if key_acts_as_forward_delete(key, is_macos) {
        ConflictKeyCommand::DeleteForward
    } else if strings::same_text(key, "tab") {
        if modifiers.shift {
            ConflictKeyCommand::Outdent
        } else {
            ConflictKeyCommand::Indent
        }
    } else if strings::same_text(key, "left") {
        ConflictKeyCommand::MoveHorizontal { forward: false }
    } else if strings::same_text(key, "right") {
        ConflictKeyCommand::MoveHorizontal { forward: true }
    } else if strings::same_text(key, "up") {
        ConflictKeyCommand::MoveVertical { down: false }
    } else if strings::same_text(key, "down") {
        ConflictKeyCommand::MoveVertical { down: true }
    } else if strings::same_text(key, "home") {
        ConflictKeyCommand::MoveLineEdge { to_end: false }
    } else if strings::same_text(key, "end") {
        ConflictKeyCommand::MoveLineEdge { to_end: true }
    } else if strings::same_text(key, "a") && held {
        ConflictKeyCommand::SelectAll
    } else if strings::same_text(key, "c") && held {
        ConflictKeyCommand::Copy
    } else if strings::same_text(key, "x") && held {
        ConflictKeyCommand::Cut
    } else if strings::same_text(key, "v") && held {
        ConflictKeyCommand::Paste
    } else if strings::same_text(key, "s") && held {
        ConflictKeyCommand::Save
    } else if strings::same_text(key, "enter") {
        ConflictKeyCommand::InsertNewline
    } else if conflict_key_ignored(key) {
        ConflictKeyCommand::Ignore
    } else if key_types_text(key_char) {
        ConflictKeyCommand::InsertTyped
    } else {
        ConflictKeyCommand::Ignore
    }
}

} // verus!
