//! What the keys of the conflict editor do to its text, told by what stays of the text and what is
//! new in it.

use crate::conflict_document;
use crate::conflict_document::{ConflictEditorDocument, ParsedConflictFile};
use crate::conflict_keys;
use crate::conflict_keys::ConflictKeyResult;
use crate::conflict_lines::ConflictRenderLine;
use crate::cursor_movement;
use crate::keys;
use crate::keys::Modifiers;
use crate::text;
use crate::text::{ByteRange, NEWLINE};
use vstd::prelude::*;
use vstd::utf8::*;

verus! {

/// The document is `before` with the text from one offset to another replaced, the cursor behind
/// the replacement and nothing selected.
pub open spec fn text_replaced(
    before: ConflictEditorDocument,
    after: ConflictEditorDocument,
    from: int,
    to: int,
    replacement: Seq<u8>,
) -> bool {
    &&& after.bytes() == before.bytes().take(from) + replacement + before.bytes().skip(to)
    &&& after.cursor_pos == from + replacement.len()
    &&& after.selection_range is None
    &&& after.is_dirty
}

proof fn lemma_replaced<F: Fn(&str) -> Result<ParsedConflictFile, String>>(
    before: ConflictEditorDocument,
    after: ConflictEditorDocument,
    range: ByteRange,
    replacement: Seq<char>,
    parse: F,
)
    requires
        text::valid_range(before.bytes(), range),
        after.bytes().len() <= usize::MAX,
        after.edited(
            before,
            text::splice(
                before.bytes(),
                range.start as int,
                range.end as int,
                text::bytes_of(replacement),
            ),
            range.start + text::bytes_of(replacement).len(),
            None,
            parse,
        ),
    ensures
        text_replaced(
            before,
            after,
            range.start as int,
            range.end as int,
            text::bytes_of(replacement),
        ),
{
    let bytes = before.bytes();
    let out = after.bytes();
    let inserted = text::bytes_of(replacement);
    let at = range.start + inserted.len();
    assert(out =~= bytes.take(range.start as int) + inserted + bytes.skip(range.end as int));
    encode_utf8_valid_utf8(after.raw_text@);
    if range.end < bytes.len() {
        assert(out[at] == bytes[range.end as int]);
    }
    assert(text::is_boundary(out, at));
    text::lemma_floor_boundary(out, at);
}

proof fn lemma_no_bytes()
    ensures
        text::bytes_of(Seq::<char>::empty()) == Seq::<u8>::empty(),
{
    assert(text::bytes_of(Seq::<char>::empty()) =~= Seq::<u8>::empty());
}

/// Backspace, and on macOS the delete key, takes out the selected text, or else the character
/// before the cursor, and changes nothing at the front of the text.
pub proof fn backspace_takes_out_the_character_before<F: Fn(&str) -> Result<ParsedConflictFile, String>>(
    key: Seq<char>,
    modifiers: Modifiers,
    key_char: Option<String>,
    is_macos: bool,
    before: ConflictEditorDocument,
    after: ConflictEditorDocument,
    anchor: Option<usize>,
    lines: Seq<ConflictRenderLine>,
    typed: Seq<char>,
    parse: F,
) -> (from: int)
    requires
        key == "backspace"@ || (is_macos && key == "delete"@),
        after.bytes().len() <= usize::MAX,
        before.bytes().len() <= usize::MAX,
        before.selection_fits(),
        text::is_boundary(before.bytes(), before.cursor_pos as int),
        cursor_movement::key_pressed(
            key,
            modifiers,
            key_char,
            is_macos,
            before,
            after,
            anchor,
            lines,
            typed,
            parse,
        ),
    ensures
        before.selection_range matches Some(range) ==> text_replaced(
            before,
            after,
            range.start as int,
            range.end as int,
            Seq::empty(),
        ),
        before.selection_range is None && before.cursor_pos == 0 ==> after == before,
        before.selection_range is None && before.cursor_pos > 0 ==> {
            &&& 0 <= from < before.cursor_pos
            &&& text::is_boundary(before.bytes(), from)
            &&& forall|i: int|
                from < i < before.cursor_pos ==> !text::is_boundary(before.bytes(), i)
            &&& text_replaced(before, after, from, before.cursor_pos as int, Seq::empty())
        },
{
    cursor_movement::lemma_key_names();
    lemma_no_bytes();
    let bytes = before.bytes();
    let cursor = before.cursor_pos as int;
    encode_utf8_valid_utf8(before.raw_text@);
    text::lemma_floor_boundary(bytes, cursor);
    cursor_movement::neighbouring_boundaries_are_nearest(before.raw_text@, cursor);
    let range = conflict_document::backward_deletion(before);
    if conflict_document::deletes(before, range) {
        lemma_replaced(before, after, range, Seq::empty(), parse);
    }
    text::previous_boundary(bytes, cursor)
}

/// The delete key, except on macOS, takes out the selected text, or else the character behind the
/// cursor, which stays where it is.
pub proof fn delete_takes_out_the_character_behind<F: Fn(&str) -> Result<ParsedConflictFile, String>>(
    modifiers: Modifiers,
    key_char: Option<String>,
    is_macos: bool,
    before: ConflictEditorDocument,
    after: ConflictEditorDocument,
    anchor: Option<usize>,
    lines: Seq<ConflictRenderLine>,
    typed: Seq<char>,
    parse: F,
) -> (to: int)
    requires
        !is_macos,
        after.bytes().len() <= usize::MAX,
        before.bytes().len() <= usize::MAX,
        before.selection_fits(),
        text::is_boundary(before.bytes(), before.cursor_pos as int),
        cursor_movement::key_pressed(
            "delete"@,
            modifiers,
            key_char,
            is_macos,
            before,
            after,
            anchor,
            lines,
            typed,
            parse,
        ),
    ensures
        before.selection_range matches Some(range) ==> text_replaced(
            before,
            after,
            range.start as int,
            range.end as int,
            Seq::empty(),
        ),
        before.selection_range is None && before.cursor_pos == before.bytes().len() ==> after
            == before,
        before.selection_range is None && before.cursor_pos < before.bytes().len() ==> {
            &&& before.cursor_pos < to <= before.bytes().len()
            &&& text::is_boundary(before.bytes(), to)
            &&& forall|i: int|
                before.cursor_pos < i < to ==> !text::is_boundary(before.bytes(), i)
            &&& text_replaced(before, after, before.cursor_pos as int, to, Seq::empty())
        },
{
    cursor_movement::lemma_key_names();
    lemma_no_bytes();
    let bytes = before.bytes();
    let cursor = before.cursor_pos as int;
    encode_utf8_valid_utf8(before.raw_text@);
    text::lemma_floor_boundary(bytes, cursor);
    cursor_movement::neighbouring_boundaries_are_nearest(before.raw_text@, cursor);
    let range = conflict_document::forward_deletion(before);
    if conflict_document::deletes(before, range) {
        lemma_replaced(before, after, range, Seq::empty(), parse);
    }
    text::next_boundary(bytes, cursor)
}

/// What was selected, or nothing at the cursor, gives way to a text.
spec fn replaced_at_cursor(
    before: ConflictEditorDocument,
    after: ConflictEditorDocument,
    replacement: Seq<u8>,
) -> bool {
    match before.selection_range {
        Some(range) => text_replaced(
            before,
            after,
            range.start as int,
            range.end as int,
            replacement,
        ),
        None => text_replaced(
            before,
            after,
            before.cursor_pos as int,
            before.cursor_pos as int,
            replacement,
        ),
    }
}

proof fn lemma_replaced_at_cursor<F: Fn(&str) -> Result<ParsedConflictFile, String>>(
    before: ConflictEditorDocument,
    after: ConflictEditorDocument,
    replacement: Seq<char>,
    parse: F,
)
    requires
        after.bytes().len() <= usize::MAX,
        before.selection_fits(),
        text::is_boundary(before.bytes(), before.cursor_pos as int),
        conflict_keys::is_replaced(after, before, text::bytes_of(replacement), parse),
    ensures
        replaced_at_cursor(before, after, text::bytes_of(replacement)),
{
    encode_utf8_valid_utf8(before.raw_text@);
    text::lemma_floor_boundary(before.bytes(), before.cursor_pos as int);
    lemma_replaced(
        before,
        after,
        conflict_document::insertion_range(before),
        replacement,
        parse,
    );
}

/// The enter key puts a line feed in the place of the selected text, or where the cursor is, and
/// the cursor behind it.
pub proof fn enter_breaks_the_line<F: Fn(&str) -> Result<ParsedConflictFile, String>>(
    modifiers: Modifiers,
    key_char: Option<String>,
    is_macos: bool,
    before: ConflictEditorDocument,
    after: ConflictEditorDocument,
    anchor: Option<usize>,
    lines: Seq<ConflictRenderLine>,
    typed: Seq<char>,
    parse: F,
)
    requires
        after.bytes().len() <= usize::MAX,
        before.selection_fits(),
        text::is_boundary(before.bytes(), before.cursor_pos as int),
        cursor_movement::key_pressed(
            "enter"@,
            modifiers,
            key_char,
            is_macos,
            before,
            after,
            anchor,
            lines,
            typed,
            parse,
        ),
    ensures
        before.selection_range matches Some(range) ==> text_replaced(
            before,
            after,
            range.start as int,
            range.end as int,
            seq![NEWLINE],
        ),
        before.selection_range is None ==> text_replaced(
            before,
            after,
            before.cursor_pos as int,
            before.cursor_pos as int,
            seq![NEWLINE],
        ),
{
    cursor_movement::lemma_key_names();
    is_ascii_chars_encode_utf8(seq!['\n']);
    assert(text::bytes_of(seq!['\n']) =~= seq![NEWLINE]);
    lemma_replaced_at_cursor(before, after, seq!['\n'], parse);
}

/// A key with a name of one character, pressed without the platform and the control key, puts the
/// text that it types in the place of the selected text, or where the cursor is, unless that text
/// is empty or begins with a control character: then nothing changes.
pub proof fn letters_are_typed<F: Fn(&str) -> Result<ParsedConflictFile, String>>(
    key: Seq<char>,
    modifiers: Modifiers,
    key_char: Option<String>,
    is_macos: bool,
    before: ConflictEditorDocument,
    after: ConflictEditorDocument,
    anchor: Option<usize>,
    lines: Seq<ConflictRenderLine>,
    typed: Seq<char>,
    parse: F,
)
    requires
        key.len() == 1,
        !modifiers.platform && !modifiers.control,
        key_char matches Some(text) ==> typed == text@,
        after.bytes().len() <= usize::MAX,
        before.selection_fits(),
        text::is_boundary(before.bytes(), before.cursor_pos as int),
        cursor_movement::key_pressed(
            key,
            modifiers,
            key_char,
            is_macos,
            before,
            after,
            anchor,
            lines,
            typed,
            parse,
        ),
    ensures
        key_char is None || typed.len() == 0 || (typed[0] as u32) < 0x20 || 0x7f <= typed[0] as u32
            <= 0x9f ==> after == before,
        key_char is Some && typed.len() > 0 && (0x20 <= typed[0] as u32 <= 0x7e || 0xa0
            <= typed[0] as u32) ==> (match before.selection_range {
            Some(range) => text_replaced(
                before,
                after,
                range.start as int,
                range.end as int,
                text::bytes_of(typed),
            ),
            None => text_replaced(
                before,
                after,
                before.cursor_pos as int,
                before.cursor_pos as int,
                text::bytes_of(typed),
            ),
        }),
{
    cursor_movement::lemma_key_names();
    lemma_ignored_names();
    if keys::types_text(key_char) {
        lemma_replaced_at_cursor(before, after, typed, parse);
    }
}

proof fn lemma_ignored_names()
    ensures
        "escape"@.len() > 1 && "shift"@.len() > 1 && "control"@.len() > 1 && "alt"@.len() > 1
            && "meta"@.len() > 1 && "capslock"@.len() > 1,
        "f1"@.len() > 1 && "f2"@.len() > 1 && "f3"@.len() > 1 && "f4"@.len() > 1 && "f5"@.len() > 1
            && "f6"@.len() > 1 && "f7"@.len() > 1 && "f8"@.len() > 1 && "f9"@.len() > 1,
        "f10"@.len() > 1 && "f11"@.len() > 1 && "f12"@.len() > 1 && "pageup"@.len() > 1
            && "pagedown"@.len() > 1,
{
    reveal_strlit("escape");
    reveal_strlit("shift");
    reveal_strlit("control");
    reveal_strlit("alt");
    reveal_strlit("meta");
    reveal_strlit("capslock");
    reveal_strlit("f1");
    reveal_strlit("f2");
    reveal_strlit("f3");
    reveal_strlit("f4");
    reveal_strlit("f5");
    reveal_strlit("f6");
    reveal_strlit("f7");
    reveal_strlit("f8");
    reveal_strlit("f9");
    reveal_strlit("f10");
    reveal_strlit("f11");
    reveal_strlit("f12");
    reveal_strlit("pageup");
    reveal_strlit("pagedown");
}

/// With the platform or the control key held, the key C hands the selected text to the clipboard
/// and changes nothing. The key X hands it over too and takes it out of the text. Where nothing is
/// selected, both hand over nothing and change nothing.
pub proof fn clipboard_keys_hand_over_the_selection<F: Fn(&str) -> Result<ParsedConflictFile, String>>(
    modifiers: Modifiers,
    key_char: Option<String>,
    is_macos: bool,
    before: ConflictEditorDocument,
    after: ConflictEditorDocument,
    anchor: Option<usize>,
    lines: Seq<ConflictRenderLine>,
    typed: Seq<char>,
    parse: F,
    result: ConflictKeyResult,
    cut: bool,
)
    requires
        modifiers.platform || modifiers.control,
        after.bytes().len() <= usize::MAX,
        before.selection_fits(),
        before.selection_range matches Some(range) ==> range.start < range.end,
        cursor_movement::key_pressed(
            if cut {
                "x"@
            } else {
                "c"@
            },
            modifiers,
            key_char,
            is_macos,
            before,
            after,
            anchor,
            lines,
            typed,
            parse,
        ),
        conflict_keys::command_result(
            result,
            before,
            keys::conflict_command(
                if cut {
                    "x"@
                } else {
                    "c"@
                },
                modifiers,
                key_char,
                is_macos,
            ),
        ),
    ensures
        result is ToClipboard,
        before.selection_range is None ==> result->ToClipboard_0 is None && after == before,
        before.selection_range matches Some(range) ==> {
            &&& result->ToClipboard_0 is Some
            &&& text::bytes_of(result->ToClipboard_0->0@) == before.bytes().subrange(
                range.start as int,
                range.end as int,
            )
            &&& !cut ==> after == before
            &&& cut ==> text_replaced(
                before,
                after,
                range.start as int,
                range.end as int,
                Seq::empty(),
            )
        },
{
    cursor_movement::lemma_key_names();
    lemma_no_bytes();
    if cut && before.selection_range is Some {
        lemma_replaced(before, after, before.selection_range->0, Seq::empty(), parse);
    }
}

/// With the platform or the control key held, the key V asks for the text of the clipboard and the
/// key S for the document to be saved. Both leave the document as it is.
pub proof fn paste_and_save_are_asked_for<F: Fn(&str) -> Result<ParsedConflictFile, String>>(
    modifiers: Modifiers,
    key_char: Option<String>,
    is_macos: bool,
    before: ConflictEditorDocument,
    after: ConflictEditorDocument,
    anchor: Option<usize>,
    lines: Seq<ConflictRenderLine>,
    typed: Seq<char>,
    parse: F,
    result: ConflictKeyResult,
    save: bool,
)
    requires
        modifiers.platform || modifiers.control,
        cursor_movement::key_pressed(
            if save {
                "s"@
            } else {
                "v"@
            },
            modifiers,
            key_char,
            is_macos,
            before,
            after,
            anchor,
            lines,
            typed,
            parse,
        ),
        conflict_keys::command_result(
            result,
            before,
            keys::conflict_command(
                if save {
                    "s"@
                } else {
                    "v"@
                },
                modifiers,
                key_char,
                is_macos,
            ),
        ),
    ensures
        result is Save == save,
        result is Paste == !save,
        after == before,
{
    cursor_movement::lemma_key_names();
}

/// Escape, the modifier keys, the function keys and the page keys are left to others, and so is
/// every key that types nothing and has no meaning of its own.
pub proof fn other_keys_are_left_alone<F: Fn(&str) -> Result<ParsedConflictFile, String>>(
    key: Seq<char>,
    modifiers: Modifiers,
    key_char: Option<String>,
    is_macos: bool,
    before: ConflictEditorDocument,
    after: ConflictEditorDocument,
    anchor: Option<usize>,
    lines: Seq<ConflictRenderLine>,
    typed: Seq<char>,
    parse: F,
    result: ConflictKeyResult,
)
    requires
        ({
            ||| key == "escape"@ || key == "shift"@ || key == "control"@ || key == "alt"@
            ||| key == "meta"@ || key == "capslock"@ || key == "pageup"@ || key == "pagedown"@
            ||| key == "f1"@ || key == "f2"@ || key == "f3"@ || key == "f4"@ || key == "f5"@
            ||| key == "f6"@ || key == "f7"@ || key == "f8"@ || key == "f9"@ || key == "f10"@
            ||| key == "f11"@ || key == "f12"@
            ||| key_char is None && key != "backspace"@ && key != "delete"@ && key != "tab"@ && key
                != "left"@ && key != "right"@ && key != "up"@ && key != "down"@ && key != "home"@
                && key != "end"@ && key != "enter"@ && ((!modifiers.platform && !modifiers.control)
                || (key != "a"@ && key != "c"@ && key != "x"@ && key != "v"@ && key != "s"@))
        }),
        cursor_movement::key_pressed(
            key,
            modifiers,
            key_char,
            is_macos,
            before,
            after,
            anchor,
            lines,
            typed,
            parse,
        ),
        conflict_keys::command_result(
            result,
            before,
            keys::conflict_command(key, modifiers, key_char, is_macos),
        ),
    ensures
        result is Ignored,
        after == before,
{
    lemma_ignored_first_characters();
    cursor_movement::lemma_key_names();
}

proof fn lemma_ignored_first_characters()
    ensures
        "escape"@.len() == 6 && "escape"@[0] == 'e' && "escape"@[1] == 's',
        "shift"@.len() == 5 && "shift"@[0] == 's' && "shift"@[1] == 'h',
        "control"@.len() == 7 && "control"@[0] == 'c' && "control"@[1] == 'o',
        "alt"@.len() == 3 && "alt"@[0] == 'a' && "alt"@[1] == 'l',
        "meta"@.len() == 4 && "meta"@[0] == 'm' && "meta"@[1] == 'e',
        "capslock"@.len() == 8 && "capslock"@[0] == 'c' && "capslock"@[1] == 'a',
        "f1"@.len() == 2 && "f1"@[0] == 'f' && "f1"@[1] == '1',
        "f2"@.len() == 2 && "f2"@[0] == 'f' && "f2"@[1] == '2',
        "f3"@.len() == 2 && "f3"@[0] == 'f' && "f3"@[1] == '3',
        "f4"@.len() == 2 && "f4"@[0] == 'f' && "f4"@[1] == '4',
        "f5"@.len() == 2 && "f5"@[0] == 'f' && "f5"@[1] == '5',
        "f6"@.len() == 2 && "f6"@[0] == 'f' && "f6"@[1] == '6',
        "f7"@.len() == 2 && "f7"@[0] == 'f' && "f7"@[1] == '7',
        "f8"@.len() == 2 && "f8"@[0] == 'f' && "f8"@[1] == '8',
        "f9"@.len() == 2 && "f9"@[0] == 'f' && "f9"@[1] == '9',
        "f10"@.len() == 3 && "f10"@[0] == 'f' && "f10"@[1] == '1',
        "f11"@.len() == 3 && "f11"@[0] == 'f' && "f11"@[1] == '1',
        "f12"@.len() == 3 && "f12"@[0] == 'f' && "f12"@[1] == '1',
        "pageup"@.len() == 6 && "pageup"@[0] == 'p' && "pageup"@[1] == 'a',
        "pagedown"@.len() == 8 && "pagedown"@[0] == 'p' && "pagedown"@[1] == 'a',
{
    reveal_strlit("escape");
    reveal_strlit("shift");
    reveal_strlit("control");
    reveal_strlit("alt");
    reveal_strlit("meta");
    reveal_strlit("capslock");
    reveal_strlit("f1");
    reveal_strlit("f2");
    reveal_strlit("f3");
    reveal_strlit("f4");
    reveal_strlit("f5");
    reveal_strlit("f6");
    reveal_strlit("f7");
    reveal_strlit("f8");
    reveal_strlit("f9");
    reveal_strlit("f10");
    reveal_strlit("f11");
    reveal_strlit("f12");
    reveal_strlit("pageup");
    reveal_strlit("pagedown");
}

/// The tab key without shift puts four spaces in the place of the selected text, or where the
/// cursor is, unless the selected text holds a line feed.
pub proof fn tab_inserts_four_spaces<F: Fn(&str) -> Result<ParsedConflictFile, String>>(
    modifiers: Modifiers,
    key_char: Option<String>,
    is_macos: bool,
    before: ConflictEditorDocument,
    after: ConflictEditorDocument,
    anchor: Option<usize>,
    lines: Seq<ConflictRenderLine>,
    typed: Seq<char>,
    parse: F,
)
    requires
        !modifiers.shift,
        after.bytes().len() <= usize::MAX,
        before.selection_fits(),
        before.selection_range matches Some(range) ==> forall|i: int|
            range.start <= i < range.end ==> before.bytes()[i] != NEWLINE,
        text::is_boundary(before.bytes(), before.cursor_pos as int),
        cursor_movement::key_pressed(
            "tab"@,
            modifiers,
            key_char,
            is_macos,
            before,
            after,
            anchor,
            lines,
            typed,
            parse,
        ),
    ensures
        ({
            let (from, to) = match before.selection_range {
                Some(range) => (range.start as int, range.end as int),
                None => (before.cursor_pos as int, before.cursor_pos as int),
            };
            text_replaced(before, after, from, to, seq![32u8, 32u8, 32u8, 32u8])
        }),
{
    cursor_movement::lemma_key_names();
    let spaces = seq![' ', ' ', ' ', ' '];
    is_ascii_chars_encode_utf8(spaces);
    assert(text::bytes_of(spaces) =~= seq![32u8, 32u8, 32u8, 32u8]);
    lemma_replaced_at_cursor(before, after, spaces, parse);
}

} // verus!
