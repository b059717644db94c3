//! What the keys of the conflict editor do to its document.

use crate::conflict_document;
use crate::conflict_document::{ConflictEditorDocument, ParsedConflictFile};
use crate::conflict_lines;
use crate::conflict_lines::ConflictRenderLine;
use crate::diff_text;
use crate::keys::ConflictKeyCommand;
use crate::text;
use crate::text::ByteRange;
use vstd::prelude::*;
use vstd::utf8::*;

verus! {

/// What a key did in the conflict editor.
#[derive(Debug)]
pub enum ConflictKeyResult {
    /// It is left to others.
    Ignored,
    /// The document took it.
    Handled,
    /// The text goes to the clipboard, where there is any.
    ToClipboard(Option<String>),
    /// The text of the clipboard takes the place of the selection.
    Paste,
    /// The document is to be saved.
    Save,
}

/// The document is `before` with its selection replaced, or with a text inserted at the cursor.
pub open spec fn is_replaced<F: Fn(&str) -> Result<ParsedConflictFile, String>>(
    after: ConflictEditorDocument,
    before: ConflictEditorDocument,
    replacement: Seq<u8>,
    parse: F,
) -> bool {
    let range = conflict_document::insertion_range(before);
    after.edited(
        before,
        text::splice(before.bytes(), range.start as int, range.end as int, replacement),
        range.start + replacement.len(),
        None,
        parse,
    )
}

/// The document is `before` without a stretch, where a deletion does something.
pub open spec fn is_deleted<F: Fn(&str) -> Result<ParsedConflictFile, String>>(
    after: ConflictEditorDocument,
    before: ConflictEditorDocument,
    range: ByteRange,
    parse: F,
) -> bool {
    if conflict_document::deletes(before, range) {
        after.edited(
            before,
            text::splice(before.bytes(), range.start as int, range.end as int, Seq::empty()),
            range.start as int,
            None,
            parse,
        )
    } else {
        after == before
    }
}

/// The document is `before` indented.
pub open spec fn is_indented<F: Fn(&str) -> Result<ParsedConflictFile, String>>(
    after: ConflictEditorDocument,
    before: ConflictEditorDocument,
    parse: F,
) -> bool {
    if conflict_document::selects_lines(before) {
        after.edited(
            before,
            text::insert_all(
                before.bytes(),
                conflict_document::edited_lines(before),
                conflict_document::indent_bytes(),
            ),
            conflict_document::indented_selection(before).end as int,
            Some(conflict_document::indented_selection(before)),
            parse,
        )
    } else {
        is_replaced(after, before, conflict_document::indent_bytes(), parse)
    }
}

/// The document is `before` outdented.
pub open spec fn is_outdented<F: Fn(&str) -> Result<ParsedConflictFile, String>>(
    after: ConflictEditorDocument,
    before: ConflictEditorDocument,
    parse: F,
) -> bool {
    if conflict_document::document_removals(before).len() > 0 {
        after.edited(
            before,
            text::remove_all(before.bytes(), conflict_document::document_removals(before)),
            conflict_document::outdented_cursor(before),
            conflict_document::outdented_selection(before),
            parse,
        )
    } else {
        after == before
    }
}

/// Where a command moves the cursor to.
pub open spec fn command_target(
    document: ConflictEditorDocument,
    lines: Seq<ConflictRenderLine>,
    command: ConflictKeyCommand,
    extend: bool,
) -> usize {
    let cursor = document.cursor_pos as int;
    let index = conflict_lines::line_over(lines, cursor, 0);
    match command {
        ConflictKeyCommand::MoveHorizontal { forward } => conflict_document::horizontal_target(
            document,
            forward,
            extend,
        ) as usize,
        ConflictKeyCommand::MoveVertical { down } => conflict_lines::column_offset(
            lines,
            conflict_lines::vertical_line(lines, index, down),
            diff_text::rendered(
                diff_text::without_line_end(conflict_lines::chars_before(lines[index], cursor)),
            ).len() as int,
        ) as usize,
        ConflictKeyCommand::MoveLineEdge { to_end } => (if to_end {
            conflict_lines::content_end(lines[index])
        } else {
            lines[index].start as int
        }) as usize,
        _ => document.cursor_pos,
    }
}

/// The command moves the cursor.
pub open spec fn is_movement(command: ConflictKeyCommand) -> bool {
    command is MoveHorizontal || command is MoveVertical || command is MoveLineEdge
}

/// The anchor of the selection after a command.
pub open spec fn command_anchor(
    anchor: Option<usize>,
    document: ConflictEditorDocument,
    lines: Seq<ConflictRenderLine>,
    command: ConflictKeyCommand,
    extend: bool,
) -> Option<usize> {
    if is_movement(command) {
        Some(
            conflict_document::moved_anchor(
                anchor,
                document.cursor_pos,
                command_target(document, lines, command, extend),
                extend,
            ),
        )
    } else if command is SelectAll {
        Some(0)
    } else {
        anchor
    }
}

/// The document is `before` after a command.
pub open spec fn command_done<F: Fn(&str) -> Result<ParsedConflictFile, String>>(
    after: ConflictEditorDocument,
    before: ConflictEditorDocument,
    anchor: Option<usize>,
    lines: Seq<ConflictRenderLine>,
    command: ConflictKeyCommand,
    extend: bool,
    typed: Seq<char>,
    parse: F,
) -> bool {
    match command {
        ConflictKeyCommand::DeleteBackward => is_deleted(
            after,
            before,
            conflict_document::backward_deletion(before),
            parse,
        ),
        ConflictKeyCommand::DeleteForward => is_deleted(
            after,
            before,
            conflict_document::forward_deletion(before),
            parse,
        ),
        ConflictKeyCommand::Outdent => is_outdented(after, before, parse),
        ConflictKeyCommand::Indent => is_indented(after, before, parse),
        ConflictKeyCommand::SelectAll => after == (ConflictEditorDocument {
            cursor_pos: before.bytes().len() as usize,
            selection_range: conflict_document::spanned(0, before.bytes().len() as usize),
            active_block_index: conflict_document::block_at_cursor(
                before.blocks@,
                before.bytes().len() as int,
            ),
            ..before
        }),
        ConflictKeyCommand::Cut => if before.selection_range is Some {
            is_replaced(after, before, Seq::empty(), parse)
        } else {
            after == before
        },
        ConflictKeyCommand::InsertNewline => is_replaced(after, before, seq![10u8], parse),
        ConflictKeyCommand::InsertTyped => is_replaced(
            after,
            before,
            text::bytes_of(typed),
            parse,
        ),
        ConflictKeyCommand::Copy | ConflictKeyCommand::Paste | ConflictKeyCommand::Save
        | ConflictKeyCommand::Ignore => after == before,
        _ => after.cursor_placed(
            before,
            conflict_document::moved_anchor(
                anchor,
                before.cursor_pos,
                command_target(before, lines, command, extend),
                extend,
            ),
            command_target(before, lines, command, extend) as int,
            extend,
        ),
    }
}

/// The result tells what a command did.
pub open spec fn command_result(
    result: ConflictKeyResult,
    before: ConflictEditorDocument,
    command: ConflictKeyCommand,
) -> bool {
    match command {
        ConflictKeyCommand::Copy => result matches ConflictKeyResult::ToClipboard(copied)
            && copied is Some == (before.selection_range is Some && before.selection_range->0.start
            < before.selection_range->0.end) && (copied is Some ==> text::bytes_of(copied->0@)
            == before.bytes().subrange(
            before.selection_range->0.start as int,
            before.selection_range->0.end as int,
        )),
        ConflictKeyCommand::Cut => result matches ConflictKeyResult::ToClipboard(cut) && cut is Some
            == before.selection_range is Some && (cut is Some ==> text::bytes_of(cut->0@)
            == before.bytes().subrange(
            before.selection_range->0.start as int,
            before.selection_range->0.end as int,
        )),
        ConflictKeyCommand::Paste => result is Paste,
        ConflictKeyCommand::Save => result is Save,
        ConflictKeyCommand::Ignore => result is Ignored,
        _ => result is Handled,
    }
}

proof fn lemma_newline_text()
    ensures
        text::bytes_of("\n"@) == seq![10u8],
{
    reveal_strlit("\n");
    is_ascii_chars_encode_utf8("\n"@);
    assert(text::bytes_of("\n"@) =~= seq![10u8]);
}

/// Does what a key means in the conflict editor. `lines` are the lines of the document, and
/// `typed` is the text that the key types.
pub fn run_conflict_command<F: Fn(&str) -> Result<ParsedConflictFile, String>>(
    document: &mut ConflictEditorDocument,
    anchor: &mut Option<usize>,
    lines: &Vec<ConflictRenderLine>,
    command: ConflictKeyCommand,
    extend: bool,
    typed: &str,
    parse: &F,
) -> (result: ConflictKeyResult)
    requires
        old(document).selection_fits(),
        lines@.len() > 0,
        forall|i: int| 0 <= i < lines@.len() ==> conflict_lines::fits_memory(#[trigger] lines@[i]),
        conflict_document::parses_anything(*parse),
    ensures
        command_done(
            *final(document),
            *old(document),
            *old(anchor),
            lines@,
            command,
            extend,
            typed@,
            *parse,
        ),
        *final(anchor) == command_anchor(*old(anchor), *old(document), lines@, command, extend),
        command_result(result, *old(document), command),
{
    match command {
        ConflictKeyCommand::DeleteBackward => {
            conflict_document::delete_document_backward(document, parse);
            ConflictKeyResult::Handled
        },
        ConflictKeyCommand::DeleteForward => {
            conflict_document::delete_document_forward(document, parse);
            ConflictKeyResult::Handled
        },
        ConflictKeyCommand::Outdent => {
            conflict_document::outdent_document_selection(document, parse);
            ConflictKeyResult::Handled
        },
        ConflictKeyCommand::Indent => {
            conflict_document::indent_document_selection(document, parse);
            ConflictKeyResult::Handled
        },
        ConflictKeyCommand::MoveHorizontal { forward } => {
            conflict_document::move_conflict_cursor_horizontal(document, anchor, forward, extend);
            ConflictKeyResult::Handled
        },
        ConflictKeyCommand::MoveVertical { down } => {
            conflict_lines::move_conflict_cursor_vertical(document, anchor, lines, down, extend);
            ConflictKeyResult::Handled
        },
        ConflictKeyCommand::MoveLineEdge { to_end } => {
            conflict_lines::move_conflict_cursor_line_edge(document, anchor, lines, to_end, extend);
            ConflictKeyResult::Handled
        },
        ConflictKeyCommand::SelectAll => {
            conflict_document::select_all_conflict_text(document, anchor);
            ConflictKeyResult::Handled
        },
        ConflictKeyCommand::Copy => ConflictKeyResult::ToClipboard(
            conflict_document::copy_conflict_selection(document),
        ),
        ConflictKeyCommand::Cut => ConflictKeyResult::ToClipboard(
            conflict_document::cut_conflict_selection(document, parse),
        ),
        ConflictKeyCommand::Paste => ConflictKeyResult::Paste,
        ConflictKeyCommand::Save => ConflictKeyResult::Save,
        ConflictKeyCommand::InsertNewline => {
            proof {
                lemma_newline_text();
            }
            conflict_document::replace_document_selection(document, "\n", parse);
            ConflictKeyResult::Handled
        },
        ConflictKeyCommand::InsertTyped => {
            conflict_document::replace_document_selection(document, typed, parse);
            ConflictKeyResult::Handled
        },
        ConflictKeyCommand::Ignore => ConflictKeyResult::Ignored,
    }
}

} // verus!
