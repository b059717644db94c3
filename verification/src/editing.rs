//! What edits of a conflicted file's text take back.

use crate::conflict_document;
use crate::conflict_document::{
    ConflictAcceptChoice, ConflictEditorDocument, ParsedConflictBlock, ParsedConflictFile,
};
use crate::text;
use vstd::prelude::*;
use vstd::utf8::*;

verus! {

/// Selecting everything and copying gives the whole text, unless there is none. `selected` is the
/// document after everything was selected, and `copied` what copying then gives.
pub proof fn select_all_copies_everything(
    before: ConflictEditorDocument,
    selected: ConflictEditorDocument,
    copied: Option<Seq<char>>,
)
    requires
        before.bytes().len() <= usize::MAX,
        selected == (ConflictEditorDocument {
            cursor_pos: before.bytes().len() as usize,
            selection_range: conflict_document::spanned(0, before.bytes().len() as usize),
            active_block_index: conflict_document::block_at_cursor(
                before.blocks@,
                before.bytes().len() as int,
            ),
            ..before
        }),
        copied is Some == (selected.selection_range is Some && selected.selection_range->0.start
            < selected.selection_range->0.end),
        copied is Some ==> text::bytes_of(copied->0) == selected.bytes().subrange(
            selected.selection_range->0.start as int,
            selected.selection_range->0.end as int,
        ),
    ensures
        copied == if before.raw_text@.len() == 0 {
            None
        } else {
            Some(before.raw_text@)
        },
{
    let bytes = before.bytes();
    if before.raw_text@.len() == 0 {
        assert(bytes =~= Seq::<u8>::empty());
    } else {
        encode_utf8_first_scalar(before.raw_text@);
        assert(bytes.subrange(0, bytes.len() as int) =~= bytes);
        if bytes.len() == 0 {
            text::lemma_bytes_injective(before.raw_text@, Seq::empty());
        }
        text::lemma_bytes_injective(copied->0, before.raw_text@);
    }
}

/// Pasting what was cut gives the text back, with the cursor behind what was pasted. `cut` is the
/// document after the selection was cut, `taken` the text that was cut, and `after` the document
/// after it was pasted again.
pub proof fn paste_returns_what_was_cut<F: Fn(&str) -> Result<ParsedConflictFile, String>>(
    before: ConflictEditorDocument,
    cut: ConflictEditorDocument,
    taken: Seq<char>,
    after: ConflictEditorDocument,
    parse: F,
)
    requires
        before.selection_fits(),
        before.selection_range is Some,
        text::bytes_of(taken) == before.bytes().subrange(
            before.selection_range->0.start as int,
            before.selection_range->0.end as int,
        ),
        cut.edited(
            before,
            text::splice(
                before.bytes(),
                before.selection_range->0.start as int,
                before.selection_range->0.end as int,
                Seq::empty(),
            ),
            before.selection_range->0.start as int,
            None,
            parse,
        ),
        after.edited(
            cut,
            text::splice(
                cut.bytes(),
                conflict_document::insertion_range(cut).start as int,
                conflict_document::insertion_range(cut).end as int,
                text::bytes_of(taken),
            ),
            conflict_document::insertion_range(cut).start + text::bytes_of(taken).len(),
            None,
            parse,
        ),
    ensures
        after.raw_text@ == before.raw_text@,
        after.cursor_pos == before.selection_range->0.end,
        after.selection_range is None,
{
    let bytes = before.bytes();
    let range = before.selection_range->0;
    let start = range.start as int;
    let end = range.end as int;
    encode_utf8_valid_utf8(before.raw_text@);
    encode_utf8_valid_utf8(cut.raw_text@);
    text::lemma_splice_boundary(bytes, start, end, Seq::empty(), start);
    text::lemma_floor_boundary(cut.bytes(), start);
    text::lemma_floor_boundary(bytes, end);
    assert(text::splice(cut.bytes(), start, start, text::bytes_of(taken)) =~= bytes);
    text::lemma_bytes_injective(after.raw_text@, before.raw_text@);
}

/// The bytes of a character: only the first begins one.
pub proof fn lemma_character_bytes(ch: char)
    ensures
        text::bytes_of(seq![ch]).len() > 0,
        !is_continuation_byte(text::bytes_of(seq![ch])[0]),
        forall|i: int|
            0 < i < text::bytes_of(seq![ch]).len() ==> is_continuation_byte(
                #[trigger] text::bytes_of(seq![ch])[i],
            ),
{
    let chars = seq![ch];
    let bytes = text::bytes_of(chars);
    encode_utf8_valid_utf8(chars);
    encode_utf8_first_scalar(chars);
    assert(chars.drop_first() =~= Seq::<char>::empty());
    assert(text::bytes_of(chars.drop_first()) =~= Seq::<u8>::empty());
    text::lemma_boundary_ends(bytes);
    assert forall|i: int| 0 < i < bytes.len() implies is_continuation_byte(#[trigger] bytes[i]) by {
        is_char_boundary_iff_not_is_continuation_byte(bytes, i);
        assert(!is_char_boundary(bytes, i));
    }
}

/// Deleting backward takes back a character that was typed: the text is what it was, and so is the
/// cursor. `typed` is the document after a character was typed where nothing was selected, and
/// `after` the document after the deletion.
pub proof fn backspace_undoes_typing<F: Fn(&str) -> Result<ParsedConflictFile, String>>(
    before: ConflictEditorDocument,
    ch: char,
    typed: ConflictEditorDocument,
    after: ConflictEditorDocument,
    parse: F,
)
    requires
        before.selection_range is None,
        typed.bytes().len() <= usize::MAX,
        typed.edited(
            before,
            text::splice(
                before.bytes(),
                conflict_document::insertion_range(before).start as int,
                conflict_document::insertion_range(before).end as int,
                text::bytes_of(seq![ch]),
            ),
            conflict_document::insertion_range(before).start + text::bytes_of(seq![ch]).len(),
            None,
            parse,
        ),
        after.edited(
            typed,
            text::splice(
                typed.bytes(),
                conflict_document::backward_deletion(typed).start as int,
                conflict_document::backward_deletion(typed).end as int,
                Seq::empty(),
            ),
            conflict_document::backward_deletion(typed).start as int,
            None,
            parse,
        ),
    ensures
        conflict_document::deletes(typed, conflict_document::backward_deletion(typed)),
        after.raw_text@ == before.raw_text@,
        after.cursor_pos == text::floor_boundary(before.bytes(), before.cursor_pos as int),
        after.selection_range is None,
{
    let bytes = before.bytes();
    let encoded = text::bytes_of(seq![ch]);
    let len = encoded.len();
    let out = typed.bytes();
    lemma_character_bytes(ch);
    encode_utf8_valid_utf8(before.raw_text@);
    encode_utf8_valid_utf8(typed.raw_text@);
    text::lemma_floor_boundary(bytes, before.cursor_pos as int);
    let at = text::floor_boundary(bytes, before.cursor_pos as int);
    assert(out == text::splice(bytes, at, at, encoded));
    assert(out[at] == encoded[0]);
    if at < bytes.len() {
        assert(out[at + len] == bytes[at]);
    }
    assert(text::is_boundary(out, at + len));
    text::lemma_floor_boundary(out, at + len);
    assert(text::is_boundary(out, at));
    lemma_floor_before(out, at, at + len - 1);
    assert(text::splice(out, at, at + len, Seq::empty()) =~= bytes);
    text::lemma_bytes_injective(after.raw_text@, before.raw_text@);
    text::lemma_floor_boundary(bytes, at);
}

/// Below a run of continuation bytes lies the boundary of their character.
proof fn lemma_floor_before(bytes: Seq<u8>, start: int, offset: int)
    requires
        0 <= start <= offset < bytes.len(),
        text::is_boundary(bytes, start),
        forall|i: int| start < i <= offset ==> is_continuation_byte(#[trigger] bytes[i]),
    ensures
        text::floor_boundary(bytes, offset) == start,
    decreases offset,
{
    if offset > start {
        assert(is_continuation_byte(bytes[offset]));
        lemma_floor_before(bytes, start, offset - 1);
    }
}

/// Going to the next block and back returns to the block, where there is a next one.
pub proof fn navigation_returns(block_total: int, index: usize)
    requires
        index + 1 < block_total <= usize::MAX,
    ensures
        conflict_document::block_after_navigation(
            block_total,
            Some(conflict_document::block_after_navigation(block_total, Some(index), true)->0 as usize),
            false,
        ) == Some(index as int),
{
}

/// The active block is the first one whose text the cursor touches, and there is none where it
/// touches none.
pub proof fn active_block_holds_the_cursor(
    blocks: Seq<ParsedConflictBlock>,
    cursor: int,
) -> (found: int)
    ensures
        match conflict_document::block_at_cursor(blocks, cursor) {
            Some(block) => {
                &&& 0 <= found < blocks.len()
                &&& blocks[found].block_index == block
                &&& blocks[found].whole_block.start <= cursor <= blocks[found].whole_block.end
                &&& forall|k: int|
                    0 <= k < found ==> !(#[trigger] blocks[k].whole_block.start <= cursor
                        <= blocks[k].whole_block.end)
            },
            None => forall|k: int|
                0 <= k < blocks.len() ==> !(#[trigger] blocks[k].whole_block.start <= cursor
                    <= blocks[k].whole_block.end),
        },
    decreases blocks.len(),
{
    if blocks.len() == 0 || blocks[0].whole_block.start <= cursor <= blocks[0].whole_block.end {
        0
    } else {
        let rest = blocks.drop_first();
        let found = active_block_holds_the_cursor(rest, cursor);
        assert(forall|k: int|
            0 < k < blocks.len() ==> (#[trigger] blocks[k].whole_block) == rest[k - 1].whole_block);
        found + 1
    }
}

/// After an edit the active block is the one at the cursor; where there is none, the one that was
/// active stays so while it exists, and else the first becomes it.
pub proof fn edits_keep_a_block_active(
    blocks: Seq<ParsedConflictBlock>,
    cursor: int,
    previous: Option<usize>,
)
    ensures
        ({
            let settled = conflict_document::settled_block(blocks, cursor, previous);
            let here = conflict_document::block_at_cursor(blocks, cursor);
            &&& settled is None ==> blocks.len() == 0
            &&& here is Some ==> settled == here
            &&& here is None && previous is Some && previous->0 < blocks.len() ==> settled
                == previous
            &&& here is None && blocks.len() > 0 && (previous is None || previous->0
                >= blocks.len()) ==> settled == Some(blocks[0].block_index)
        }),
{
    active_block_holds_the_cursor(blocks, cursor);
}

/// Navigation goes to the neighbour of the active block: forward to a later one by one, backward to
/// an earlier one by one, and it stays at the edges. Without an active block it enters at the edge
/// that it comes from.
pub proof fn navigation_goes_one_block(block_total: int, index: usize)
    requires
        0 <= index < block_total,
    ensures
        ({
            let next = conflict_document::block_after_navigation(block_total, Some(index), true);
            let previous = conflict_document::block_after_navigation(
                block_total,
                Some(index),
                false,
            );
            &&& index + 1 < block_total ==> next == Some(index + 1)
            &&& index + 1 == block_total ==> next == Some(index as int)
            &&& index > 0 ==> previous == Some(index - 1)
            &&& index == 0 ==> previous == Some(0int)
        }),
        conflict_document::block_after_navigation(block_total, None, true) == Some(0int),
        conflict_document::block_after_navigation(block_total, None, false) == Some(
            block_total - 1,
        ),
        conflict_document::block_after_navigation(0, Some(index), true) is None,
        conflict_document::block_after_navigation(0, None, false) is None,
{
}

/// Accepting a side of the active block leaves that side in the place of the block: the text before
/// and behind the block stays, and the markers go. Both sides are left one behind the other, and
/// of a block without a base nothing is left where the base is accepted.
pub proof fn accepted_side_takes_the_place_of_the_block<
    F: Fn(&str) -> Result<ParsedConflictFile, String>,
>(
    before: ConflictEditorDocument,
    after: ConflictEditorDocument,
    choice: ConflictAcceptChoice,
    parse: F,
)
    requires
        conflict_document::choice_fits(before, choice),
        before.active_block_index is Some,
        before.active_block_index->0 < before.blocks@.len(),
        ({
            let block = conflict_document::active_block(before)->0;
            after.edited(
                before,
                text::splice(
                    before.bytes(),
                    block.whole_block.start as int,
                    block.whole_block.end as int,
                    conflict_document::chosen_bytes(before.bytes(), block, choice),
                ),
                block.whole_block.start + conflict_document::chosen_bytes(
                    before.bytes(),
                    block,
                    choice,
                ).len(),
                None,
                parse,
            )
        }),
    ensures
        ({
            let bytes = before.bytes();
            let block = before.blocks@[before.active_block_index->0 as int];
            let front = bytes.take(block.whole_block.start as int);
            let back = bytes.skip(block.whole_block.end as int);
            let ours = bytes.subrange(block.ours.start as int, block.ours.end as int);
            let theirs = bytes.subrange(block.theirs.start as int, block.theirs.end as int);
            &&& choice is Ours ==> after.bytes() == front + ours + back
            &&& choice is Theirs ==> after.bytes() == front + theirs + back
            &&& choice is Both ==> after.bytes() == front + ours + theirs + back
            &&& choice is Base ==> match block.base {
                Some(base) => after.bytes() == front + bytes.subrange(
                    base.start as int,
                    base.end as int,
                ) + back,
                None => after.bytes() == front + back,
            }
            &&& after.selection_range is None
            &&& after.is_dirty
        }),
{
    let bytes = before.bytes();
    let block = before.blocks@[before.active_block_index->0 as int];
    let front = bytes.take(block.whole_block.start as int);
    let back = bytes.skip(block.whole_block.end as int);
    let chosen = conflict_document::chosen_bytes(bytes, block, choice);
    assert(after.bytes() =~= front + chosen + back);
    let ours = bytes.subrange(block.ours.start as int, block.ours.end as int);
    let theirs = bytes.subrange(block.theirs.start as int, block.theirs.end as int);
    if choice is Both {
        assert(front + (ours + theirs) + back =~= front + ours + theirs + back);
    }
    if choice is Base && block.base is None {
        assert(front + Seq::<u8>::empty() + back =~= front + back);
    }
}

} // verus!
