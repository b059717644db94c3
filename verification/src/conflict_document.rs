//! The text of a conflicted file while it is edited: cursor, selection, blocks and edits.

use crate::model::{ChangedFile, DiffSelectionKey};
use crate::text;
use crate::text::{ByteRange, Removal};
use vstd::prelude::*;
use vstd::string::*;
use vstd::utf8::*;

verus! {

/// A conflict block as the parser found it.
#[derive(Clone, Copy, Debug, PartialEq, Eq, Structural)]
pub struct ParsedConflictBlock {
    pub block_index: usize,
    pub whole_block: ByteRange,
    pub ours: ByteRange,
    pub base: Option<ByteRange>,
    pub theirs: ByteRange,
}

/// What the parser found in the text of a conflicted file.
#[derive(Debug)]
pub struct ParsedConflictFile {
    pub blocks: Vec<ParsedConflictBlock>,
    pub has_base_sections: bool,
}

/// The side of a conflict block that replaces the block.
#[derive(Clone, Copy, Debug, PartialEq, Eq, Structural)]
pub enum ConflictAcceptChoice {
    Ours,
    Theirs,
    Both,
    Base,
}

/// A conflicted file that is open in the editor.
#[derive(Debug)]
pub struct ConflictEditorDocument {
    pub generation: u64,
    pub version: u64,
    pub selection: DiffSelectionKey,
    pub file: ChangedFile,
    pub initial_raw_text: String,
    pub raw_text: String,
    pub blocks: Vec<ParsedConflictBlock>,
    pub has_base_sections: bool,
    pub parse_error: Option<String>,
    pub is_dirty: bool,
    pub cursor_pos: usize,
    pub selection_range: Option<ByteRange>,
    pub active_block_index: Option<usize>,
}

/// What one level of indentation inserts.
pub open spec fn indent_bytes() -> Seq<u8> {
    seq![32u8, 32u8, 32u8, 32u8]
}

/// The block whose text holds the cursor, both ends counted in.
pub open spec fn block_at_cursor(blocks: Seq<ParsedConflictBlock>, cursor: int) -> Option<usize>
    decreases blocks.len(),
{
    if blocks.len() == 0 {
        None
    } else if blocks[0].whole_block.start <= cursor <= blocks[0].whole_block.end {
        Some(blocks[0].block_index)
    } else {
        block_at_cursor(blocks.drop_first(), cursor)
    }
}

/// The active block after a parse: the one at the cursor, or else the one that was active if it
/// still exists, or else the first.
pub open spec fn settled_block(
    blocks: Seq<ParsedConflictBlock>,
    cursor: int,
    previous: Option<usize>,
) -> Option<usize> {
    if block_at_cursor(blocks, cursor) is Some {
        block_at_cursor(blocks, cursor)
    } else if previous is Some && previous->0 < blocks.len() {
        previous
    } else if blocks.len() > 0 {
        Some(blocks[0].block_index)
    } else {
        None
    }
}

/// A selection moved to boundaries of the text; an empty one is none.
pub open spec fn settled_selection(bytes: Seq<u8>, selection: Option<ByteRange>) -> Option<
    ByteRange,
> {
    match selection {
        Some(range) => {
            let start = text::floor_boundary(bytes, range.start as int);
            let end = text::floor_boundary(bytes, range.end as int);
            if start < end {
                Some(ByteRange { start: start as usize, end: end as usize })
            } else {
                None
            }
        },
        None => None,
    }
}

/// The range that an anchor and the cursor span; none where they coincide.
pub open spec fn spanned(anchor: usize, cursor: usize) -> Option<ByteRange> {
    if anchor < cursor {
        Some(ByteRange { start: anchor, end: cursor })
    } else if cursor < anchor {
        Some(ByteRange { start: cursor, end: anchor })
    } else {
        None
    }
}

impl ConflictEditorDocument {
    /// The bytes of the text.
    pub open spec fn bytes(self) -> Seq<u8> {
        text::bytes_of(self.raw_text@)
    }

    /// The selection, if there is one, begins and ends at boundaries of the text, in order.
    pub open spec fn selection_fits(self) -> bool {
        self.selection_range is Some ==> text::valid_range(self.bytes(), self.selection_range->0)
    }

    /// The document is `before` with its text, cursor and selection changed as given, and then
    /// parsed with the given result.
    pub open spec fn settled(
        self,
        before: ConflictEditorDocument,
        bytes: Seq<u8>,
        cursor: int,
        selection: Option<ByteRange>,
        is_dirty: bool,
        parsed: Result<ParsedConflictFile, String>,
    ) -> bool {
        &&& self.bytes() == bytes
        &&& self == (ConflictEditorDocument {
            version: if before.version < u64::MAX {
                (before.version + 1) as u64
            } else {
                u64::MAX
            },
            raw_text: self.raw_text,
            blocks: self.blocks,
            has_base_sections: parsed is Ok && parsed->Ok_0.has_base_sections,
            parse_error: match parsed {
                Ok(_) => None,
                Err(error) => Some(error),
            },
            is_dirty,
            cursor_pos: text::floor_boundary(bytes, cursor) as usize,
            selection_range: settled_selection(bytes, selection),
            active_block_index: settled_block(
                self.blocks@,
                text::floor_boundary(bytes, cursor),
                before.active_block_index,
            ),
            ..before
        })
        &&& self.blocks@ == match parsed {
            Ok(file) => file.blocks@,
            Err(_) => Seq::empty(),
        }
    }

    /// The document is `before` edited to the given text, cursor and selection, and parsed by
    /// `parse`.
    pub open spec fn edited<F: Fn(&str) -> Result<ParsedConflictFile, String>>(
        self,
        before: ConflictEditorDocument,
        bytes: Seq<u8>,
        cursor: int,
        selection: Option<ByteRange>,
        parse: F,
    ) -> bool {
        exists|source: &str, parsed: Result<ParsedConflictFile, String>|
            source@ == self.raw_text@ && #[trigger] parse.ensures((source,), parsed)
                && self.settled(before, bytes, cursor, selection, true, parsed)
    }

    /// The document is `before` with the cursor put at the boundary at or before `offset`, and
    /// the text between the anchor and the cursor selected where the selection is extended.
    pub open spec fn cursor_placed(
        self,
        before: ConflictEditorDocument,
        anchor: usize,
        offset: int,
        extend: bool,
    ) -> bool {
        let cursor = text::floor_boundary(before.bytes(), offset) as usize;
        self == (ConflictEditorDocument {
            cursor_pos: cursor,
            selection_range: if extend {
                spanned(anchor, cursor)
            } else {
                None
            },
            active_block_index: block_at_cursor(before.blocks@, cursor as int),
            ..before
        })
    }
}

/// The parser accepts every text.
pub open spec fn parses_anything<F: Fn(&str) -> Result<ParsedConflictFile, String>>(
    parse: F,
) -> bool {
    forall|source: &str| #[trigger] parse.requires((source,))
}

/// The index of the block that holds the cursor.
pub fn active_block_index_for_cursor(
    blocks: &Vec<ParsedConflictBlock>,
    cursor_pos: usize,
) -> (index: Option<usize>)
    ensures
        index == block_at_cursor(blocks@, cursor_pos as int),
{
    let mut i: usize = 0;
    assert(blocks@.skip(0) =~= blocks@);
    while i < blocks.len()
        invariant
            i <= blocks@.len(),
            block_at_cursor(blocks@.skip(i as int), cursor_pos as int) == block_at_cursor(
                blocks@,
                cursor_pos as int,
            ),
        decreases blocks@.len() - i,
    {
        let block = blocks[i];
        assert(blocks@.skip(i as int)[0] == block);
        if cursor_pos >= block.whole_block.start && cursor_pos <= block.whole_block.end {
            return Some(block.block_index);
        }
        assert(blocks@.skip(i as int).drop_first() =~= blocks@.skip(i + 1));
        i = i + 1;
    }
    None
}

/// The block that forward or backward navigation goes to.
pub open spec fn block_after_navigation(
    block_total: int,
    active_block_index: Option<usize>,
    forward: bool,
) -> Option<int> {
    if block_total == 0 {
        None
    } else {
        match active_block_index {
            Some(index) => Some(
                if forward {
                    if index + 1 < block_total {
                        index + 1
                    } else {
                        block_total - 1
                    }
                } else if index > 0 {
                    index - 1
                } else {
                    0
                },
            ),
            None => Some(
                if forward {
                    0
                } else {
                    block_total - 1
                },
            ),
        }
    }
}

/// The block that navigation goes to: the neighbour of the active one, or an edge of the list
/// where none is active. There is none where there are no blocks.
pub fn navigated_conflict_block_index(
    block_total: usize,
    active_block_index: Option<usize>,
    forward: bool,
) -> (index: Option<usize>)
    requires
        active_block_index is Some && forward ==> active_block_index->0 < usize::MAX,
    ensures
        (index is None) == (block_total == 0),
        index is Some ==> Some(index->0 as int) == block_after_navigation(
            block_total as int,
            active_block_index,
            forward,
        ),
{
    if block_total == 0 {
        return None;
    }
    match active_block_index {
        Some(index) => if forward {
            if index + 1 < block_total {
                Some(index + 1)
            } else {
                Some(block_total - 1)
            }
        } else if index > 0 {
            Some(index - 1)
        } else {
            Some(0)
        },
        None => if forward {
            Some(0)
        } else {
            Some(block_total - 1)
        },
    }
}

/// Whether the button that navigates between blocks is disabled: there are no blocks, or the
/// active one is at the edge.
pub fn conflict_block_navigation_disabled(
    block_total: usize,
    active_block_index: Option<usize>,
    forward: bool,
) -> (disabled: bool)
    requires
        active_block_index is Some && forward ==> active_block_index->0 < usize::MAX,
    ensures
        disabled == (block_total == 0 || match active_block_index {
            Some(index) => if forward {
                index + 1 >= block_total
            } else {
                index == 0
            },
            None => false,
        }),
{
    if block_total == 0 {
        return true;
    }
    match active_block_index {
        Some(index) => if forward {
            index + 1 >= block_total
        } else {
            index == 0
        },
        None => false,
    }
}

/// Takes in a parse of the document's text: the version goes up, cursor and selection move to
/// boundaries, and the active block is found anew.
pub fn reparse_conflict_document(
    document: &mut ConflictEditorDocument,
    parsed: Result<ParsedConflictFile, String>,
)
    ensures
        final(document).settled(
            *old(document),
            old(document).bytes(),
            old(document).cursor_pos as int,
            old(document).selection_range,
            old(document).is_dirty,
            parsed,
        ),
        final(document).selection_fits(),
        final(document).raw_text == old(document).raw_text,
{
    let previous_active = document.active_block_index;
    document.version = document.version.saturating_add(1);
    document.cursor_pos =
    text::clamp_offset_to_char_boundary(document.raw_text.as_str(), document.cursor_pos);
    document.selection_range = match document.selection_range {
        Some(range) => {
            let start = text::clamp_offset_to_char_boundary(
                document.raw_text.as_str(),
                range.start,
            );
            let end = text::clamp_offset_to_char_boundary(document.raw_text.as_str(), range.end);
            if start < end {
                Some(ByteRange { start, end })
            } else {
                None
            }
        },
        None => None,
    };
    match parsed {
        Ok(file) => {
            document.blocks = file.blocks;
            document.has_base_sections = file.has_base_sections;
            document.parse_error = None;
        },
        Err(error) => {
            document.blocks = Vec::new();
            document.has_base_sections = false;
            document.parse_error = Some(error);
        },
    }
    let at_cursor = active_block_index_for_cursor(&document.blocks, document.cursor_pos);
    document.active_block_index = match at_cursor {
        Some(index) => Some(index),
        None => match previous_active {
            Some(index) if index < document.blocks.len() => Some(index),
            _ => if document.blocks.len() > 0 {
                Some(document.blocks[0].block_index)
            } else {
                None
            },
        },
    };
}

/// Parses the edited text and settles the document.
fn settle_edit<F: Fn(&str) -> Result<ParsedConflictFile, String>>(
    document: &mut ConflictEditorDocument,
    raw_text: String,
    cursor_pos: usize,
    selection_range: Option<ByteRange>,
    parse: &F,
)
    requires
        parses_anything(*parse),
    ensures
        final(document).edited(
            *old(document),
            text::bytes_of(raw_text@),
            cursor_pos as int,
            selection_range,
            *parse,
        ),
        final(document).selection_fits(),
{
    document.raw_text = raw_text;
    document.cursor_pos = cursor_pos;
    document.selection_range = selection_range;
    document.is_dirty = true;
    let parsed = parse(document.raw_text.as_str());
    let ghost source: &str = choose|source: &str|
        source@ == document.raw_text@ && parse.ensures((source,), parsed);
    let ghost result = parsed;
    reparse_conflict_document(document, parsed);
    assert(parse.ensures((source,), result));
}

/// Replaces a stretch of the text. The cursor goes behind the replacement and nothing stays
/// selected.
pub fn replace_document_range<F: Fn(&str) -> Result<ParsedConflictFile, String>>(
    document: &mut ConflictEditorDocument,
    range: ByteRange,
    replacement: &str,
    parse: &F,
)
    requires
        text::valid_range(old(document).bytes(), range),
        parses_anything(*parse),
    ensures
        final(document).edited(
            *old(document),
            text::splice(
                old(document).bytes(),
                range.start as int,
                range.end as int,
                text::bytes_of(replacement@),
            ),
            range.start + text::bytes_of(replacement@).len(),
            None,
            *parse,
        ),
        final(document).selection_fits(),
{
    let raw_text = text::replace_text(document.raw_text.as_str(), range, replacement);
    let len = text::byte_len(raw_text.as_str());
    let cursor: usize = range.start + text::byte_len(replacement);
    settle_edit(document, raw_text, cursor, None, parse);
}

/// The stretch that an insertion replaces: the selection, or nothing at the cursor.
pub open spec fn insertion_range(document: ConflictEditorDocument) -> ByteRange {
    match document.selection_range {
        Some(range) => range,
        None => {
            let cursor = text::floor_boundary(document.bytes(), document.cursor_pos as int) as usize;
            ByteRange { start: cursor, end: cursor }
        },
    }
}

/// Replaces the selection, or inserts at the cursor where nothing is selected.
pub fn replace_document_selection<F: Fn(&str) -> Result<ParsedConflictFile, String>>(
    document: &mut ConflictEditorDocument,
    replacement: &str,
    parse: &F,
)
    requires
        old(document).selection_fits(),
        parses_anything(*parse),
    ensures
        final(document).edited(
            *old(document),
            text::splice(
                old(document).bytes(),
                insertion_range(*old(document)).start as int,
                insertion_range(*old(document)).end as int,
                text::bytes_of(replacement@),
            ),
            insertion_range(*old(document)).start + text::bytes_of(replacement@).len(),
            None,
            *parse,
        ),
        final(document).selection_fits(),
{
    match document.selection_range {
        Some(range) => {
            replace_document_range(document, range, replacement, parse);
        },
        None => {
            let cursor = text::clamp_offset_to_char_boundary(
                document.raw_text.as_str(),
                document.cursor_pos,
            );
            replace_document_range(
                document,
                ByteRange { start: cursor, end: cursor },
                replacement,
                parse,
            );
        },
    }
}

/// What a backward deletion takes out: the selection, or the character before the cursor.
pub open spec fn backward_deletion(document: ConflictEditorDocument) -> ByteRange {
    match document.selection_range {
        Some(range) => range,
        None => {
            let cursor = text::floor_boundary(document.bytes(), document.cursor_pos as int);
            ByteRange {
                start: text::previous_boundary(document.bytes(), cursor) as usize,
                end: cursor as usize,
            }
        },
    }
}

/// What a forward deletion takes out: the selection, or the character at the cursor.
pub open spec fn forward_deletion(document: ConflictEditorDocument) -> ByteRange {
    match document.selection_range {
        Some(range) => range,
        None => {
            let cursor = text::floor_boundary(document.bytes(), document.cursor_pos as int);
            ByteRange {
                start: cursor as usize,
                end: text::next_boundary(document.bytes(), cursor) as usize,
            }
        },
    }
}

/// A deletion does something: there is a selection, or a character to delete.
pub open spec fn deletes(document: ConflictEditorDocument, range: ByteRange) -> bool {
    document.selection_range is Some || range.start < range.end
}

/// Deletes the selection, or the character before the cursor. Reports whether anything was there
/// to delete.
pub fn delete_document_backward<F: Fn(&str) -> Result<ParsedConflictFile, String>>(
    document: &mut ConflictEditorDocument,
    parse: &F,
) -> (changed: bool)
    requires
        old(document).selection_fits(),
        parses_anything(*parse),
    ensures
        changed == deletes(*old(document), backward_deletion(*old(document))),
        !changed ==> *final(document) == *old(document),
        changed ==> final(document).edited(
            *old(document),
            text::splice(
                old(document).bytes(),
                backward_deletion(*old(document)).start as int,
                backward_deletion(*old(document)).end as int,
                Seq::empty(),
            ),
            backward_deletion(*old(document)).start as int,
            None,
            *parse,
        ),
        final(document).selection_fits(),
{
    proof {
        lemma_empty_text();
    }
    match document.selection_range {
        Some(range) => {
            replace_document_range(document, range, "", parse);
            true
        },
        None => {
            let cursor = text::clamp_offset_to_char_boundary(
                document.raw_text.as_str(),
                document.cursor_pos,
            );
            proof {
                encode_utf8_valid_utf8(document.raw_text@);
                text::lemma_floor_boundary(document.bytes(), cursor as int);
            }
            let previous = text::previous_char_boundary(document.raw_text.as_str(), cursor);
            if previous == cursor {
                return false;
            }
            replace_document_range(
                document,
                ByteRange { start: previous, end: cursor },
                "",
                parse,
            );
            true
        },
    }
}

/// Deletes the selection, or the character at the cursor. Reports whether anything was there to
/// delete.
pub fn delete_document_forward<F: Fn(&str) -> Result<ParsedConflictFile, String>>(
    document: &mut ConflictEditorDocument,
    parse: &F,
) -> (changed: bool)
    requires
        old(document).selection_fits(),
        parses_anything(*parse),
    ensures
        changed == deletes(*old(document), forward_deletion(*old(document))),
        !changed ==> *final(document) == *old(document),
        changed ==> final(document).edited(
            *old(document),
            text::splice(
                old(document).bytes(),
                forward_deletion(*old(document)).start as int,
                forward_deletion(*old(document)).end as int,
                Seq::empty(),
            ),
            forward_deletion(*old(document)).start as int,
            None,
            *parse,
        ),
        final(document).selection_fits(),
{
    proof {
        lemma_empty_text();
    }
    match document.selection_range {
        Some(range) => {
            replace_document_range(document, range, "", parse);
            true
        },
        None => {
            let cursor = text::clamp_offset_to_char_boundary(
                document.raw_text.as_str(),
                document.cursor_pos,
            );
            proof {
                encode_utf8_valid_utf8(document.raw_text@);
                text::lemma_floor_boundary(document.bytes(), cursor as int);
            }
            let next = text::next_char_boundary(document.raw_text.as_str(), cursor);
            if next == cursor {
                return false;
            }
            replace_document_range(document, ByteRange { start: cursor, end: next }, "", parse);
            true
        },
    }
}

proof fn lemma_empty_text()
    ensures
        text::bytes_of(""@) == Seq::<u8>::empty(),
{
    reveal_strlit("");
    assert(text::bytes_of(""@) =~= Seq::<u8>::empty());
}

proof fn lemma_indent_text()
    ensures
        text::bytes_of("    "@) == indent_bytes(),
{
    reveal_strlit("    ");
    reveal_with_fuel(encode_utf8, 5);
    is_ascii_chars_encode_utf8("    "@);
    assert(text::bytes_of("    "@) =~= indent_bytes());
}

/// The selection spans several lines.
pub open spec fn selects_lines(document: ConflictEditorDocument) -> bool {
    document.selection_range is Some && text::has_newline(
        document.bytes(),
        document.selection_range->0.start as int,
        document.selection_range->0.end as int,
    )
}

/// The starts of the lines that indenting and outdenting work on.
pub open spec fn edited_lines(document: ConflictEditorDocument) -> Seq<int> {
    text::touched_lines(document.bytes(), document.selection_range, document.cursor_pos as int)
}

/// The selection of an indented document: each end moves behind what was inserted at or before
/// it.
pub open spec fn indented_selection(document: ConflictEditorDocument) -> ByteRange {
    let range = document.selection_range->0;
    let starts = edited_lines(document);
    ByteRange {
        start: (range.start + 4 * text::count_at_most(starts, range.start as int)) as usize,
        end: (range.end + 4 * text::count_at_most(starts, range.end as int)) as usize,
    }
}

/// Counts the positions at or before a limit.
fn count_positions(positions: &Vec<usize>, limit: usize) -> (count: usize)
    ensures
        count == text::count_at_most(text::offsets(positions@), limit as int),
        count <= positions@.len(),
{
    let mut count: usize = 0;
    let mut i: usize = 0;
    let ghost all = text::offsets(positions@);
    assert(all.take(0) =~= Seq::<int>::empty());
    while i < positions.len()
        invariant
            i <= positions@.len(),
            all == text::offsets(positions@),
            count <= i,
            count == text::count_at_most(all.take(i as int), limit as int),
        decreases positions@.len() - i,
    {
        assert(all.take(i + 1).drop_last() =~= all.take(i as int));
        if positions[i] <= limit {
            count = count + 1;
        }
        i = i + 1;
    }
    assert(all.take(i as int) =~= all);
    count
}

/// Indents: every line of a selection that spans several lines, or else inserts the indentation
/// in place of the selection or at the cursor.
pub fn indent_document_selection<F: Fn(&str) -> Result<ParsedConflictFile, String>>(
    document: &mut ConflictEditorDocument,
    parse: &F,
) -> (changed: bool)
    requires
        old(document).selection_fits(),
        parses_anything(*parse),
    ensures
        changed,
        !selects_lines(*old(document)) ==> final(document).edited(
            *old(document),
            text::splice(
                old(document).bytes(),
                insertion_range(*old(document)).start as int,
                insertion_range(*old(document)).end as int,
                indent_bytes(),
            ),
            insertion_range(*old(document)).start + 4,
            None,
            *parse,
        ),
        selects_lines(*old(document)) ==> final(document).edited(
            *old(document),
            text::insert_all(old(document).bytes(), edited_lines(*old(document)), indent_bytes()),
            indented_selection(*old(document)).end as int,
            Some(indented_selection(*old(document))),
            *parse,
        ),
        final(document).selection_fits(),
{
    proof {
        lemma_indent_text();
    }
    if let Some(range) = document.selection_range {
        if text::selection_spans_multiple_lines(document.raw_text.as_str(), range) {
            let starts = text::touched_line_starts(
                document.raw_text.as_str(),
                Some(range),
                document.cursor_pos,
            );
            let ghost bytes = document.bytes();
            let ghost positions = text::offsets(starts@);
            proof {
                text::lemma_touched_lines(
                    document.raw_text@,
                    Some(range),
                    document.cursor_pos as int,
                );
                assert forall|i: int| 0 <= i < starts@.len() implies text::is_boundary(
                    bytes,
                    (#[trigger] starts@[i]) as int,
                ) by {
                    assert(positions[i] == starts@[i]);
                }
                text::lemma_insert_all_len(bytes, positions, indent_bytes());
            }
            let raw_text = text::insert_at_each(document.raw_text.as_str(), &starts, "    ");
            let len = text::byte_len(raw_text.as_str());
            let start_count = count_positions(&starts, range.start);
            let end_count = count_positions(&starts, range.end);
            let selection = ByteRange {
                start: range.start + start_count * 4,
                end: range.end + end_count * 4,
            };
            settle_edit(document, raw_text, selection.end, Some(selection), parse);
            return true;
        }
    }
    replace_document_selection(document, "    ", parse);
    true
}

/// The stretches that outdenting takes out of the document.
pub open spec fn document_removals(document: ConflictEditorDocument) -> Seq<Removal> {
    text::outdent_removals(document.bytes(), edited_lines(document))
}

/// The selection of an outdented document, before it is moved to boundaries.
pub open spec fn outdented_selection(document: ConflictEditorDocument) -> Option<ByteRange> {
    match document.selection_range {
        Some(range) => {
            let removals = document_removals(document);
            let start = text::adjusted_offset(removals, range.start as int);
            let end = text::adjusted_offset(removals, range.end as int);
            if start < end {
                Some(ByteRange { start: start as usize, end: end as usize })
            } else {
                None
            }
        },
        None => None,
    }
}

/// The cursor of an outdented document, before it is moved to a boundary. It goes to the end of
/// the selection where there is one.
pub open spec fn outdented_cursor(document: ConflictEditorDocument) -> int {
    text::adjusted_offset(
        document_removals(document),
        match document.selection_range {
            Some(range) => range.end as int,
            None => document.cursor_pos as int,
        },
    )
}

/// Outdents every line that the selection touches, or the line of the cursor. Reports whether any
/// of them was indented.
pub fn outdent_document_selection<F: Fn(&str) -> Result<ParsedConflictFile, String>>(
    document: &mut ConflictEditorDocument,
    parse: &F,
) -> (changed: bool)
    requires
        parses_anything(*parse),
    ensures
        changed == (document_removals(*old(document)).len() > 0),
        !changed ==> *final(document) == *old(document),
        changed ==> final(document).edited(
            *old(document),
            text::remove_all(old(document).bytes(), document_removals(*old(document))),
            outdented_cursor(*old(document)),
            outdented_selection(*old(document)),
            *parse,
        ),
        changed || old(document).selection_fits() ==> final(document).selection_fits(),
{
    let selection = document.selection_range;
    let starts = text::touched_line_starts(
        document.raw_text.as_str(),
        selection,
        document.cursor_pos,
    );
    let len = text::byte_len(document.raw_text.as_str());
    let ghost bytes = document.bytes();
    let ghost positions = text::offsets(starts@);
    proof {
        text::lemma_touched_lines(document.raw_text@, selection, document.cursor_pos as int);
        text::lemma_outdent_removals(document.raw_text@, positions);
    }
    let mut removals: Vec<Removal> = Vec::new();
    let mut i: usize = 0;
    assert(positions.take(0) =~= Seq::<int>::empty());
    while i < starts.len()
        invariant
            i <= starts@.len(),
            bytes == document.bytes(),
            positions == text::offsets(starts@),
            forall|k: int|
                0 <= k < positions.len() ==> text::is_boundary(bytes, #[trigger] positions[k]),
            removals@ == text::outdent_removals(bytes, positions.take(i as int)),
        decreases starts@.len() - i,
    {
        assert(positions[i as int] == starts@[i as int]);
        let taken = text::leading_outdent_len(document.raw_text.as_str(), starts[i]);
        assert(positions.take(i + 1).drop_last() =~= positions.take(i as int));
        if taken > 0 {
            removals.push(Removal { start: starts[i], len: taken });
        }
        i = i + 1;
    }
    assert(positions.take(i as int) =~= positions);
    if removals.len() == 0 {
        return false;
    }
    let raw_text = text::remove_each(document.raw_text.as_str(), &removals);
    match selection {
        Some(range) => {
            let start = text::adjust_offset_for_removals(range.start, &removals);
            let end = text::adjust_offset_for_removals(range.end, &removals);
            let kept = if start < end {
                Some(ByteRange { start, end })
            } else {
                None
            };
            settle_edit(document, raw_text, end, kept, parse);
        },
        None => {
            let cursor = text::adjust_offset_for_removals(document.cursor_pos, &removals);
            settle_edit(document, raw_text, cursor, None, parse);
        },
    }
    true
}

/// The text that takes the place of a block.
pub open spec fn chosen_bytes(
    bytes: Seq<u8>,
    block: ParsedConflictBlock,
    choice: ConflictAcceptChoice,
) -> Seq<u8> {
    let part = |range: ByteRange| bytes.subrange(range.start as int, range.end as int);
    match choice {
        ConflictAcceptChoice::Ours => part(block.ours),
        ConflictAcceptChoice::Theirs => part(block.theirs),
        ConflictAcceptChoice::Both => part(block.ours) + part(block.theirs),
        ConflictAcceptChoice::Base => match block.base {
            Some(range) => part(range),
            None => Seq::empty(),
        },
    }
}

/// The active block, if the document has it.
pub open spec fn active_block(document: ConflictEditorDocument) -> Option<ParsedConflictBlock> {
    match document.active_block_index {
        Some(index) => if index < document.blocks@.len() {
            Some(document.blocks@[index as int])
        } else {
            None
        },
        None => None,
    }
}

/// The active block and what is chosen of it lie inside the text, cut at boundaries.
pub open spec fn choice_fits(
    document: ConflictEditorDocument,
    choice: ConflictAcceptChoice,
) -> bool {
    active_block(document) matches Some(block) ==> {
        let fits = |range: ByteRange| text::valid_range(document.bytes(), range);
        &&& fits(block.whole_block)
        &&& match choice {
            ConflictAcceptChoice::Ours => fits(block.ours),
            ConflictAcceptChoice::Theirs => fits(block.theirs),
            ConflictAcceptChoice::Both => fits(block.ours) && fits(block.theirs),
            ConflictAcceptChoice::Base => block.base matches Some(range) ==> fits(range),
        }
    }
}

/// Replaces the active block by the chosen side. Without an active block nothing changes.
pub fn apply_active_conflict_choice<F: Fn(&str) -> Result<ParsedConflictFile, String>>(
    document: &mut ConflictEditorDocument,
    choice: ConflictAcceptChoice,
    parse: &F,
)
    requires
        choice_fits(*old(document), choice),
        parses_anything(*parse),
    ensures
        active_block(*old(document)) is None ==> *final(document) == *old(document),
        active_block(*old(document)) matches Some(block) ==> final(document).edited(
            *old(document),
            text::splice(
                old(document).bytes(),
                block.whole_block.start as int,
                block.whole_block.end as int,
                chosen_bytes(old(document).bytes(), block, choice),
            ),
            block.whole_block.start + chosen_bytes(old(document).bytes(), block, choice).len(),
            None,
            *parse,
        ),
{
    let index: usize = match document.active_block_index {
        Some(index) => index,
        None => {
            return ;
        },
    };
    if index >= document.blocks.len() {
        return ;
    }
    let block = document.blocks[index];
    let raw = document.raw_text.as_str();
    let replacement: String = match choice {
        ConflictAcceptChoice::Ours => text::text_between(
            raw,
            block.ours.start,
            block.ours.end,
        ).to_owned(),
        ConflictAcceptChoice::Theirs => text::text_between(
            raw,
            block.theirs.start,
            block.theirs.end,
        ).to_owned(),
        ConflictAcceptChoice::Both => {
            let ours = text::text_between(raw, block.ours.start, block.ours.end);
            let theirs = text::text_between(raw, block.theirs.start, block.theirs.end);
            let mut both = ours.to_owned();
            both.append(theirs);
            proof {
                text::lemma_bytes_concat(ours@, theirs@);
            }
            both
        },
        ConflictAcceptChoice::Base => match block.base {
            Some(range) => text::text_between(raw, range.start, range.end).to_owned(),
            None => {
                assert(text::bytes_of(Seq::empty()) =~= Seq::<u8>::empty());
                String::new()
            },
        },
    };
    replace_document_range(document, block.whole_block, replacement.as_str(), parse);
}

/// Makes the neighbouring block the active one and puts the cursor at its start. Returns the line
/// to scroll to, or nothing where there is no block.
pub fn move_conflict_active_block(
    document: &mut ConflictEditorDocument,
    forward: bool,
) -> (scroll_line: Option<usize>)
    requires
        old(document).active_block_index is Some && forward ==> old(document).active_block_index->0
            < usize::MAX,
        !forward && old(document).active_block_index is Some ==> old(document).active_block_index->0
            <= old(document).blocks@.len(),
    ensures
        match block_after_navigation(
            old(document).blocks@.len() as int,
            old(document).active_block_index,
            forward,
        ) {
            None => scroll_line is None && *final(document) == *old(document),
            Some(index) => {
                let block = old(document).blocks@[index];
                let end = if block.whole_block.start <= old(document).bytes().len() {
                    block.whole_block.start as int
                } else {
                    old(document).bytes().len() as int
                };
                &&& scroll_line is Some
                &&& scroll_line->0 == text::newline_count(old(document).bytes(), end)
                &&& *final(document) == (ConflictEditorDocument {
                    active_block_index: Some(block.block_index),
                    cursor_pos: block.whole_block.start,
                    selection_range: None,
                    ..*old(document)
                })
            },
        },
{
    let next = navigated_conflict_block_index(
        document.blocks.len(),
        document.active_block_index,
        forward,
    );
    match next {
        None => None,
        Some(index) => {
            let block = document.blocks[index];
            let line = text::line_index_for_offset_in_text(
                document.raw_text.as_str(),
                block.whole_block.start,
            );
            document.active_block_index = Some(block.block_index);
            document.cursor_pos = block.whole_block.start;
            document.selection_range = None;
            Some(line)
        },
    }
}

/// Puts the cursor at the boundary at or before an offset. The selection is extended from the
/// anchor, or from the offset where there is no anchor, or else dropped.
pub fn set_conflict_cursor(
    document: &mut ConflictEditorDocument,
    anchor: Option<usize>,
    offset: usize,
    extend_selection: bool,
)
    ensures
        final(document).cursor_placed(
            *old(document),
            if anchor is Some {
                anchor->0
            } else {
                offset
            },
            offset as int,
            extend_selection,
        ),
{
    let from: usize = match anchor {
        Some(anchor) => anchor,
        None => offset,
    };
    let cursor = text::clamp_offset_to_char_boundary(document.raw_text.as_str(), offset);
    document.selection_range =
    if !extend_selection {
        None
    } else if from < cursor {
        Some(ByteRange { start: from, end: cursor })
    } else if cursor < from {
        Some(ByteRange { start: cursor, end: from })
    } else {
        None
    };
    document.cursor_pos = cursor;
    document.active_block_index = active_block_index_for_cursor(&document.blocks, cursor);
}

/// The anchor after the cursor went from `cursor` to `target`: an extended selection keeps its
/// anchor, or starts at the old cursor; any other movement starts anew at the target.
pub open spec fn moved_anchor(
    anchor: Option<usize>,
    cursor: usize,
    target: usize,
    extend: bool,
) -> usize {
    if extend {
        if anchor is Some {
            anchor->0
        } else {
            cursor
        }
    } else {
        target
    }
}

/// Moves the cursor to a target and keeps the anchor of an extended selection.
pub fn move_conflict_cursor(
    document: &mut ConflictEditorDocument,
    anchor: &mut Option<usize>,
    target: usize,
    extend_selection: bool,
)
    ensures
        *final(anchor) == Some(
            moved_anchor(*old(anchor), old(document).cursor_pos, target, extend_selection),
        ),
        final(document).cursor_placed(
            *old(document),
            moved_anchor(*old(anchor), old(document).cursor_pos, target, extend_selection),
            target as int,
            extend_selection,
        ),
{
    if extend_selection {
        if anchor.is_none() {
            *anchor = Some(document.cursor_pos);
        }
    } else {
        *anchor = Some(target);
    }
    set_conflict_cursor(document, *anchor, target, extend_selection);
}

/// Where a horizontal movement goes: out of the selection at its end or start, or else to the
/// next or previous character.
pub open spec fn horizontal_target(
    document: ConflictEditorDocument,
    forward: bool,
    extend: bool,
) -> int {
    if !extend && document.selection_range is Some {
        if forward {
            document.selection_range->0.end as int
        } else {
            document.selection_range->0.start as int
        }
    } else if forward {
        text::next_boundary(document.bytes(), document.cursor_pos as int)
    } else {
        text::previous_boundary(document.bytes(), document.cursor_pos as int)
    }
}

/// Moves the cursor by a character, or to an end of the selection.
pub fn move_conflict_cursor_horizontal(
    document: &mut ConflictEditorDocument,
    anchor: &mut Option<usize>,
    forward: bool,
    extend_selection: bool,
)
    ensures
        ({
            let target = horizontal_target(*old(document), forward, extend_selection) as usize;
            let start = moved_anchor(
                *old(anchor),
                old(document).cursor_pos,
                target,
                extend_selection,
            );
            &&& *final(anchor) == Some(start)
            &&& final(document).cursor_placed(
                *old(document),
                start,
                target as int,
                extend_selection,
            )
        }),
{
    let target: usize = match document.selection_range {
        Some(range) if !extend_selection => if forward {
            range.end
        } else {
            range.start
        },
        _ => if forward {
            text::next_char_boundary(document.raw_text.as_str(), document.cursor_pos)
        } else {
            text::previous_char_boundary(document.raw_text.as_str(), document.cursor_pos)
        },
    };
    move_conflict_cursor(document, anchor, target, extend_selection);
}

/// Selects the whole text and puts the cursor at its end.
pub fn select_all_conflict_text(document: &mut ConflictEditorDocument, anchor: &mut Option<usize>)
    ensures
        *final(anchor) == Some(0usize),
        *final(document) == (ConflictEditorDocument {
            cursor_pos: old(document).bytes().len() as usize,
            selection_range: spanned(0, old(document).bytes().len() as usize),
            active_block_index: block_at_cursor(
                old(document).blocks@,
                old(document).bytes().len() as int,
            ),
            ..*old(document)
        }),
        final(document).selection_fits(),
{
    let len = text::byte_len(document.raw_text.as_str());
    proof {
        encode_utf8_valid_utf8(document.raw_text@);
        text::lemma_boundary_ends(document.bytes());
    }
    document.cursor_pos = len;
    document.selection_range = if len > 0 {
        Some(ByteRange { start: 0, end: len })
    } else {
        None
    };
    document.active_block_index = active_block_index_for_cursor(&document.blocks, len);
    *anchor = Some(0);
}

/// The selected text, unless nothing or an empty range is selected.
pub fn copy_conflict_selection(document: &ConflictEditorDocument) -> (copied: Option<String>)
    requires
        document.selection_fits(),
    ensures
        copied is Some == (document.selection_range is Some && document.selection_range->0.start
            < document.selection_range->0.end),
        copied is Some ==> text::bytes_of(copied->0@) == document.bytes().subrange(
            document.selection_range->0.start as int,
            document.selection_range->0.end as int,
        ),
{
    match document.selection_range {
        Some(range) => {
            if range.start >= range.end {
                return None;
            }
            Some(
                text::text_between(document.raw_text.as_str(), range.start, range.end).to_owned(),
            )
        },
        None => None,
    }
}

/// Takes the selected text out of the document and returns it. Without a selection nothing
/// changes.
pub fn cut_conflict_selection<F: Fn(&str) -> Result<ParsedConflictFile, String>>(
    document: &mut ConflictEditorDocument,
    parse: &F,
) -> (cut: Option<String>)
    requires
        old(document).selection_fits(),
        parses_anything(*parse),
    ensures
        cut is Some == old(document).selection_range is Some,
        cut is None ==> *final(document) == *old(document),
        cut is Some ==> {
            let range = old(document).selection_range->0;
            &&& text::bytes_of(cut->0@) == old(document).bytes().subrange(
                range.start as int,
                range.end as int,
            )
            &&& final(document).edited(
                *old(document),
                text::splice(
                    old(document).bytes(),
                    range.start as int,
                    range.end as int,
                    Seq::empty(),
                ),
                range.start as int,
                None,
                *parse,
            )
        },
{
    proof {
        lemma_empty_text();
    }
    match document.selection_range {
        Some(range) => {
            let cut = text::text_between(
                document.raw_text.as_str(),
                range.start,
                range.end,
            ).to_owned();
            replace_document_range(document, range, "", parse);
            Some(cut)
        },
        None => None,
    }
}

/// What is cut is the selected text: put back at the cursor, it gives the text from before.
pub proof fn cut_text_can_be_put_back<F: Fn(&str) -> Result<ParsedConflictFile, String>>(
    document: &mut ConflictEditorDocument,
    parse: &F,
    cut: Option<String>,
)
    requires
        old(document).selection_fits(),
        call_ensures(cut_conflict_selection::<F>, (document, parse), cut),
    ensures
        old(document).selection_range is None ==> cut is None && *final(document) == *old(document),
        old(document).selection_range is Some ==> {
            let at = final(document).cursor_pos as int;
            &&& cut is Some
            &&& final(document).selection_range is None
            &&& at == old(document).selection_range->0.start
            &&& final(document).bytes().take(at) + text::bytes_of(cut->0@) + final(document).bytes().skip(at) == old(document).bytes()
        },
{
    if old(document).selection_range is Some {
        let range = old(document).selection_range->0;
        let bytes = old(document).bytes();
        let start = range.start as int;
        let end = range.end as int;
        let rest = text::splice(bytes, start, end, Seq::empty());
        assert(rest =~= bytes.take(start) + bytes.skip(end));
        assert(final(document).bytes() == rest);
        assert(rest.take(start) =~= bytes.take(start));
        assert(rest.skip(start) =~= bytes.skip(end));
        assert(bytes.take(start) + bytes.subrange(start, end) + bytes.skip(end) =~= bytes);
    }
}

/// Selecting all puts the cursor behind the text and selects it from its first byte to its last.
pub proof fn selecting_all_leaves_nothing_out(
    document: &mut ConflictEditorDocument,
    anchor: &mut Option<usize>,
)
    requires
        old(document).bytes().len() <= usize::MAX,
        call_ensures(select_all_conflict_text, (document, anchor), ()),
    ensures
        final(document).raw_text == old(document).raw_text,
        final(document).cursor_pos == old(document).bytes().len(),
        old(document).bytes().len() > 0 ==> final(document).selection_range is Some && final(document).selection_range->0.start == 0 && final(document).selection_range->0.end == old(document).bytes().len(),
        old(document).bytes().len() == 0 ==> final(document).selection_range is None,
        *final(anchor) == Some(0usize),
{
}

/// A button for navigation is disabled exactly where navigation leads to no other block than the
/// active one.
pub proof fn navigation_is_disabled_where_it_leads_nowhere(
    block_total: usize,
    active: Option<usize>,
    forward: bool,
    disabled: bool,
)
    requires
        active is Some ==> active->0 < block_total,
        call_ensures(conflict_block_navigation_disabled, (block_total, active, forward), disabled),
    ensures
        ({
            let target = block_after_navigation(block_total as int, active, forward);
            &&& disabled == (target is None || (active is Some && target->0 == active->0))
            &&& !disabled ==> 0 <= target->0 < block_total
        }),
{
}

} // verus!
