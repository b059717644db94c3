//! The lines of a conflicted file: where they begin, what they show and which block they are in.

use crate::conflict_document;
use crate::conflict_document::ConflictEditorDocument;
use crate::diff_runs;
use crate::diff_text;
use crate::model::{DiffLineKind, HighlightedSpan};
use crate::text;
use crate::text::ByteRange;
use vstd::prelude::*;
use vstd::string::*;
use vstd::utf8::*;

verus! {

/// How the highlights of a line were found: from the state of the lines before it, or from the
/// line alone.
#[derive(Clone, Copy, Debug, PartialEq, Eq, Structural)]
pub enum ConflictHighlightMode {
    Stateful,
    Fallback,
}

/// A line of a conflicted file.
#[derive(Debug)]
pub struct ConflictRenderLine {
    pub kind: DiffLineKind,
    pub raw_text: String,
    pub highlights: Option<Vec<HighlightedSpan>>,
    pub highlight_mode: ConflictHighlightMode,
    pub line_number: usize,
    pub start: usize,
    pub end: usize,
    pub block_index: Option<usize>,
}

/// A line begins with seven times the same byte, and a space where one is asked for.
pub open spec fn has_marker(line: Seq<u8>, byte: u8, spaced: bool) -> bool {
    &&& line.len() >= 7
    &&& forall|i: int| 0 <= i < 7 ==> #[trigger] line[i] == byte
    &&& spaced ==> line.len() >= 8 && line[7] == text::SPACE
}

/// The line opens a conflict block.
pub open spec fn opens_block(line: Seq<u8>) -> bool {
    has_marker(line, 60, true)
}

/// The line begins the base section of a block.
pub open spec fn begins_base(line: Seq<u8>) -> bool {
    has_marker(line, 124, true)
}

/// The line begins the section of the other side.
pub open spec fn begins_theirs(line: Seq<u8>) -> bool {
    has_marker(line, 61, false)
}

/// The line closes a conflict block.
pub open spec fn closes_block(line: Seq<u8>) -> bool {
    has_marker(line, 62, true)
}

/// Where in a conflict the next line lies: the section, the block, and the number of blocks that
/// were closed before.
pub struct SectionState {
    pub section: DiffLineKind,
    pub block: Option<int>,
    pub closed: int,
}

/// The state before the first line.
pub open spec fn first_section() -> SectionState {
    SectionState { section: DiffLineKind::Context, block: None, closed: 0 }
}

/// The state behind a line.
pub open spec fn next_section(state: SectionState, line: Seq<u8>) -> SectionState {
    if opens_block(line) {
        SectionState {
            section: DiffLineKind::ConflictOurs,
            block: Some(state.closed),
            closed: state.closed,
        }
    } else if begins_base(line) {
        SectionState { section: DiffLineKind::ConflictBase, ..state }
    } else if begins_theirs(line) {
        SectionState { section: DiffLineKind::ConflictTheirs, ..state }
    } else if closes_block(line) {
        SectionState { section: DiffLineKind::Context, block: None, closed: state.closed + 1 }
    } else {
        state
    }
}

/// What a line shows.
pub open spec fn line_kind(state: SectionState, line: Seq<u8>) -> DiffLineKind {
    if opens_block(line) || begins_base(line) || begins_theirs(line) {
        DiffLineKind::ConflictMarker
    } else if closes_block(line) {
        if state.block is Some {
            DiffLineKind::ConflictMarker
        } else {
            DiffLineKind::Context
        }
    } else {
        state.section
    }
}

/// The block that a line belongs to, its opening and closing markers counted in.
pub open spec fn line_block(state: SectionState, line: Seq<u8>) -> Option<int> {
    if closes_block(line) {
        state.block
    } else {
        next_section(state, line).block
    }
}

/// The starts of the lines of a text. There is always one, and none begins at the end of the
/// text unless the text is empty.
pub open spec fn line_starts(bytes: Seq<u8>) -> Seq<int> {
    seq![0int] + text::line_starts_after(bytes, 0, bytes.len() - 1)
}

/// The end of a line, its line feed counted in.
pub open spec fn line_end(bytes: Seq<u8>, index: int) -> int {
    if index + 1 < line_starts(bytes).len() {
        line_starts(bytes)[index + 1]
    } else {
        bytes.len() as int
    }
}

/// The bytes of a line, its line feed counted in.
pub open spec fn line_bytes(bytes: Seq<u8>, index: int) -> Seq<u8> {
    bytes.subrange(line_starts(bytes)[index], line_end(bytes, index))
}

/// The state before a line.
pub open spec fn section_before(bytes: Seq<u8>, index: int) -> SectionState
    decreases index,
{
    if index <= 0 {
        first_section()
    } else {
        next_section(section_before(bytes, index - 1), line_bytes(bytes, index - 1))
    }
}

impl ConflictRenderLine {
    /// The line stands at the given index of the text, whatever its highlights.
    pub open spec fn stands_at(self, bytes: Seq<u8>, index: int) -> bool {
        let state = section_before(bytes, index);
        let line = line_bytes(bytes, index);
        &&& text::bytes_of(self.raw_text@) == line
        &&& self.kind == line_kind(state, line)
        &&& self.line_number == index + 1
        &&& self.start == line_starts(bytes)[index]
        &&& self.end == line_end(bytes, index)
        &&& match line_block(state, line) {
            Some(block) => self.block_index is Some && self.block_index->0 == block,
            None => self.block_index is None,
        }
    }
}

/// The lines are those of the text, whatever their highlights.
pub open spec fn lines_of(lines: Seq<ConflictRenderLine>, bytes: Seq<u8>) -> bool {
    &&& lines.len() == line_starts(bytes).len()
    &&& forall|i: int| 0 <= i < lines.len() ==> (#[trigger] lines[i]).stands_at(bytes, i)
}

/// Whether a line begins with seven times the same byte, and a space where one is asked for.
fn check_marker(line: &str, byte: u8, spaced: bool) -> (found: bool)
    ensures
        found == has_marker(text::bytes_of(line@), byte, spaced),
{
    let bytes = line.as_bytes();
    if bytes.len() < 7 {
        return false;
    }
    let mut i: usize = 0;
    while i < 7
        invariant
            i <= 7,
            bytes@.len() >= 7,
            bytes@ == text::bytes_of(line@),
            forall|k: int| 0 <= k < i ==> #[trigger] bytes@[k] == byte,
        decreases 7 - i,
    {
        if bytes[i] != byte {
            assert(bytes@[i as int] != byte);
            return false;
        }
        i = i + 1;
    }
    !spaced || (bytes.len() >= 8 && bytes[7] == text::SPACE)
}

/// Whether a line opens a conflict block.
pub fn line_opens_block(line: &str) -> (opens: bool)
    ensures
        opens == opens_block(text::bytes_of(line@)),
{
    check_marker(line, 60, true)
}

/// Whether a line closes a conflict block.
pub fn line_closes_block(line: &str) -> (closes: bool)
    ensures
        closes == closes_block(text::bytes_of(line@)),
{
    check_marker(line, 62, true)
}

/// What a line shows, and the state behind it: the section, the active block and the index of the
/// next block.
pub fn classify_conflict_render_line(
    raw: &str,
    section: &mut DiffLineKind,
    active_block: &mut Option<usize>,
    block_index: &mut usize,
) -> (kind: DiffLineKind)
    requires
        *old(block_index) < usize::MAX,
    ensures
        ({
            let block = match *old(active_block) {
                Some(block) => Some(block as int),
                None => None,
            };
            let state = SectionState {
                section: *old(section),
                block,
                closed: *old(block_index) as int,
            };
            let line = text::bytes_of(raw@);
            let next = next_section(state, line);
            let section_kind = if *old(section) == DiffLineKind::ConflictOurs || *old(section)
                == DiffLineKind::ConflictBase || *old(section) == DiffLineKind::ConflictTheirs {
                *old(section)
            } else {
                DiffLineKind::Context
            };
            &&& kind == line_kind(SectionState { section: section_kind, ..state }, line)
            &&& *final(section) == next.section
            &&& *final(block_index) == next.closed
            &&& match next.block {
                Some(block) => *final(active_block) == Some(block as usize) && 0 <= block
                    <= usize::MAX,
                None => *final(active_block) is None,
            }
        }),
{
    if check_marker(raw, 60, true) {
        *active_block = Some(*block_index);
        *section = DiffLineKind::ConflictOurs;
        return DiffLineKind::ConflictMarker;
    }
    if check_marker(raw, 124, true) {
        *section = DiffLineKind::ConflictBase;
        return DiffLineKind::ConflictMarker;
    }
    if check_marker(raw, 61, false) {
        *section = DiffLineKind::ConflictTheirs;
        return DiffLineKind::ConflictMarker;
    }
    if check_marker(raw, 62, true) {
        *section = DiffLineKind::Context;
        let current = *active_block;
        *active_block = None;
        *block_index = *block_index + 1;
        return if current.is_some() {
            DiffLineKind::ConflictMarker
        } else {
            DiffLineKind::Context
        };
    }
    match *section {
        DiffLineKind::ConflictOurs => DiffLineKind::ConflictOurs,
        DiffLineKind::ConflictBase => DiffLineKind::ConflictBase,
        DiffLineKind::ConflictTheirs => DiffLineKind::ConflictTheirs,
        _ => DiffLineKind::Context,
    }
}

/// The line starts of a text are increasing boundaries, each but the first behind a line feed.
pub proof fn lemma_line_starts(chars: Seq<char>)
    ensures
        text::increasing(line_starts(text::bytes_of(chars))),
        forall|i: int|
            #![trigger line_starts(text::bytes_of(chars))[i]]
            0 <= i < line_starts(text::bytes_of(chars)).len() ==> {
                let at = line_starts(text::bytes_of(chars))[i];
                &&& 0 <= at <= text::bytes_of(chars).len()
                &&& text::is_boundary(text::bytes_of(chars), at)
                &&& i > 0 ==> 0 < at < text::bytes_of(chars).len() && text::bytes_of(chars)[at - 1]
                    == text::NEWLINE
            },
{
    let bytes = text::bytes_of(chars);
    encode_utf8_valid_utf8(chars);
    text::lemma_boundary_ends(bytes);
    text::lemma_line_starts_after(chars, 0, bytes.len() - 1);
    let rest = text::line_starts_after(bytes, 0, bytes.len() - 1);
    let all = line_starts(bytes);
    assert forall|i: int, j: int| 0 <= i < j < all.len() implies all[i] < all[j] by {
        assert(all[j] == rest[j - 1]);
        if i > 0 {
            assert(all[i] == rest[i - 1]);
        }
    }
    assert forall|i: int| 0 <= i < all.len() implies {
        let at = #[trigger] all[i];
        &&& 0 <= at <= bytes.len()
        &&& text::is_boundary(bytes, at)
        &&& i > 0 ==> 0 < at < bytes.len() && bytes[at - 1] == text::NEWLINE
    } by {
        if i > 0 {
            assert(all[i] == rest[i - 1]);
        }
    }
}

/// The sections of a state are those of conflicts.
proof fn lemma_section(bytes: Seq<u8>, index: int)
    ensures
        ({
            let section = section_before(bytes, index).section;
            section == DiffLineKind::Context || section == DiffLineKind::ConflictOurs || section
                == DiffLineKind::ConflictBase || section == DiffLineKind::ConflictTheirs
        }),
        0 <= section_before(bytes, index).closed,
        index >= 0 ==> section_before(bytes, index).closed <= index,
        section_before(bytes, index).block matches Some(block) ==> 0 <= block
            <= section_before(bytes, index).closed,
    decreases index,
{
    if index > 0 {
        lemma_section(bytes, index - 1);
    }
}

/// Appends the line between two offsets.
fn push_line(
    lines: &mut Vec<ConflictRenderLine>,
    source: &str,
    start: usize,
    end: usize,
    section: &mut DiffLineKind,
    active_block: &mut Option<usize>,
    block_index: &mut usize,
)
    requires
        lines_before(
            old(lines)@,
            text::bytes_of(source@),
            *old(section),
            *old(active_block),
            *old(block_index),
        ),
        old(lines)@.len() < line_starts(text::bytes_of(source@)).len(),
        start == line_starts(text::bytes_of(source@))[old(lines)@.len() as int],
        end == line_end(text::bytes_of(source@), old(lines)@.len() as int),
        start <= end,
        text::is_boundary(text::bytes_of(source@), start as int),
        text::is_boundary(text::bytes_of(source@), end as int),
        old(lines)@.len() < usize::MAX,
    ensures
        final(lines)@.len() == old(lines)@.len() + 1,
        lines_before(
            final(lines)@,
            text::bytes_of(source@),
            *final(section),
            *final(active_block),
            *final(block_index),
        ),
{
    let raw = text::text_between(source, start, end);
    let prior_block = *active_block;
    let ghost bytes = text::bytes_of(source@);
    let ghost index = lines@.len() as int;
    proof {
        lemma_section(bytes, index);
    }
    let kind = classify_conflict_render_line(raw, section, active_block, block_index);
    let block = if check_marker(raw, 62, true) {
        prior_block
    } else {
        *active_block
    };
    let line = ConflictRenderLine {
        kind,
        raw_text: raw.to_owned(),
        highlights: None,
        highlight_mode: ConflictHighlightMode::Fallback,
        line_number: lines.len() + 1,
        start,
        end,
        block_index: block,
    };
    assert(line.stands_at(bytes, index));
    lines.push(line);
    proof {
        lemma_section(bytes, index + 1);
        assert forall|i: int| 0 <= i < lines@.len() implies (#[trigger] lines@[i]).stands_at(
            bytes,
            i,
        ) && lines@[i].highlights is None && lines@[i].highlight_mode
            == ConflictHighlightMode::Fallback by {
            if i < index {
                assert(lines@[i] == old(lines)@[i]);
            }
        }
    }
}

/// The lines found so far are the first of the text, and the state is the one behind them.
spec fn lines_before(
    lines: Seq<ConflictRenderLine>,
    bytes: Seq<u8>,
    section: DiffLineKind,
    active_block: Option<usize>,
    block_index: usize,
) -> bool {
    let state = section_before(bytes, lines.len() as int);
    &&& forall|i: int|
        #![trigger lines[i]]
        0 <= i < lines.len() ==> lines[i].stands_at(bytes, i) && lines[i].highlights is None
            && lines[i].highlight_mode == ConflictHighlightMode::Fallback
    &&& section == state.section
    &&& block_index == state.closed
    &&& match state.block {
        Some(block) => active_block is Some && active_block->0 == block,
        None => active_block is None,
    }
}

/// The lines of a text, without highlights.
pub fn classify_conflict_render_lines(source: &str) -> (lines: Vec<ConflictRenderLine>)
    ensures
        lines_of(lines@, text::bytes_of(source@)),
        forall|i: int|
            #![trigger lines@[i]]
            0 <= i < lines@.len() ==> lines@[i].highlights is None && lines@[i].highlight_mode
                == ConflictHighlightMode::Fallback,
{
    let bytes = source.as_bytes();
    let len = bytes.len();
    let mut starts: Vec<usize> = Vec::new();
    starts.push(0);
    assert(text::offsets(starts@) =~= seq![0int] + text::line_starts_after(bytes@, 0, 0));
    let mut at: usize = 0;
    while at + 1 < len
        invariant
            len == bytes@.len(),
            at == 0 || at < len,
            text::offsets(starts@) == seq![0int] + text::line_starts_after(bytes@, 0, at as int),
        decreases len - at,
    {
        at = at + 1;
        if bytes[at - 1] == text::NEWLINE {
            let ghost before = starts@;
            starts.push(at);
            assert(text::offsets(starts@) =~= text::offsets(before).push(at as int));
            assert(text::offsets(starts@) =~= seq![0int] + text::line_starts_after(
                bytes@,
                0,
                at as int,
            ));
        }
    }
    proof {
        assert(text::line_starts_after(bytes@, 0, len - 1) =~= text::line_starts_after(
            bytes@,
            0,
            at as int,
        ));
        assert(text::offsets(starts@) == line_starts(bytes@));
        encode_utf8_valid_utf8(source@);
        text::lemma_boundary_ends(bytes@);
        lemma_line_starts(source@);
    }
    let mut lines: Vec<ConflictRenderLine> = Vec::new();
    let mut section = DiffLineKind::Context;
    let mut block_index: usize = 0;
    let mut active_block: Option<usize> = None;
    let count = starts.len();
    while lines.len() < count
        invariant
            bytes@ == text::bytes_of(source@),
            len == bytes@.len(),
            count == starts@.len(),
            lines@.len() <= count,
            text::offsets(starts@) == line_starts(bytes@),
            text::increasing(line_starts(bytes@)),
            text::is_boundary(bytes@, len as int),
            forall|i: int|
                #![trigger line_starts(bytes@)[i]]
                0 <= i < line_starts(bytes@).len() ==> 0 <= line_starts(bytes@)[i] <= len
                    && text::is_boundary(bytes@, line_starts(bytes@)[i]),
            lines_before(lines@, bytes@, section, active_block, block_index),
        decreases count - lines@.len(),
    {
        let index = lines.len();
        assert(text::offsets(starts@)[index as int] == starts@[index as int]);
        let start = starts[index];
        let end: usize = if index + 1 < count {
            assert(text::offsets(starts@)[index + 1] == starts@[index + 1]);
            starts[index + 1]
        } else {
            len
        };
        push_line(
            &mut lines,
            source,
            start,
            end,
            &mut section,
            &mut active_block,
            &mut block_index,
        );
    }
    lines
}

/// The text of a line without its line end.
pub open spec fn line_content(line: ConflictRenderLine) -> Seq<char> {
    diff_text::without_line_end(line.raw_text@)
}

/// Where the text of a line ends, its line end left out.
pub open spec fn content_end(line: ConflictRenderLine) -> int {
    line.start + text::bytes_of(line_content(line)).len()
}

/// The line ends at an offset that a machine word can hold.
pub open spec fn fits_memory(line: ConflictRenderLine) -> bool {
    line.start + text::bytes_of(line.raw_text@).len() <= usize::MAX
}

proof fn lemma_content_fits(chars: Seq<char>)
    ensures
        text::bytes_of(diff_text::without_line_end(chars)).len() <= text::bytes_of(chars).len(),
    decreases chars.len(),
{
    if chars.len() > 0 && (chars.last() == '\r' || chars.last() == '\n') {
        lemma_content_fits(chars.drop_last());
        assert(chars =~= chars.drop_last() + seq![chars.last()]);
        text::lemma_bytes_concat(chars.drop_last(), seq![chars.last()]);
    }
}

/// Where the text of a line ends, its line end left out.
pub fn trim_newline_end(line: &ConflictRenderLine) -> (end: usize)
    requires
        fits_memory(*line),
    ensures
        end == content_end(*line),
{
    proof {
        lemma_content_fits(line.raw_text@);
    }
    line.start + text::byte_len(diff_text::trim_line_end(line.raw_text.as_str()))
}

/// The selected stretch of a line, as offsets of its raw text.
pub open spec fn selected_raw(selection: ByteRange, line: ConflictRenderLine) -> ByteRange {
    ByteRange {
        start: (if selection.start >= line.start {
            selection.start - line.start
        } else {
            0
        }) as usize,
        end: (diff_text::least(selection.end as int, content_end(line)) - line.start) as usize,
    }
}

/// The selection reaches the text of the line.
pub open spec fn selection_reaches(selection: ByteRange, line: ConflictRenderLine) -> bool {
    line.start < selection.end && selection.start < content_end(line)
}

/// The selected stretch of a line as it is shown.
pub fn selection_range_for_conflict_line(
    selection: Option<ByteRange>,
    line: &ConflictRenderLine,
) -> (range: Option<ByteRange>)
    requires
        fits_memory(*line),
    ensures
        range is Some == (selection is Some && selection_reaches(selection->0, *line)),
        range is Some ==> {
            let raw = selected_raw(selection->0, *line);
            let bytes = text::bytes_of(line_content(*line));
            &&& range->0.start == diff_runs::mapped_offset(bytes, seq![raw], raw.start as int)
            &&& range->0.end == diff_runs::mapped_offset(bytes, seq![raw], raw.end as int)
        },
{
    let selection = match selection {
        Some(selection) => selection,
        None => {
            return None;
        },
    };
    let end = trim_newline_end(line);
    if selection.end <= line.start || selection.start >= end {
        return None;
    }
    let from: usize = if selection.start >= line.start {
        selection.start - line.start
    } else {
        0
    };
    let to: usize = if selection.end <= end {
        selection.end - line.start
    } else {
        end - line.start
    };
    let mut one: Vec<ByteRange> = Vec::new();
    one.push(ByteRange { start: from, end: to });
    assert(one@ =~= seq![selected_raw(selection, *line)]);
    let mapped = diff_runs::map_raw_to_display_ranges(line.raw_text.as_str(), &one);
    Some(mapped[0])
}

/// The first of the lines from `index` on that reaches over the offset, both ends counted in, or
/// else the last line.
pub open spec fn line_over(lines: Seq<ConflictRenderLine>, offset: int, index: int) -> int
    decreases lines.len() - index,
{
    if index >= lines.len() {
        lines.len() - 1
    } else if lines[index].start <= offset <= lines[index].end {
        index
    } else {
        line_over(lines, offset, index + 1)
    }
}

/// The offset inside a line, at a boundary of its raw text.
pub open spec fn offset_in_line(line: ConflictRenderLine, offset: int) -> int {
    text::floor_boundary(
        text::bytes_of(line.raw_text@),
        if offset >= line.start {
            offset - line.start
        } else {
            0
        },
    )
}

/// The characters of a line before an offset.
pub open spec fn chars_before(line: ConflictRenderLine, offset: int) -> Seq<char> {
    decode_utf8(text::bytes_of(line.raw_text@).subrange(0, offset_in_line(line, offset)))
}

/// The line of an offset, and the column that it is shown in.
pub fn line_and_column_for_offset(
    lines: &Vec<ConflictRenderLine>,
    offset: usize,
) -> (place: (usize, usize))
    requires
        lines@.len() > 0,
    ensures
        place.0 == line_over(lines@, offset as int, 0),
        place.0 < lines@.len(),
        place.1 == diff_text::rendered(
            diff_text::without_line_end(chars_before(lines@[place.0 as int], offset as int)),
        ).len(),
{
    let mut index: usize = 0;
    while index < lines.len() && !(offset >= lines[index].start && offset <= lines[index].end)
        invariant
            index <= lines@.len(),
            line_over(lines@, offset as int, index as int) == line_over(lines@, offset as int, 0),
        decreases lines@.len() - index,
    {
        index = index + 1;
    }
    if index == lines.len() {
        index = lines.len() - 1;
    }
    let line = &lines[index];
    let local: usize = if offset >= line.start {
        offset - line.start
    } else {
        0
    };
    let at = text::clamp_offset_to_char_boundary(line.raw_text.as_str(), local);
    let head = text::text_before(line.raw_text.as_str(), at);
    proof {
        encode_utf8_decode_utf8(head@);
    }
    (index, diff_text::display_char_count(head))
}

/// The offset of a column of a line, or of the end of its text where the line is shorter. A line
/// that does not exist has offset 0.
pub open spec fn column_offset(lines: Seq<ConflictRenderLine>, index: int, column: int) -> int {
    if index < lines.len() {
        lines[index].start + text::char_offset(line_content(lines[index]), column)
    } else {
        0
    }
}

proof fn lemma_char_offset_fits(chars: Seq<char>, column: int)
    requires
        column >= 0,
    ensures
        text::char_offset(chars, column) <= text::bytes_of(chars).len(),
{
    if column < chars.len() {
        assert(chars =~= chars.take(column) + chars.skip(column));
        text::lemma_bytes_concat(chars.take(column), chars.skip(column));
    }
}

/// The offset of a column of a line.
pub fn byte_offset_for_line_column(
    lines: &Vec<ConflictRenderLine>,
    line_index: usize,
    column: usize,
) -> (offset: usize)
    requires
        line_index < lines@.len() ==> fits_memory(lines@[line_index as int]),
    ensures
        offset == column_offset(lines@, line_index as int, column as int),
{
    if line_index >= lines.len() {
        return 0;
    }
    let line = &lines[line_index];
    let content = diff_text::trim_line_end(line.raw_text.as_str());
    proof {
        lemma_content_fits(line.raw_text@);
        lemma_char_offset_fits(content@, column as int);
    }
    line.start + text::char_to_byte(content, column)
}

/// The line that a vertical movement goes to.
pub open spec fn vertical_line(lines: Seq<ConflictRenderLine>, index: int, down: bool) -> int {
    if down {
        if index + 1 < lines.len() {
            index + 1
        } else {
            lines.len() - 1
        }
    } else if index > 0 {
        index - 1
    } else {
        0
    }
}

/// Where the cursor goes when it moves up or down a line, keeping its column.
pub fn vertical_cursor_target(
    lines: &Vec<ConflictRenderLine>,
    cursor_pos: usize,
    down: bool,
) -> (target: usize)
    requires
        lines@.len() > 0,
        forall|i: int| 0 <= i < lines@.len() ==> fits_memory(#[trigger] lines@[i]),
    ensures
        ({
            let index = line_over(lines@, cursor_pos as int, 0);
            target == column_offset(
                lines@,
                vertical_line(lines@, index, down),
                diff_text::rendered(
                    diff_text::without_line_end(chars_before(lines@[index], cursor_pos as int)),
                ).len() as int,
            )
        }),
{
    let (index, column) = line_and_column_for_offset(lines, cursor_pos);
    let target: usize = if down {
        if index < lines.len() - 1 {
            index + 1
        } else {
            lines.len() - 1
        }
    } else if index > 0 {
        index - 1
    } else {
        0
    };
    byte_offset_for_line_column(lines, target, column)
}

/// Where the cursor goes when it moves to the start or the end of its line.
pub fn line_edge_cursor_target(
    lines: &Vec<ConflictRenderLine>,
    cursor_pos: usize,
    to_end: bool,
) -> (target: usize)
    requires
        lines@.len() > 0,
        forall|i: int| 0 <= i < lines@.len() ==> fits_memory(#[trigger] lines@[i]),
    ensures
        ({
            let line = lines@[line_over(lines@, cursor_pos as int, 0)];
            target == if to_end {
                content_end(line)
            } else {
                line.start as int
            }
        }),
{
    let (index, column) = line_and_column_for_offset(lines, cursor_pos);
    if to_end {
        trim_newline_end(&lines[index])
    } else {
        lines[index].start
    }
}

/// The first line, from an index on, that begins at or behind an offset, or the number of lines
/// where none does.
pub open spec fn first_line_from(lines: Seq<ConflictRenderLine>, offset: int, index: int) -> int
    decreases lines.len() - index,
{
    if 0 <= index < lines.len() && lines[index].start < offset {
        first_line_from(lines, offset, index + 1)
    } else {
        index
    }
}

/// The first of the lines that begins at or behind an offset, or the number of lines where none
/// does.
pub fn first_line_starting_at_or_after(
    lines: &Vec<ConflictRenderLine>,
    offset: usize,
) -> (index: usize)
    ensures
        index == first_line_from(lines@, offset as int, 0),
        index <= lines@.len(),
        forall|i: int| 0 <= i < index ==> (#[trigger] lines@[i]).start < offset,
        index < lines@.len() ==> lines@[index as int].start >= offset,
{
    let mut index: usize = 0;
    while index < lines.len() && lines[index].start < offset
        invariant
            index <= lines@.len(),
            forall|i: int| 0 <= i < index ==> (#[trigger] lines@[i]).start < offset,
            first_line_from(lines@, offset as int, 0) == first_line_from(
                lines@,
                offset as int,
                index as int,
            ),
        decreases lines@.len() - index,
    {
        index = index + 1;
    }
    index
}

/// A text has at least one line, and its lines fit into memory, as the text does: the cursor can
/// be moved over them.
pub proof fn lines_of_a_text_fit(lines: Seq<ConflictRenderLine>, chars: Seq<char>)
    requires
        lines_of(lines, text::bytes_of(chars)),
        text::bytes_of(chars).len() <= usize::MAX,
    ensures
        lines.len() > 0,
        forall|i: int| 0 <= i < lines.len() ==> fits_memory(#[trigger] lines[i]),
{
    let bytes = text::bytes_of(chars);
    lemma_line_starts(chars);
    assert forall|i: int| 0 <= i < lines.len() implies fits_memory(#[trigger] lines[i]) by {
        assert(lines[i].stands_at(bytes, i));
        assert(line_starts(bytes)[i] <= bytes.len());
        if i + 1 < lines.len() {
            assert(line_starts(bytes)[i] < line_starts(bytes)[i + 1]);
        }
    }
}

/// Moves the cursor of a document up or down a line.
pub fn move_conflict_cursor_vertical(
    document: &mut ConflictEditorDocument,
    anchor: &mut Option<usize>,
    lines: &Vec<ConflictRenderLine>,
    down: bool,
    extend_selection: bool,
)
    requires
        lines@.len() > 0,
        forall|i: int| 0 <= i < lines@.len() ==> fits_memory(#[trigger] lines@[i]),
    ensures
        ({
            let cursor = old(document).cursor_pos;
            let index = line_over(lines@, cursor as int, 0);
            let target = column_offset(
                lines@,
                vertical_line(lines@, index, down),
                diff_text::rendered(
                    diff_text::without_line_end(chars_before(lines@[index], cursor as int)),
                ).len() as int,
            ) as usize;
            let start = conflict_document::moved_anchor(
                *old(anchor),
                cursor,
                target,
                extend_selection,
            );
            &&& *final(anchor) == Some(start)
            &&& final(document).cursor_placed(
                *old(document),
                start,
                target as int,
                extend_selection,
            )
        }),
{
    let target = vertical_cursor_target(lines, document.cursor_pos, down);
    conflict_document::move_conflict_cursor(document, anchor, target, extend_selection);
}

/// Moves the cursor of a document to the start or the end of its line.
pub fn move_conflict_cursor_line_edge(
    document: &mut ConflictEditorDocument,
    anchor: &mut Option<usize>,
    lines: &Vec<ConflictRenderLine>,
    to_end: bool,
    extend_selection: bool,
)
    requires
        lines@.len() > 0,
        forall|i: int| 0 <= i < lines@.len() ==> fits_memory(#[trigger] lines@[i]),
    ensures
        ({
            let cursor = old(document).cursor_pos;
            let line = lines@[line_over(lines@, cursor as int, 0)];
            let target = (if to_end {
                content_end(line)
            } else {
                line.start as int
            }) as usize;
            let start = conflict_document::moved_anchor(
                *old(anchor),
                cursor,
                target,
                extend_selection,
            );
            &&& *final(anchor) == Some(start)
            &&& final(document).cursor_placed(
                *old(document),
                start,
                target as int,
                extend_selection,
            )
        }),
{
    let target = line_edge_cursor_target(lines, document.cursor_pos, to_end);
    conflict_document::move_conflict_cursor(document, anchor, target, extend_selection);
}

/// The line begins with seven times a byte, and a space where one is asked for.
pub open spec fn marks(line: Seq<u8>, byte: u8, spaced: bool) -> bool {
    &&& line.len() >= 7
    &&& line.take(7) == seq![byte, byte, byte, byte, byte, byte, byte]
    &&& spaced ==> line.len() >= 8 && line[7] == 32
}

/// How many lines before a line close a block.
pub open spec fn closings(bytes: Seq<u8>, index: int) -> int
    decreases index,
{
    if index <= 0 {
        0
    } else {
        closings(bytes, index - 1) + if marks(line_bytes(bytes, index - 1), 62, true) {
            1int
        } else {
            0int
        }
    }
}

proof fn lemma_marks(line: Seq<u8>, byte: u8, spaced: bool)
    ensures
        has_marker(line, byte, spaced) == marks(line, byte, spaced),
{
    let run = seq![byte, byte, byte, byte, byte, byte, byte];
    if has_marker(line, byte, spaced) {
        assert(line.take(7) =~= run);
    }
    if marks(line, byte, spaced) {
        assert forall|i: int| 0 <= i < 7 implies #[trigger] line[i] == byte by {
            assert(line.take(7)[i] == run[i]);
        }
    }
}

proof fn lemma_all_marks(line: Seq<u8>)
    ensures
        opens_block(line) == marks(line, 60, true),
        begins_base(line) == marks(line, 124, true),
        begins_theirs(line) == marks(line, 61, false),
        closes_block(line) == marks(line, 62, true),
        opens_block(line) || begins_base(line) || begins_theirs(line) || closes_block(line)
            ==> line.len() > 0,
        opens_block(line) ==> line[0] == 60,
        begins_base(line) ==> line[0] == 124,
        begins_theirs(line) ==> line[0] == 61,
        closes_block(line) ==> line[0] == 62,
{
    lemma_marks(line, 60, true);
    lemma_marks(line, 124, true);
    lemma_marks(line, 61, false);
    lemma_marks(line, 62, true);
}

proof fn lemma_closings(bytes: Seq<u8>, index: int)
    ensures
        section_before(bytes, index).closed == closings(bytes, index),
    decreases index,
{
    if index > 0 {
        lemma_closings(bytes, index - 1);
        lemma_all_marks(line_bytes(bytes, index - 1));
    }
}

/// The lines of a conflicted file are told apart by the markers. A line that is no marker shows what
/// the marker before it begins: behind the opening marker one side, behind the marker of the base
/// the base, behind the separator the other side, and behind the closing marker, or before any
/// marker, plain text; behind any other line it shows the same as that.
pub proof fn sections_follow_the_markers(
    lines: Seq<ConflictRenderLine>,
    bytes: Seq<u8>,
    index: int,
)
    requires
        lines_of(lines, bytes),
        0 <= index < lines.len(),
    ensures
        ({
            let line = text::bytes_of(lines[index].raw_text@);
            let above = text::bytes_of(lines[index - 1].raw_text@);
            let kind = lines[index].kind;
            let is_plain = |line: Seq<u8>| !marks(line, 60, true) && !marks(line, 124, true)
                && !marks(line, 61, false) && !marks(line, 62, true);
            &&& marks(line, 60, true) || marks(line, 124, true) || marks(line, 61, false) ==> kind
                == DiffLineKind::ConflictMarker
            &&& is_plain(line) && index == 0 ==> kind == DiffLineKind::Context
            &&& is_plain(line) && index > 0 ==> {
                &&& marks(above, 60, true) ==> kind == DiffLineKind::ConflictOurs
                &&& marks(above, 124, true) ==> kind == DiffLineKind::ConflictBase
                &&& marks(above, 61, false) ==> kind == DiffLineKind::ConflictTheirs
                &&& marks(above, 62, true) ==> kind == DiffLineKind::Context
                &&& is_plain(above) ==> kind == lines[index - 1].kind
            }
        }),
{
    assert(lines[index].stands_at(bytes, index));
    lemma_all_marks(line_bytes(bytes, index));
    if index > 0 {
        assert(lines[index - 1].stands_at(bytes, index - 1));
        lemma_all_marks(line_bytes(bytes, index - 1));
    }
}

/// A block reaches from its opening to its closing marker: an opening marker begins the block whose
/// number is how many were closed before it, every other line belongs to the block of the line
/// before it, and the line behind a closing marker to none.
pub proof fn blocks_reach_from_marker_to_marker(
    lines: Seq<ConflictRenderLine>,
    bytes: Seq<u8>,
    index: int,
)
    requires
        lines_of(lines, bytes),
        0 <= index < lines.len(),
    ensures
        ({
            let line = text::bytes_of(lines[index].raw_text@);
            let above = text::bytes_of(lines[index - 1].raw_text@);
            let block = lines[index].block_index;
            &&& marks(line, 60, true) ==> block is Some && block->0 == closings(bytes, index)
            &&& !marks(line, 60, true) && (index == 0 || marks(above, 62, true)) ==> block is None
            &&& !marks(line, 60, true) && index > 0 && !marks(above, 62, true) ==> block
                == lines[index - 1].block_index
        }),
{
    assert(lines[index].stands_at(bytes, index));
    lemma_all_marks(line_bytes(bytes, index));
    lemma_closings(bytes, index);
    if index > 0 {
        assert(lines[index - 1].stands_at(bytes, index - 1));
        lemma_all_marks(line_bytes(bytes, index - 1));
    }
}

/// The lines of a text are numbered from one and lie end to end: the first begins at the front of
/// the text, each next one where the one before it ended, and the last one ends at its end.
pub proof fn lines_lie_end_to_end(lines: Seq<ConflictRenderLine>, bytes: Seq<u8>, index: int)
    requires
        lines_of(lines, bytes),
        0 <= index < lines.len(),
    ensures
        lines[index].line_number == index + 1,
        lines[0].start == 0,
        index + 1 < lines.len() ==> lines[index + 1].start == lines[index].end,
        lines.last().end == bytes.len(),
        text::bytes_of(lines[index].raw_text@) == bytes.subrange(
            lines[index].start as int,
            lines[index].end as int,
        ),
{
    assert(lines[0].stands_at(bytes, 0));
    assert(lines[index].stands_at(bytes, index));
    assert(lines[lines.len() - 1].stands_at(bytes, lines.len() - 1));
    if index + 1 < lines.len() {
        assert(lines[index + 1].stands_at(bytes, index + 1));
    }
}

} // verus!
