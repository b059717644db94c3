//! The lines of a diff and of the conflict editor as they are drawn.

use crate::conflict_document::ConflictEditorDocument;
use crate::conflict_lines;
use crate::conflict_lines::ConflictRenderLine;
use crate::diff_cache;
use crate::diff_cache::{CachedDiffLines, CachedStashDiffLines};
use crate::diff_runs;
use crate::diff_runs::StyledLine;
use crate::diff_state::FileDiffHunk;
use crate::diff_text;
use crate::diff_text::DiffSelection;
use crate::model::{DiffLineKind, DiffLineView};
use crate::strings;
use crate::text;
use crate::text::ByteRange;
use crate::theme;
use crate::theme::{LineColors, OrcaTheme, Tint};
use vstd::prelude::*;
use vstd::string::*;

verus! {

/// What stands in front of a line's text.
#[derive(Debug)]
pub enum LineGutter {
    /// The button of a hunk, in place of the numbers.
    Action,
    /// The line's numbers before and after the change.
    Numbers { old: String, new: String },
}

/// A line of a diff as it is drawn.
#[derive(Debug)]
pub struct DiffLineElement {
    pub colors: LineColors,
    pub change_fill: Option<Tint>,
    pub gutter: LineGutter,
    pub trailing_action: bool,
    pub text: StyledLine,
}

/// A line number, or nothing where the line has none.
pub open spec fn number_text(number: Option<u32>) -> Seq<char> {
    match number {
        Some(number) => strings::decimal(number as nat),
        None => Seq::empty(),
    }
}

fn show_number(number: Option<u32>) -> (text: String)
    ensures
        text@ == number_text(number),
{
    match number {
        Some(number) => strings::format_decimal(number as u64),
        None => String::new(),
    }
}

/// The selected stretch of a line as it is shown.
pub open spec fn line_selection(
    selection: Option<DiffSelection>,
    line_index: int,
    line: DiffLineView,
) -> Option<ByteRange> {
    match selection {
        None => None,
        Some(selected) => {
            let shown = diff_text::display_chars(line.text@, line.highlights);
            let (start, end) = diff_text::selected_columns(
                selected,
                line_index,
                diff_text::plain_chars(line.text@, line.highlights).len() as int,
            );
            if start < end {
                Some(
                    ByteRange {
                        start: text::char_offset(shown, start) as usize,
                        end: text::char_offset(shown, end) as usize,
                    },
                )
            } else {
                None
            }
        },
    }
}

/// The styles of a line's text.
pub open spec fn line_styles(
    line: DiffLineView,
    selection: Option<ByteRange>,
    has_change_fill: bool,
) -> Seq<diff_runs::StyledRun> {
    diff_runs::line_runs(
        line.highlights,
        diff_runs::shown_selection(
            text::bytes_of(diff_text::display_chars(line.text@, line.highlights)),
            selection,
        ),
        diff_runs::shown_changes(
            line.text@,
            line.highlights,
            line.inline_changes,
            has_change_fill,
        ),
    )
}

/// The element draws the line of a diff: in the colours of its kind, with its text, the styles of
/// that text, and either the line's numbers or the button of a hunk in front of it.
pub open spec fn draws_line(
    palette: OrcaTheme,
    line: DiffLineView,
    line_index: int,
    selection: Option<DiffSelection>,
    has_action: bool,
    element: DiffLineElement,
) -> bool {
    &&& element.colors == theme::line_colors(palette, line.kind)
    &&& element.change_fill == match line.kind {
        DiffLineKind::Addition => Some(Tint { color: palette.STATUS_GREEN, alpha: 0x2E }),
        DiffLineKind::Deletion => Some(Tint { color: palette.STATUS_CORAL, alpha: 0x2E }),
        _ => None,
    }
    &&& match element.gutter {
        LineGutter::Action => has_action && line.kind == DiffLineKind::HunkHeader,
        LineGutter::Numbers { old, new } => !(has_action && line.kind == DiffLineKind::HunkHeader)
            && old@ == number_text(line.old_lineno) && new@ == number_text(line.new_lineno),
    }
    &&& element.trailing_action == (has_action && line.kind != DiffLineKind::HunkHeader)
    &&& element.text.text@ == diff_text::display_chars(line.text@, line.highlights)
    &&& element.text.runs@ == line_styles(
        line,
        line_selection(selection, line_index, line),
        line.kind == DiffLineKind::Addition || line.kind == DiffLineKind::Deletion,
    )
    &&& diff_runs::runs_in_order(
        element.text.runs@,
        text::bytes_of(element.text.text@).len() as int,
    )
}

/// Draws a line of a diff. The button of a hunk stands in place of the numbers in the line that
/// heads the hunk, and behind the text elsewhere.
pub fn render_diff_line_element(
    palette: &OrcaTheme,
    line: &DiffLineView,
    line_index: usize,
    selection: Option<DiffSelection>,
    has_action: bool,
) -> (element: DiffLineElement)
    ensures
        draws_line(*palette, *line, line_index as int, selection, has_action, element),
{
    let change_fill = theme::inline_change_bg(palette, line.kind);
    let selected = diff_text::selection_range_for_line(selection, line_index, line);
    assert(selected == line_selection(selection, line_index as int, *line));
    let styled = diff_runs::render_highlighted_text(
        line.text.as_str(),
        &line.highlights,
        selected,
        &line.inline_changes,
        change_fill.is_some(),
    );
    let heads_hunk = line.kind == DiffLineKind::HunkHeader;
    DiffLineElement {
        colors: theme::diff_line_colors(palette, line.kind),
        change_fill,
        gutter: if has_action && heads_hunk {
            LineGutter::Action
        } else {
            LineGutter::Numbers {
                old: show_number(line.old_lineno),
                new: show_number(line.new_lineno),
            }
        },
        trailing_action: has_action && !heads_hunk,
        text: styled,
    }
}

/// A line of the conflict editor as it is drawn.
#[derive(Debug)]
pub struct ConflictLineElement {
    pub colors: LineColors,
    pub border: Tint,
    pub number: String,
    pub cursor_column: Option<usize>,
    pub text: StyledLine,
}

/// The selected stretch of a line of the conflict editor as it is shown.
pub open spec fn conflict_line_selection(
    selection: Option<ByteRange>,
    line: ConflictRenderLine,
) -> Option<ByteRange> {
    if selection is Some && conflict_lines::selection_reaches(selection->0, line) {
        let raw = conflict_lines::selected_raw(selection->0, line);
        let bytes = text::bytes_of(conflict_lines::line_content(line));
        Some(
            ByteRange {
                start: diff_runs::mapped_offset(bytes, seq![raw], raw.start as int) as usize,
                end: diff_runs::mapped_offset(bytes, seq![raw], raw.end as int) as usize,
            },
        )
    } else {
        None
    }
}

/// The element draws the line of the conflict editor.
pub open spec fn draws_conflict_line(
    palette: OrcaTheme,
    line: ConflictRenderLine,
    selection: Option<ByteRange>,
    cursor_pos: usize,
    active_block_index: Option<usize>,
    element: ConflictLineElement,
) -> bool {
    &&& element.colors == theme::line_colors(palette, line.kind)
    &&& element.border == (Tint {
        color: palette.ORCA_BLUE,
        alpha: if line.block_index is Some && line.block_index == active_block_index {
            0x73
        } else {
            0x00
        },
    })
    &&& element.number@ == strings::decimal(line.line_number as nat)
    &&& element.cursor_column == if line.start <= cursor_pos <= conflict_lines::content_end(line) {
        Some(
            diff_text::rendered(
                diff_text::without_line_end(
                    conflict_lines::chars_before(line, cursor_pos as int),
                ),
            ).len() as usize,
        )
    } else {
        None
    }
    &&& element.text.text@ == diff_text::display_chars(line.raw_text@, line.highlights)
    &&& element.text.runs@ == diff_runs::line_runs(
        line.highlights,
        diff_runs::shown_selection(
            text::bytes_of(diff_text::display_chars(line.raw_text@, line.highlights)),
            conflict_line_selection(selection, line),
        ),
        diff_runs::shown_changes(line.raw_text@, line.highlights, None, false),
    )
    &&& diff_runs::runs_in_order(
        element.text.runs@,
        text::bytes_of(element.text.text@).len() as int,
    )
}

/// Draws a line of the conflict editor. The lines of the active block have a border, and the line
/// of the cursor shows it in the column where its character stands.
pub fn render_conflict_line_element(
    palette: &OrcaTheme,
    line: &ConflictRenderLine,
    selection: Option<ByteRange>,
    cursor_pos: usize,
    active_block_index: Option<usize>,
) -> (element: ConflictLineElement)
    requires
        conflict_lines::fits_memory(*line),
    ensures
        draws_conflict_line(*palette, *line, selection, cursor_pos, active_block_index, element),
{
    let selected = conflict_lines::selection_range_for_conflict_line(selection, line);
    assert(selected == conflict_line_selection(selection, *line));
    let is_active = match (line.block_index, active_block_index) {
        (Some(block), Some(active)) => block == active,
        _ => false,
    };
    let cursor_column: Option<usize> = if cursor_pos >= line.start && cursor_pos
        <= conflict_lines::trim_newline_end(line) {
        let at = text::clamp_offset_to_char_boundary(
            line.raw_text.as_str(),
            cursor_pos - line.start,
        );
        let head = text::text_before(line.raw_text.as_str(), at);
        proof {
            vstd::utf8::encode_utf8_decode_utf8(head@);
        }
        Some(diff_text::display_char_count(head))
    } else {
        None
    };
    let no_changes: Option<Vec<ByteRange>> = None;
    ConflictLineElement {
        colors: theme::diff_line_colors(palette, line.kind),
        border: Tint {
            color: palette.ORCA_BLUE,
            alpha: if is_active {
                0x73
            } else {
                0x00
            },
        },
        number: strings::format_decimal(line.line_number as u64),
        cursor_column,
        text: diff_runs::render_highlighted_text(
            line.raw_text.as_str(),
            &line.highlights,
            selected,
            &no_changes,
            false,
        ),
    }
}

/// A line in the list of a diff, and the hunk whose discard button it shows.
#[derive(Debug)]
pub struct DiffListRow {
    pub element: DiffLineElement,
    pub hunk: Option<FileDiffHunk>,
}

/// The hunk whose discard button a line shows: the one that it heads, where hunks can be discarded.
pub open spec fn discardable_hunk(
    headers: Map<usize, FileDiffHunk>,
    line_index: usize,
    hunk_actions: bool,
) -> Option<FileDiffHunk> {
    if hunk_actions && headers.contains_key(line_index) {
        Some(headers[line_index])
    } else {
        None
    }
}

/// The row shows the line of a diff at an index.
pub open spec fn shows_line_at(
    palette: OrcaTheme,
    cached: CachedDiffLines,
    line_index: int,
    selection: Option<DiffSelection>,
    hunk_actions: bool,
    row: DiffListRow,
) -> bool {
    &&& row.hunk == discardable_hunk(cached.hunk_headers@, line_index as usize, hunk_actions)
    &&& draws_line(
        palette,
        cached.lines@[line_index],
        line_index,
        selection,
        row.hunk is Some,
        row.element,
    )
}

/// Draws a stretch of the lines of a diff, with the buttons that discard its hunks.
pub fn render_diff_lines(
    palette: &OrcaTheme,
    cached: &CachedDiffLines,
    start: usize,
    end: usize,
    selection: Option<DiffSelection>,
    hunk_actions: bool,
) -> (rows: Vec<DiffListRow>)
    requires
        start <= end <= cached.lines@.len(),
    ensures
        rows@.len() == end - start,
        forall|k: int|
            #![trigger rows@[k]]
            0 <= k < rows@.len() ==> shows_line_at(
                *palette,
                *cached,
                start + k,
                selection,
                hunk_actions,
                rows@[k],
            ),
{
    let mut rows: Vec<DiffListRow> = Vec::new();
    let mut i: usize = start;
    while i < end
        invariant
            start <= i <= end <= cached.lines@.len(),
            rows@.len() == i - start,
            forall|k: int|
                #![trigger rows@[k]]
                0 <= k < rows@.len() ==> shows_line_at(
                    *palette,
                    *cached,
                    start + k,
                    selection,
                    hunk_actions,
                    rows@[k],
                ),
        decreases end - i,
    {
        let hunk = if hunk_actions {
            diff_cache::hunk_at_line(&cached.hunk_headers, i)
        } else {
            None
        };
        let element = render_diff_line_element(
            palette,
            &cached.lines[i],
            i,
            selection,
            hunk.is_some(),
        );
        rows.push(DiffListRow { element, hunk });
        i = i + 1;
    }
    rows
}

/// Draws a stretch of the lines of a stash's file. Nothing in them is selected or discarded.
pub fn render_stash_diff_lines(
    palette: &OrcaTheme,
    cached: &CachedStashDiffLines,
    start: usize,
    end: usize,
) -> (elements: Vec<DiffLineElement>)
    requires
        start <= end <= cached.lines@.len(),
    ensures
        elements@.len() == end - start,
        forall|k: int|
            #![trigger elements@[k]]
            0 <= k < elements@.len() ==> draws_line(
                *palette,
                cached.lines@[start + k],
                start + k,
                None,
                false,
                elements@[k],
            ),
{
    let mut elements: Vec<DiffLineElement> = Vec::new();
    let mut i: usize = start;
    while i < end
        invariant
            start <= i <= end <= cached.lines@.len(),
            elements@.len() == i - start,
            forall|k: int|
                #![trigger elements@[k]]
                0 <= k < elements@.len() ==> draws_line(
                    *palette,
                    cached.lines@[start + k],
                    start + k,
                    None,
                    false,
                    elements@[k],
                ),
        decreases end - i,
    {
        elements.push(render_diff_line_element(palette, &cached.lines[i], i, None, false));
        i = i + 1;
    }
    elements
}

/// Draws a stretch of the lines of the conflict editor, with the selection, the cursor and the
/// active block of its document.
pub fn render_conflict_lines(
    palette: &OrcaTheme,
    lines: &Vec<ConflictRenderLine>,
    document: &ConflictEditorDocument,
    start: usize,
    end: usize,
) -> (elements: Vec<ConflictLineElement>)
    requires
        start <= end <= lines@.len(),
        forall|i: int| 0 <= i < lines@.len() ==> conflict_lines::fits_memory(#[trigger] lines@[i]),
    ensures
        elements@.len() == end - start,
        forall|k: int|
            #![trigger elements@[k]]
            0 <= k < elements@.len() ==> draws_conflict_line(
                *palette,
                lines@[start + k],
                document.selection_range,
                document.cursor_pos,
                document.active_block_index,
                elements@[k],
            ),
{
    let mut elements: Vec<ConflictLineElement> = Vec::new();
    let mut i: usize = start;
    while i < end
        invariant
            start <= i <= end <= lines@.len(),
            forall|k: int|
                0 <= k < lines@.len() ==> conflict_lines::fits_memory(#[trigger] lines@[k]),
            elements@.len() == i - start,
            forall|k: int|
                #![trigger elements@[k]]
                0 <= k < elements@.len() ==> draws_conflict_line(
                    *palette,
                    lines@[start + k],
                    document.selection_range,
                    document.cursor_pos,
                    document.active_block_index,
                    elements@[k],
                ),
        decreases end - i,
    {
        elements.push(
            render_conflict_line_element(
                palette,
                &lines[i],
                document.selection_range,
                document.cursor_pos,
                document.active_block_index,
            ),
        );
        i = i + 1;
    }
    elements
}

/// The discard button of a row discards the hunk that begins at the row's line: a row shows a
/// button only where hunks can be discarded and one begins there, every line at which a hunk begins
/// has one, and the hunk is one of the diff that begins at that line.
pub proof fn button_discards_the_hunk_of_its_line(
    palette: OrcaTheme,
    cached: CachedDiffLines,
    document: crate::diff_state::FileDiffDocument,
    line_index: usize,
    selection: Option<DiffSelection>,
    hunk_actions: bool,
    row: DiffListRow,
)
    requires
        cached.holds(document),
        shows_line_at(palette, cached, line_index as int, selection, hunk_actions, row),
    ensures
        row.hunk is Some == (hunk_actions && exists|k: int|
            0 <= k < document.hunks@.len() && (#[trigger] document.hunks@[k]).line_start
                == line_index),
        row.hunk matches Some(hunk) ==> hunk.line_start == line_index && document.hunks@.contains(
            hunk,
        ),
        row.hunk is None ==> !row.element.trailing_action && row.element.gutter is Numbers,
        row.hunk is Some ==> row.element.trailing_action != (row.element.gutter is Action),
{
    diff_cache::kept_hunk_begins_at_its_line(document.hunks@, line_index);
}

/// Where no two hunks begin at the same line, the button at the line of a hunk discards that hunk.
pub proof fn every_hunk_has_its_button(
    palette: OrcaTheme,
    cached: CachedDiffLines,
    document: crate::diff_state::FileDiffDocument,
    index: int,
    selection: Option<DiffSelection>,
    row: DiffListRow,
)
    requires
        cached.holds(document),
        0 <= index < document.hunks@.len(),
        forall|i: int, j: int|
            0 <= i < j < document.hunks@.len() ==> (#[trigger] document.hunks@[i]).line_start != (
            #[trigger] document.hunks@[j]).line_start,
        shows_line_at(
            palette,
            cached,
            document.hunks@[index].line_start as int,
            selection,
            true,
            row,
        ),
    ensures
        row.hunk == Some(document.hunks@[index]),
{
    diff_cache::every_hunk_is_found_at_its_line(document.hunks@, index);
}

/// The selected stretch of a line is the stretch of the shown text between the selected columns.
pub proof fn selected_stretch_is_between_the_columns(
    selection: DiffSelection,
    line_index: int,
    line: DiffLineView,
)
    requires
        line_selection(Some(selection), line_index, line) is Some,
        text::bytes_of(diff_text::display_chars(line.text@, line.highlights)).len() <= usize::MAX,
        ({
            let (start, end) = diff_text::selected_columns(
                selection,
                line_index,
                diff_text::plain_chars(line.text@, line.highlights).len() as int,
            );
            0 <= start <= end <= diff_text::display_chars(line.text@, line.highlights).len()
        }),
    ensures
        ({
            let shown = diff_text::display_chars(line.text@, line.highlights);
            let (start, end) = diff_text::selected_columns(
                selection,
                line_index,
                diff_text::plain_chars(line.text@, line.highlights).len() as int,
            );
            let range = line_selection(Some(selection), line_index, line)->0;
            &&& range.start <= range.end <= text::bytes_of(shown).len()
            &&& text::bytes_of(shown).subrange(range.start as int, range.end as int)
                == text::bytes_of(shown.subrange(start, end))
        }),
{
    let shown = diff_text::display_chars(line.text@, line.highlights);
    let (start, end) = diff_text::selected_columns(
        selection,
        line_index,
        diff_text::plain_chars(line.text@, line.highlights).len() as int,
    );
    let head = shown.take(start);
    let middle = shown.subrange(start, end);
    let tail = shown.skip(end);
    assert(shown.take(end) =~= head + middle);
    assert(shown =~= (head + middle) + tail);
    text::lemma_bytes_concat(head, middle);
    text::lemma_bytes_concat(head + middle, tail);
    assert(shown.take(shown.len() as int) =~= shown);
    assert(text::char_offset(shown, start) == text::bytes_of(head).len());
    assert(text::char_offset(shown, end) == text::bytes_of(head + middle).len());
    let range = line_selection(Some(selection), line_index, line)->0;
    assert(text::bytes_of(shown).subrange(range.start as int, range.end as int)
        =~= text::bytes_of(middle));
}

/// The numbers of a line are told as they are: the old one first and then the new one, and nothing
/// where the line has none.
pub proof fn line_numbers_read_back(
    palette: OrcaTheme,
    line: DiffLineView,
    line_index: int,
    selection: Option<DiffSelection>,
    has_action: bool,
    element: DiffLineElement,
)
    requires
        draws_line(palette, line, line_index, selection, has_action, element),
    ensures
        element.gutter matches LineGutter::Numbers { old, new } ==> {
            &&& line.old_lineno is Some ==> strings::number_of(old@) == line.old_lineno->0
            &&& line.new_lineno is Some ==> strings::number_of(new@) == line.new_lineno->0
            &&& line.old_lineno is None ==> old@.len() == 0
            &&& line.new_lineno is None ==> new@.len() == 0
        },
        element.gutter is Action ==> has_action && line.kind is HunkHeader,
        !has_action ==> element.gutter is Numbers && !element.trailing_action,
        has_action ==> (element.gutter is Action) != element.trailing_action,
        (element.change_fill is Some) == (line.kind is Addition || line.kind is Deletion),
        line.kind is Addition ==> element.change_fill->0.color == palette.STATUS_GREEN,
        line.kind is Deletion ==> element.change_fill->0.color == palette.STATUS_CORAL,
        element.text.text@ == diff_text::display_chars(line.text@, line.highlights),
{
    if line.old_lineno is Some {
        strings::decimal_notation_reads_back(line.old_lineno->0 as nat);
    }
    if line.new_lineno is Some {
        strings::decimal_notation_reads_back(line.new_lineno->0 as nat);
    }
}

/// A line of the conflict editor shows its own number, has a border exactly where its block is the
/// active one, and shows the cursor exactly where the cursor stands in its text.
pub proof fn conflict_line_shows_cursor_and_block(
    palette: OrcaTheme,
    line: ConflictRenderLine,
    selection: Option<ByteRange>,
    cursor_pos: usize,
    active_block_index: Option<usize>,
    element: ConflictLineElement,
)
    requires
        draws_conflict_line(palette, line, selection, cursor_pos, active_block_index, element),
    ensures
        strings::number_of(element.number@) == line.line_number,
        (element.border.alpha > 0) == (line.block_index is Some && active_block_index
            == line.block_index),
        element.cursor_column is Some == (line.start <= cursor_pos
            <= conflict_lines::content_end(line)),
        element.text.text@ == diff_text::display_chars(line.raw_text@, line.highlights),
        cursor_pos == line.start ==> element.cursor_column == Some(0usize),
{
    strings::decimal_notation_reads_back(line.line_number as nat);
    if cursor_pos == line.start {
        let bytes = text::bytes_of(line.raw_text@);
        vstd::utf8::encode_utf8_valid_utf8(line.raw_text@);
        text::lemma_floor_boundary(bytes, 0);
        assert(bytes.subrange(0, 0) =~= Seq::<u8>::empty());
        assert(text::bytes_of(Seq::<char>::empty()) =~= Seq::<u8>::empty());
        vstd::utf8::encode_utf8_decode_utf8(Seq::<char>::empty());
        assert(conflict_lines::chars_before(line, cursor_pos as int) =~= Seq::<char>::empty());
    }
}

} // verus!
