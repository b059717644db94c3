//! How the text of diff lines is shown, selected and copied.

use crate::model::{DiffLineView, HighlightedSpan};
use crate::strings;
use crate::text;
use crate::text::ByteRange;
use vstd::prelude::*;
use vstd::string::*;
use vstd::utf8::*;

verus! {

/// The no-break space that stands for a space in displayed lines.
pub const NBSP: char = '\u{00A0}';

/// A text without the carriage returns and line feeds at its end.
pub open spec fn without_line_end(chars: Seq<char>) -> Seq<char>
    decreases chars.len(),
{
    if chars.len() > 0 && (chars.last() == '\r' || chars.last() == '\n') {
        without_line_end(chars.drop_last())
    } else {
        chars
    }
}

/// What a character of a line is shown as.
pub open spec fn rendered_char(ch: char) -> Seq<char> {
    if ch == '\t' {
        seq![NBSP, NBSP, NBSP, NBSP]
    } else if ch == ' ' {
        seq![NBSP]
    } else {
        seq![ch]
    }
}

/// What a text is shown as.
pub open spec fn rendered(chars: Seq<char>) -> Seq<char>
    decreases chars.len(),
{
    if chars.len() == 0 {
        Seq::empty()
    } else {
        rendered(chars.drop_last()) + rendered_char(chars.last())
    }
}

/// What a character of a line is in plain text.
pub open spec fn plain_char(ch: char) -> Seq<char> {
    if ch == '\t' {
        seq![' ', ' ', ' ', ' ']
    } else {
        seq![ch]
    }
}

/// A text with its tabs expanded.
pub open spec fn plain(chars: Seq<char>) -> Seq<char>
    decreases chars.len(),
{
    if chars.len() == 0 {
        Seq::empty()
    } else {
        plain(chars.drop_last()) + plain_char(chars.last())
    }
}

/// The texts of highlighted spans put together.
pub open spec fn span_text(spans: Seq<HighlightedSpan>) -> Seq<char>
    decreases spans.len(),
{
    if spans.len() == 0 {
        Seq::empty()
    } else {
        span_text(spans.drop_last()) + spans.last().text@
    }
}

/// The line has highlights that replace its text.
pub open spec fn has_spans(highlights: Option<Vec<HighlightedSpan>>) -> bool {
    highlights matches Some(spans) && spans@.len() > 0
}

/// The text of a line as it is shown.
pub open spec fn display_chars(raw: Seq<char>, highlights: Option<Vec<HighlightedSpan>>) -> Seq<
    char,
> {
    if has_spans(highlights) {
        span_text(highlights->0@)
    } else {
        rendered(without_line_end(raw))
    }
}

/// The text of a line as plain text.
pub open spec fn plain_chars(raw: Seq<char>, highlights: Option<Vec<HighlightedSpan>>) -> Seq<
    char,
> {
    if has_spans(highlights) {
        span_text(highlights->0@)
    } else {
        plain(without_line_end(raw))
    }
}

/// A text with ordinary spaces in place of no-break spaces.
pub open spec fn with_plain_spaces(chars: Seq<char>) -> Seq<char> {
    chars.map_values(
        |ch: char|
            if ch == NBSP {
                ' '
            } else {
                ch
            },
    )
}

/// The text of a line as it goes to the clipboard.
pub open spec fn clipboard_chars(raw: Seq<char>, highlights: Option<Vec<HighlightedSpan>>) -> Seq<
    char,
> {
    with_plain_spaces(plain_chars(raw, highlights))
}

/// A text without the carriage returns and line feeds at its end.
pub fn trim_line_end<'a>(raw: &'a str) -> (trimmed: &'a str)
    ensures
        trimmed@ == without_line_end(raw@),
{
    let chars = strings::collect_chars(raw);
    let mut len: usize = chars.len();
    assert(chars@.take(len as int) =~= raw@);
    while len > 0 && (chars[len - 1] == '\r' || chars[len - 1] == '\n')
        invariant
            len <= chars@.len(),
            chars@ == raw@,
            without_line_end(chars@.take(len as int)) == without_line_end(raw@),
        decreases len,
    {
        assert(chars@.take(len as int).drop_last() =~= chars@.take(len - 1));
        len = len - 1;
    }
    let trimmed = raw.substring_char(0, len);
    assert(trimmed@ =~= chars@.take(len as int));
    trimmed
}

/// A line as it is shown: no-break spaces for spaces, four of them for a tab, and no line end.
pub fn render_diff_text_string(raw: &str) -> (result: String)
    ensures
        result@ == rendered(without_line_end(raw@)),
{
    let chars = strings::collect_chars(trim_line_end(raw));
    let mut result = String::new();
    let mut i: usize = 0;
    assert(chars@.take(0) =~= Seq::<char>::empty());
    while i < chars.len()
        invariant
            i <= chars@.len(),
            result@ == rendered(chars@.take(i as int)),
        decreases chars@.len() - i,
    {
        let ghost before = result@;
        let ch = chars[i];
        if ch == '\t' {
            result.push(NBSP);
            result.push(NBSP);
            result.push(NBSP);
            result.push(NBSP);
        } else if ch == ' ' {
            result.push(NBSP);
        } else {
            result.push(ch);
        }
        assert(result@ =~= before + rendered_char(ch));
        assert(chars@.take(i + 1).drop_last() =~= chars@.take(i as int));
        i = i + 1;
    }
    assert(chars@.take(i as int) =~= chars@);
    result
}

/// The texts of highlighted spans put together.
pub fn join_spans(spans: &Vec<HighlightedSpan>) -> (result: String)
    ensures
        result@ == span_text(spans@),
{
    let mut result = String::new();
    let mut i: usize = 0;
    assert(spans@.take(0) =~= Seq::<HighlightedSpan>::empty());
    while i < spans.len()
        invariant
            i <= spans@.len(),
            result@ == span_text(spans@.take(i as int)),
        decreases spans@.len() - i,
    {
        result.append(spans[i].text.as_str());
        assert(spans@.take(i + 1).drop_last() =~= spans@.take(i as int));
        i = i + 1;
    }
    assert(spans@.take(i as int) =~= spans@);
    result
}

/// The plain text of a diff line: its highlighted spans put together, or else its raw text with
/// tabs expanded and without the line end.
pub fn plain_text_for_line(raw: &str, highlights: &Option<Vec<HighlightedSpan>>) -> (result: String)
    ensures
        result@ == plain_chars(raw@, *highlights),
{
    if let Some(spans) = highlights {
        if spans.len() > 0 {
            return join_spans(spans);
        }
    }
    let chars = strings::collect_chars(trim_line_end(raw));
    let mut result = String::new();
    let mut i: usize = 0;
    assert(chars@.take(0) =~= Seq::<char>::empty());
    while i < chars.len()
        invariant
            i <= chars@.len(),
            result@ == plain(chars@.take(i as int)),
        decreases chars@.len() - i,
    {
        let ghost before = result@;
        let ch = chars[i];
        if ch == '\t' {
            result.push(' ');
            result.push(' ');
            result.push(' ');
            result.push(' ');
        } else {
            result.push(ch);
        }
        assert(result@ =~= before + plain_char(ch));
        assert(chars@.take(i + 1).drop_last() =~= chars@.take(i as int));
        i = i + 1;
    }
    assert(chars@.take(i as int) =~= chars@);
    result
}

/// The length in characters of the plain text of a diff line.
pub fn plain_text_len(raw: &str, highlights: &Option<Vec<HighlightedSpan>>) -> (len: usize)
    ensures
        len == plain_chars(raw@, *highlights).len(),
{
    let plain = plain_text_for_line(raw, highlights);
    plain.as_str().unicode_len()
}

/// The text of a diff line as it is shown.
pub fn display_text_for_line(raw: &str, highlights: &Option<Vec<HighlightedSpan>>) -> (result:
    String)
    ensures
        result@ == display_chars(raw@, *highlights),
{
    if let Some(spans) = highlights {
        if spans.len() > 0 {
            return join_spans(spans);
        }
    }
    render_diff_text_string(raw)
}

/// The text of a diff line for the clipboard: ordinary spaces, never no-break ones.
pub fn clipboard_text_for_line(raw: &str, highlights: &Option<Vec<HighlightedSpan>>) -> (result:
    String)
    ensures
        result@ == clipboard_chars(raw@, *highlights),
{
    let plain = plain_text_for_line(raw, highlights);
    let chars = strings::collect_chars(plain.as_str());
    let mut result = String::new();
    let mut i: usize = 0;
    while i < chars.len()
        invariant
            i <= chars@.len(),
            result@ == with_plain_spaces(chars@.take(i as int)),
        decreases chars@.len() - i,
    {
        let ch = chars[i];
        let ghost before = result@;
        if ch == NBSP {
            result.push(' ');
        } else {
            result.push(ch);
        }
        i = i + 1;
        assert(result@ =~= with_plain_spaces(chars@.take(i as int)));
    }
    assert(chars@.take(i as int) =~= chars@);
    result
}

/// The number of characters that a raw text is shown with.
pub fn display_char_count(raw: &str) -> (count: usize)
    ensures
        count == rendered(without_line_end(raw@)).len(),
{
    let shown = render_diff_text_string(raw);
    shown.as_str().unicode_len()
}

/// A place in a diff: line and character index.
#[derive(Clone, Copy, Debug, PartialEq, Eq, Structural)]
pub struct DiffPosition {
    pub line: usize,
    pub col: usize,
}

impl DiffPosition {
    /// The position does not lie behind the other.
    pub open spec fn at_or_before(self, other: DiffPosition) -> bool {
        self.line < other.line || (self.line == other.line && self.col <= other.col)
    }
}

/// A text selection in a diff. The anchor `start` and the pointer `end` may be in any order.
#[derive(Clone, Copy, Debug, PartialEq, Eq, Structural)]
pub struct DiffSelection {
    pub start: DiffPosition,
    pub end: DiffPosition,
    pub is_selecting: bool,
}

impl DiffSelection {
    /// The two ends in ascending order.
    pub open spec fn ordered(self) -> (DiffPosition, DiffPosition) {
        if self.start.at_or_before(self.end) {
            (self.start, self.end)
        } else {
            (self.end, self.start)
        }
    }

    /// The two ends of the selection in ascending order.
    pub fn normalized(self) -> (ends: (DiffPosition, DiffPosition))
        ensures
            ends == self.ordered(),
            ends.0.at_or_before(ends.1),
    {
        if self.start.line < self.end.line || (self.start.line == self.end.line && self.start.col
            <= self.end.col) {
            (self.start, self.end)
        } else {
            (self.end, self.start)
        }
    }
}

/// The smaller of two numbers.
pub open spec fn least(a: int, b: int) -> int {
    if a <= b {
        a
    } else {
        b
    }
}

/// The selected characters of a line: from the first to behind the last, where the line lies in
/// the selection.
pub open spec fn selected_columns(
    selection: DiffSelection,
    line_index: int,
    text_len: int,
) -> (int, int) {
    let (start, end) = selection.ordered();
    if line_index < start.line || line_index > end.line {
        (0, 0)
    } else {
        (
            if line_index == start.line {
                least(start.col as int, text_len)
            } else {
                0
            },
            if line_index == end.line {
                least(end.col as int, text_len)
            } else {
                text_len
            },
        )
    }
}

/// The byte range of a line's shown text that is selected, or nothing where none of it is.
pub fn selection_range_for_line(
    selection: Option<DiffSelection>,
    line_index: usize,
    line: &DiffLineView,
) -> (range: Option<ByteRange>)
    ensures
        selection is None ==> range is None,
        selection matches Some(selected) ==> {
            let shown = display_chars(line.text@, line.highlights);
            let (start, end) = selected_columns(
                selected,
                line_index as int,
                plain_chars(line.text@, line.highlights).len() as int,
            );
            &&& range is Some == (start < end)
            &&& range is Some ==> range->0.start == text::char_offset(shown, start)
                && range->0.end == text::char_offset(shown, end)
        },
{
    let selected = match selection {
        Some(selected) => selected,
        None => {
            return None;
        },
    };
    let (start, end) = selected.normalized();
    if line_index < start.line || line_index > end.line {
        return None;
    }
    let len = plain_text_len(line.text.as_str(), &line.highlights);
    let first: usize = if line_index == start.line {
        if start.col <= len {
            start.col
        } else {
            len
        }
    } else {
        0
    };
    let last: usize = if line_index == end.line {
        if end.col <= len {
            end.col
        } else {
            len
        }
    } else {
        len
    };
    if first < last {
        let shown = display_text_for_line(line.text.as_str(), &line.highlights);
        Some(
            ByteRange {
                start: text::char_to_byte(shown.as_str(), first),
                end: text::char_to_byte(shown.as_str(), last),
            },
        )
    } else {
        None
    }
}

/// What one line contributes to the selected text.
pub open spec fn selected_piece(
    line: DiffLineView,
    line_index: int,
    start: DiffPosition,
    end: DiffPosition,
) -> Seq<char> {
    let chars = clipboard_chars(line.text@, line.highlights);
    let from = least(start.col as int, chars.len() as int);
    let to = least(end.col as int, chars.len() as int);
    if start.line == end.line {
        chars.subrange(from, to)
    } else if line_index == start.line {
        chars.skip(from).push('\n')
    } else if line_index == end.line {
        chars.take(to)
    } else {
        chars.push('\n')
    }
}

/// The selected text of the lines before `upto`.
pub open spec fn selected_text(
    lines: Seq<DiffLineView>,
    start: DiffPosition,
    end: DiffPosition,
    upto: int,
) -> Seq<char>
    decreases upto,
{
    if upto <= start.line || upto <= 0 {
        Seq::empty()
    } else {
        selected_text(lines, start, end, upto - 1) + selected_piece(
            lines[upto - 1],
            upto - 1,
            start,
            end,
        )
    }
}

/// The end of the lines that a selection reaches.
pub open spec fn selection_stop(lines: Seq<DiffLineView>, end: DiffPosition) -> int {
    least(end.line + 1, lines.len() as int)
}

/// The selected text of diff lines, ready for the clipboard. There is none where nothing is
/// selected.
pub fn extract_selected_text(
    lines: &Vec<DiffLineView>,
    start: DiffPosition,
    end: DiffPosition,
) -> (selected: Option<String>)
    requires
        start.line == end.line && start.line < lines@.len() ==> {
            let len = clipboard_chars(
                lines@[start.line as int].text@,
                lines@[start.line as int].highlights,
            ).len();
            least(start.col as int, len as int) <= least(end.col as int, len as int)
        },
    ensures
        start.line > end.line ==> selected is None,
        start.line <= end.line ==> {
            let all = selected_text(lines@, start, end, selection_stop(lines@, end));
            &&& selected is Some == (all.len() > 0)
            &&& selected is Some ==> selected->0@ == all
        },
{
    if start.line > end.line || lines.len() == 0 {
        return None;
    }
    let mut result = String::new();
    let mut i: usize = start.line;
    let len = lines.len();
    assert(result@ =~= selected_text(lines@, start, end, i as int));
    while i < len && i <= end.line
        invariant
            len == lines@.len(),
            start.line <= i,
            start.line <= end.line,
            i <= end.line + 1,
            i <= len || i == start.line,
            start.line == end.line && start.line < lines@.len() ==> {
                let len = clipboard_chars(
                    lines@[start.line as int].text@,
                    lines@[start.line as int].highlights,
                ).len();
                least(start.col as int, len as int) <= least(end.col as int, len as int)
            },
            result@ == selected_text(lines@, start, end, i as int),
        decreases len - i,
    {
        let line = &lines[i];
        let clip = clipboard_text_for_line(line.text.as_str(), &line.highlights);
        let count = clip.as_str().unicode_len();
        let from: usize = if start.col <= count {
            start.col
        } else {
            count
        };
        let to: usize = if end.col <= count {
            end.col
        } else {
            count
        };
        let ghost before = result@;
        if start.line == end.line {
            result.append(clip.as_str().substring_char(from, to));
        } else if i == start.line {
            let part = clip.as_str().substring_char(from, count);
            assert(part@ =~= clip@.skip(from as int));
            result.append(part);
            result.push('\n');
        } else if i == end.line {
            let part = clip.as_str().substring_char(0, to);
            assert(part@ =~= clip@.take(to as int));
            result.append(part);
        } else {
            result.append(clip.as_str());
            result.push('\n');
        }
        assert(result@ =~= before + selected_piece(lines@[i as int], i as int, start, end));
        i = i + 1;
    }
    proof {
        let stop = selection_stop(lines@, end);
        if i != stop {
            assert(selected_text(lines@, start, end, stop) =~= Seq::<char>::empty());
        }
    }
    if result.as_str().is_empty() {
        None
    } else {
        Some(result)
    }
}

/// A selection takes in the same columns of every line, whichever of its ends it was begun at.
pub proof fn selection_has_no_direction(selection: DiffSelection, line_index: int, text_len: int)
    ensures
        selected_columns(
            DiffSelection { start: selection.end, end: selection.start, ..selection },
            line_index,
            text_len,
        ) == selected_columns(selection, line_index, text_len),
{
}

/// The clipboard text of a line.
pub open spec fn clip_of(line: DiffLineView) -> Seq<char> {
    clipboard_chars(line.text@, line.highlights)
}

/// The parts of a selection of several lines: the first line from the column where the selection
/// begins, the lines between as they are, and the last line up to the column where it ends.
pub open spec fn selection_parts(
    lines: Seq<DiffLineView>,
    start: DiffPosition,
    end: DiffPosition,
) -> Seq<Seq<char>> {
    Seq::new(
        (end.line - start.line + 1) as nat,
        |k: int|
            {
                let chars = clip_of(lines[start.line + k]);
                if k == 0 {
                    chars.skip(
                        if start.col < chars.len() {
                            start.col as int
                        } else {
                            chars.len() as int
                        },
                    )
                } else if start.line + k == end.line {
                    chars.take(
                        if end.col < chars.len() {
                            end.col as int
                        } else {
                            chars.len() as int
                        },
                    )
                } else {
                    chars
                }
            },
    )
}

proof fn lemma_selected_lines(
    lines: Seq<DiffLineView>,
    start: DiffPosition,
    end: DiffPosition,
    upto: int,
)
    requires
        start.line < upto <= lines.len(),
        upto <= end.line,
    ensures
        selected_text(lines, start, end, upto) == strings::joined(
            selection_parts(lines, start, end).take(upto - start.line),
            seq!['\n'],
        ).push('\n'),
    decreases upto,
{
    let parts = selection_parts(lines, start, end);
    let count = upto - start.line;
    let all = parts.take(count);
    if count == 1 {
        assert(all =~= seq![parts[0]]);
        assert(selected_text(lines, start, end, upto - 1) =~= Seq::<char>::empty());
        assert(selected_text(lines, start, end, upto) =~= parts[0].push('\n'));
    } else {
        lemma_selected_lines(lines, start, end, upto - 1);
        assert(all.drop_last() =~= parts.take(count - 1));
        assert(all.last() == parts[count - 1]);
        assert(parts[count - 1] == clip_of(lines[upto - 1]));
        let before = strings::joined(parts.take(count - 1), seq!['\n']);
        assert(before.push('\n') + clip_of(lines[upto - 1]).push('\n') =~= (before + seq!['\n']
            + clip_of(lines[upto - 1])).push('\n'));
    }
}

/// A selection over several lines of a diff copies them with a line feed between each line and the
/// next, empty ones too: the first without what stands before the selection, the last without what
/// stands behind it, and those between whole.
pub proof fn selected_lines_are_copied_one_by_one(
    lines: Seq<DiffLineView>,
    start: DiffPosition,
    end: DiffPosition,
)
    requires
        start.line < end.line < lines.len(),
    ensures
        selected_text(lines, start, end, selection_stop(lines, end)) == strings::joined(
            selection_parts(lines, start, end),
            seq!['\n'],
        ),
{
    let parts = selection_parts(lines, start, end);
    lemma_selected_lines(lines, start, end, end.line as int);
    let before = parts.drop_last();
    assert(before =~= parts.take(end.line - start.line));
    let last = parts[parts.len() - 1];
    assert(last == parts.last());
    let head = strings::joined(before, seq!['\n']);
    assert(head.push('\n') + last =~= head + seq!['\n'] + last);
    assert(selection_stop(lines, end) == end.line + 1);
}

/// Splitting what a selection copied at its line feeds gives one part for each selected line. A
/// line between the first and the last is given back whole, also where it is empty. No line of a
/// diff holds a line feed itself.
pub proof fn copied_text_has_every_selected_line(
    lines: Seq<DiffLineView>,
    start: DiffPosition,
    end: DiffPosition,
    line: int,
)
    requires
        start.line < end.line < lines.len(),
        start.line <= line <= end.line,
        forall|i: int|
            start.line <= i <= end.line ==> !clip_of(#[trigger] lines[i]).contains('\n'),
    ensures
        ({
            let copied = selected_text(lines, start, end, selection_stop(lines, end));
            let parts = strings::split(copied, '\n');
            let part = parts[line - start.line];
            let chars = clip_of(lines[line]);
            &&& parts.len() == end.line - start.line + 1
            &&& copied.filter(|ch: char| ch == '\n').len() == end.line - start.line
            &&& start.line < line < end.line ==> part == chars
            &&& line == start.line ==> (if start.col < chars.len() {
                part == chars.skip(start.col as int)
            } else {
                part.len() == 0
            })
            &&& line == end.line ==> (if end.col < chars.len() {
                part == chars.take(end.col as int)
            } else {
                part == chars
            })
        }),
{
    let parts = selection_parts(lines, start, end);
    selected_lines_are_copied_one_by_one(lines, start, end);
    assert forall|k: int| 0 <= k < parts.len() implies !(#[trigger] parts[k]).contains('\n') by {
        let chars = clip_of(lines[start.line + k]);
        if parts[k].contains('\n') {
            let j = choose|j: int| 0 <= j < parts[k].len() && parts[k][j] == '\n';
            if k == 0 {
                let from = if start.col < chars.len() {
                    start.col as int
                } else {
                    chars.len() as int
                };
                assert(chars[from + j] == '\n');
            } else {
                assert(chars[j] == '\n');
            }
        }
    }
    strings::splitting_takes_back_joining(parts, '\n');
    let copied = selected_text(lines, start, end, selection_stop(lines, end));
    strings::joining_takes_back_splitting(copied, '\n');
    let chars = clip_of(lines[line]);
    assert(chars.take(chars.len() as int) =~= chars);
    assert(chars.skip(chars.len() as int) =~= Seq::<char>::empty());
}

/// A selection that goes on behind the last line of a diff copies every line from its start on,
/// each with its line feed.
pub proof fn selection_beyond_the_end_copies_all_lines(
    lines: Seq<DiffLineView>,
    start: DiffPosition,
    end: DiffPosition,
)
    requires
        start.line < lines.len() <= end.line,
    ensures
        selected_text(lines, start, end, selection_stop(lines, end)) == strings::joined(
            selection_parts(lines, start, end).take(lines.len() - start.line),
            seq!['\n'],
        ).push('\n'),
{
    lemma_selected_lines(lines, start, end, lines.len() as int);
}

/// A selection inside a line copies the characters of the line between its two columns.
pub proof fn selection_in_a_line_copies_its_columns(
    lines: Seq<DiffLineView>,
    start: DiffPosition,
    end: DiffPosition,
)
    requires
        start.line == end.line < lines.len(),
        start.col <= end.col <= clip_of(lines[start.line as int]).len(),
    ensures
        selected_text(lines, start, end, selection_stop(lines, end)) == clip_of(
            lines[start.line as int],
        ).subrange(start.col as int, end.col as int),
{
    let upto = selection_stop(lines, end);
    assert(selected_text(lines, start, end, upto - 1) =~= Seq::<char>::empty());
    assert(selected_text(lines, start, end, upto) =~= clip_of(lines[start.line as int]).subrange(
        start.col as int,
        end.col as int,
    ));
}

/// The columns that are shown as selected are those that are copied.
pub proof fn selected_columns_are_copied(
    selection: DiffSelection,
    lines: Seq<DiffLineView>,
    line: int,
)
    requires
        selection.ordered().0.line <= line <= selection.ordered().1.line,
        0 <= line < lines.len(),
    ensures
        ({
            let (start, end) = selection.ordered();
            let chars = clip_of(lines[line]);
            let (from, to) = selected_columns(selection, line, chars.len() as int);
            &&& 0 <= from <= to <= chars.len()
            &&& selected_piece(lines[line], line, start, end) == chars.subrange(from, to) + if line
                < end.line {
                seq!['\n']
            } else {
                Seq::empty()
            }
        }),
{
    let (start, end) = selection.ordered();
    let chars = clip_of(lines[line]);
    let (from, to) = selected_columns(selection, line, chars.len() as int);
    let piece = selected_piece(lines[line], line, start, end);
    let tail = if line < end.line {
        seq!['\n']
    } else {
        Seq::empty()
    };
    assert(piece =~= chars.subrange(from, to) + tail);
}

/// Lines outside of a selection show nothing as selected.
pub proof fn nothing_outside_is_selected(selection: DiffSelection, line: int, text_len: int)
    requires
        line < selection.start.line && line < selection.end.line || line > selection.start.line
            && line > selection.end.line,
    ensures
        selected_columns(selection, line, text_len).0 >= selected_columns(
            selection,
            line,
            text_len,
        ).1,
{
}

/// A text without its line end is the text up to its last character that is no line end.
pub proof fn only_line_ends_are_cut_off(chars: Seq<char>)
    ensures
        ({
            let kept = without_line_end(chars);
            &&& kept.len() <= chars.len()
            &&& kept == chars.take(kept.len() as int)
            &&& forall|i: int|
                kept.len() <= i < chars.len() ==> #[trigger] chars[i] == '\r' || chars[i] == '\n'
            &&& kept.len() > 0 ==> kept.last() != '\r' && kept.last() != '\n'
        }),
    decreases chars.len(),
{
    let kept = without_line_end(chars);
    if chars.len() > 0 && (chars.last() == '\r' || chars.last() == '\n') {
        let rest = chars.drop_last();
        only_line_ends_are_cut_off(rest);
        assert(rest.take(kept.len() as int) =~= chars.take(kept.len() as int));
        assert forall|i: int| kept.len() <= i < chars.len() implies #[trigger] chars[i] == '\r'
            || chars[i] == '\n' by {
            if i < rest.len() {
                assert(rest[i] == chars[i]);
            }
        }
    } else {
        assert(chars.take(chars.len() as int) =~= chars);
    }
}

/// A text is shown character by character: a tab takes four columns, every other character one,
/// blanks are shown as no-break spaces and all other characters as they are.
pub proof fn characters_are_shown_one_by_one(a: Seq<char>, b: Seq<char>, ch: char)
    ensures
        rendered(a + b) == rendered(a) + rendered(b),
        plain(a + b) == plain(a) + plain(b),
        rendered(seq![ch]).len() == (if ch == '\t' {
            4int
        } else {
            1int
        }),
        plain(seq![ch]).len() == rendered(seq![ch]).len(),
        forall|i: int|
            0 <= i < rendered(seq![ch]).len() ==> #[trigger] rendered(seq![ch])[i] == if ch == ' '
                || ch == '\t' {
                '\u{00A0}'
            } else {
                ch
            },
        forall|i: int|
            0 <= i < plain(seq![ch]).len() ==> #[trigger] plain(seq![ch])[i] == if ch == '\t' {
                ' '
            } else {
                ch
            },
    decreases b.len(),
{
    reveal_with_fuel(rendered, 2);
    reveal_with_fuel(plain, 2);
    assert(seq![ch].drop_last() =~= Seq::<char>::empty());
    assert(rendered(seq![ch]) =~= rendered_char(ch));
    assert(plain(seq![ch]) =~= plain_char(ch));
    if b.len() == 0 {
        assert(a + b =~= a);
        assert(rendered(a) + rendered(b) =~= rendered(a));
        assert(plain(a) + plain(b) =~= plain(a));
    } else {
        characters_are_shown_one_by_one(a, b.drop_last(), ch);
        assert((a + b).drop_last() =~= a + b.drop_last());
        assert(rendered(a + b) =~= rendered(a) + rendered(b));
        assert(plain(a + b) =~= plain(a) + plain(b));
    }
}

/// A text without tabs is its own plain text, and is shown with as many characters as it has.
pub proof fn text_without_tabs_keeps_its_columns(chars: Seq<char>)
    requires
        !chars.contains('\t'),
    ensures
        plain(chars) == chars,
        rendered(chars).len() == chars.len(),
    decreases chars.len(),
{
    if chars.len() > 0 {
        let rest = chars.drop_last();
        assert(!rest.contains('\t')) by {
            if rest.contains('\t') {
                let k = choose|k: int| 0 <= k < rest.len() && rest[k] == '\t';
                assert(chars[k] == '\t');
            }
        }
        text_without_tabs_keeps_its_columns(rest);
        assert(chars.contains(chars[chars.len() - 1]));
        assert(rest + seq![chars.last()] =~= chars);
    } else {
        assert(plain(chars) =~= chars);
    }
}

/// What is copied of a line is what is shown of it, with an ordinary space for each no-break space.
pub proof fn copied_line_is_the_shown_line(raw: Seq<char>, highlights: Option<Vec<HighlightedSpan>>)
    ensures
        clipboard_chars(raw, highlights).len() == display_chars(raw, highlights).len(),
        forall|i: int|
            0 <= i < clipboard_chars(raw, highlights).len() ==> #[trigger] clipboard_chars(
                raw,
                highlights,
            )[i] == if display_chars(raw, highlights)[i] == '\u{00A0}' {
                ' '
            } else {
                display_chars(raw, highlights)[i]
            },
        !clipboard_chars(raw, highlights).contains('\u{00A0}'),
{
    lemma_plain_and_rendered(without_line_end(raw));
    let copied = clipboard_chars(raw, highlights);
    if copied.contains('\u{00A0}') {
        let k = choose|k: int| 0 <= k < copied.len() && copied[k] == '\u{00A0}';
        assert(copied[k] == with_plain_spaces(plain_chars(raw, highlights))[k]);
    }
}

proof fn lemma_plain_and_rendered(chars: Seq<char>)
    ensures
        plain(chars).len() == rendered(chars).len(),
        forall|i: int|
            0 <= i < plain(chars).len() ==> (if #[trigger] plain(chars)[i] == NBSP {
                ' '
            } else {
                plain(chars)[i]
            }) == (if rendered(chars)[i] == NBSP {
                ' '
            } else {
                rendered(chars)[i]
            }),
    decreases chars.len(),
{
    if chars.len() > 0 {
        lemma_plain_and_rendered(chars.drop_last());
        let ch = chars.last();
        assert(plain_char(ch).len() == rendered_char(ch).len());
        let before = plain(chars.drop_last());
        let shown = rendered(chars.drop_last());
        assert forall|i: int| 0 <= i < plain(chars).len() implies (if #[trigger] plain(chars)[i]
            == NBSP {
            ' '
        } else {
            plain(chars)[i]
        }) == (if rendered(chars)[i] == NBSP {
            ' '
        } else {
            rendered(chars)[i]
        }) by {
            if i < before.len() {
                assert(plain(chars)[i] == before[i]);
                assert(rendered(chars)[i] == shown[i]);
            } else {
                assert(plain(chars)[i] == plain_char(ch)[i - before.len()]);
                assert(rendered(chars)[i] == rendered_char(ch)[i - before.len()]);
            }
        }
    }
}

/// A line with highlights shows the texts of its spans, one behind the other; a line without shows
/// its raw text.
pub proof fn spans_are_shown_in_order(
    raw: Seq<char>,
    first: Seq<HighlightedSpan>,
    second: Seq<HighlightedSpan>,
    span: HighlightedSpan,
    highlights: Option<Vec<HighlightedSpan>>,
)
    requires
        highlights matches Some(spans) && spans@ == first.push(span) + second,
    ensures
        display_chars(raw, highlights) == span_text(first) + span.text@ + span_text(second),
        span_text(seq![span]) == span.text@,
        display_chars(raw, None) == rendered(without_line_end(raw)),
        plain_chars(raw, None) == plain(without_line_end(raw)),
    decreases second.len(),
{
    lemma_span_text_joined(first.push(span), second);
    assert(first.push(span).drop_last() =~= first);
    reveal_with_fuel(span_text, 2);
    assert(seq![span].drop_last() =~= Seq::<HighlightedSpan>::empty());
    assert(span_text(seq![span]) =~= span.text@);
    assert(display_chars(raw, highlights) =~= span_text(first) + span.text@ + span_text(second));
}

proof fn lemma_span_text_joined(a: Seq<HighlightedSpan>, b: Seq<HighlightedSpan>)
    ensures
        span_text(a + b) == span_text(a) + span_text(b),
    decreases b.len(),
{
    if b.len() == 0 {
        assert(a + b =~= a);
        assert(span_text(a) + span_text(b) =~= span_text(a));
    } else {
        lemma_span_text_joined(a, b.drop_last());
        assert((a + b).drop_last() =~= a + b.drop_last());
        assert(span_text(a + b) =~= span_text(a) + span_text(b));
    }
}

/// Copying a selection gives the selected columns of a line, or the rest of the first line, the lines
/// in between and the beginning of the last, each on a line of its own.
pub proof fn copying_gives_what_is_selected(
    lines: &Vec<DiffLineView>,
    start: DiffPosition,
    end: DiffPosition,
    copied: Option<String>,
    line: int,
)
    requires
        call_ensures(extract_selected_text, (lines, start, end), copied),
        start.line <= line <= end.line < lines@.len(),
        forall|i: int|
            start.line <= i <= end.line ==> !clip_of(#[trigger] lines@[i]).contains('\n'),
    ensures
        start.line == end.line && start.col <= end.col <= clip_of(lines@[line]).len() ==> {
            let columns = clip_of(lines@[line]).subrange(start.col as int, end.col as int);
            &&& copied is Some == (start.col < end.col)
            &&& copied is Some ==> copied->0@ == columns
        },
        start.line < end.line ==> {
            let parts = strings::split(copied->0@, '\n');
            let part = parts[line - start.line];
            let chars = clip_of(lines@[line]);
            &&& copied is Some
            &&& parts.len() == end.line - start.line + 1
            &&& start.line < line < end.line ==> part == chars
            &&& line == start.line && start.col <= chars.len() ==> part == chars.skip(
                start.col as int,
            )
            &&& line == end.line && end.col <= chars.len() ==> part == chars.take(end.col as int)
        },
{
    let chars = clip_of(lines@[line]);
    if start.line == end.line {
        if start.col <= end.col <= chars.len() {
            selection_in_a_line_copies_its_columns(lines@, start, end);
        }
    } else {
        copied_text_has_every_selected_line(lines@, start, end, line);
        let all = selected_text(lines@, start, end, selection_stop(lines@, end));
        all.lemma_filter_len(|ch: char| ch == '\n');
        assert(all.len() > 0);
        assert(chars.skip(chars.len() as int) =~= Seq::<char>::empty());
        assert(chars.take(chars.len() as int) =~= chars);
    }
}

} // verus!
