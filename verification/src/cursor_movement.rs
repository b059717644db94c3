//! Where the keys of the conflict editor take the cursor, told by the lines and characters of the
//! text.

use crate::conflict_document;
use crate::conflict_document::{ConflictEditorDocument, ParsedConflictFile};
use crate::conflict_keys;
use crate::conflict_lines;
use crate::conflict_lines::ConflictRenderLine;
use crate::diff_text;
use crate::editing;
use crate::keys;
use crate::keys::{ConflictKeyCommand, Modifiers};
use crate::text;
use crate::text::{ByteRange, NEWLINE};
use vstd::prelude::*;
use vstd::utf8::*;

verus! {

/// The carriage return byte.
pub const RETURN: u8 = 13;

/// The line that the cursor is on: the number of line feeds before it, but for one right before
/// it. A cursor right behind a line feed is still on the line that the line feed ends.
pub open spec fn cursor_line(bytes: Seq<u8>, cursor: int) -> nat {
    text::newline_count(bytes, cursor - 1)
}

/// The last line of a text. A line feed at the end of the text begins no line.
pub open spec fn last_line(bytes: Seq<u8>) -> nat {
    text::newline_count(bytes, bytes.len() - 1)
}

/// What a key did to a document with the given lines.
pub open spec fn key_pressed<F: Fn(&str) -> Result<ParsedConflictFile, String>>(
    key: Seq<char>,
    modifiers: Modifiers,
    key_char: Option<String>,
    is_macos: bool,
    before: ConflictEditorDocument,
    after: ConflictEditorDocument,
    anchor: Option<usize>,
    lines: Seq<ConflictRenderLine>,
    typed: Seq<char>,
    parse: F,
) -> bool {
    conflict_keys::command_done(
        after,
        before,
        anchor,
        lines,
        keys::conflict_command(key, modifiers, key_char, is_macos),
        modifiers.shift,
        typed,
        parse,
    )
}

/// A document that the cursor can be moved in: its text fits into memory, the cursor lies inside
/// it, and the lines are its own.
pub open spec fn movable(document: ConflictEditorDocument, lines: Seq<ConflictRenderLine>) -> bool {
    &&& document.bytes().len() <= usize::MAX
    &&& document.cursor_pos <= document.bytes().len()
    &&& conflict_lines::lines_of(lines, document.bytes())
}

/// The names of the keys are told apart by their lengths and first characters.
pub proof fn lemma_key_names()
    ensures
        "backspace"@.len() == 9 && "backspace"@[0] == 'b',
        "delete"@.len() == 6 && "delete"@[0] == 'd',
        "tab"@.len() == 3 && "tab"@[0] == 't',
        "left"@.len() == 4 && "left"@[0] == 'l',
        "right"@.len() == 5 && "right"@[0] == 'r',
        "up"@.len() == 2 && "up"@[0] == 'u',
        "down"@.len() == 4 && "down"@[0] == 'd',
        "home"@.len() == 4 && "home"@[0] == 'h',
        "end"@.len() == 3 && "end"@[0] == 'e',
        "a"@.len() == 1 && "a"@[0] == 'a',
        "c"@.len() == 1 && "c"@[0] == 'c',
        "x"@.len() == 1 && "x"@[0] == 'x',
        "v"@.len() == 1 && "v"@[0] == 'v',
        "s"@.len() == 1 && "s"@[0] == 's',
        "enter"@.len() == 5 && "enter"@[0] == 'e',
{
    reveal_strlit("backspace");
    reveal_strlit("delete");
    reveal_strlit("tab");
    reveal_strlit("left");
    reveal_strlit("right");
    reveal_strlit("up");
    reveal_strlit("down");
    reveal_strlit("home");
    reveal_strlit("end");
    reveal_strlit("a");
    reveal_strlit("c");
    reveal_strlit("x");
    reveal_strlit("v");
    reveal_strlit("s");
    reveal_strlit("enter");
}

/// There are no fewer line feeds before a later offset.
pub proof fn lemma_count_rises(bytes: Seq<u8>, from: int, to: int)
    requires
        from <= to,
    ensures
        text::newline_count(bytes, from) <= text::newline_count(bytes, to),
    decreases to - from,
{
    if from < to {
        lemma_count_rises(bytes, from, to - 1);
    }
}

/// Between offsets with the same number of line feeds before them is none.
pub proof fn lemma_same_count(bytes: Seq<u8>, from: int, to: int, at: int)
    requires
        0 <= from <= at < to,
        text::newline_count(bytes, from) == text::newline_count(bytes, to),
    ensures
        bytes[at] != NEWLINE,
{
    lemma_count_rises(bytes, from, at);
    lemma_count_rises(bytes, at + 1, to);
}

/// The lines that begin in a text are counted by its line feeds.
proof fn lemma_starts_counted(bytes: Seq<u8>, last: int)
    ensures
        ({
            let starts = text::line_starts_after(bytes, 0, last);
            &&& starts.len() == text::newline_count(bytes, last)
            &&& forall|k: int|
                0 <= k < starts.len() ==> 0 < #[trigger] starts[k] <= last && bytes[starts[k] - 1]
                    == NEWLINE && text::newline_count(bytes, starts[k]) == k + 1
        }),
    decreases last,
{
    if last > 0 {
        lemma_starts_counted(bytes, last - 1);
    }
}

/// Where the lines of a text begin, and how many line feeds are before them.
proof fn lemma_line_counted(bytes: Seq<u8>, index: int)
    requires
        0 <= index < conflict_lines::line_starts(bytes).len(),
    ensures
        conflict_lines::line_starts(bytes).len() == last_line(bytes) + 1,
        0 <= conflict_lines::line_starts(bytes)[index] <= bytes.len(),
        text::newline_count(bytes, conflict_lines::line_starts(bytes)[index]) == index,
        index > 0 ==> bytes[conflict_lines::line_starts(bytes)[index] - 1] == NEWLINE,
        index > 0 ==> 0 < conflict_lines::line_starts(bytes)[index] < bytes.len(),
        index == 0 ==> conflict_lines::line_starts(bytes)[index] == 0,
{
    let rest = text::line_starts_after(bytes, 0, bytes.len() - 1);
    lemma_starts_counted(bytes, bytes.len() - 1);
    if index > 0 {
        assert(conflict_lines::line_starts(bytes)[index] == rest[index - 1]);
    }
}

/// The offsets of a line are those with the line's number of line feeds before them.
proof fn lemma_on_line(bytes: Seq<u8>, index: int, offset: int)
    requires
        0 <= index < conflict_lines::line_starts(bytes).len(),
        0 <= offset < bytes.len(),
    ensures
        (conflict_lines::line_starts(bytes)[index] <= offset < conflict_lines::line_end(
            bytes,
            index,
        )) == (text::newline_count(bytes, offset) == index),
{
    let starts = conflict_lines::line_starts(bytes);
    lemma_line_counted(bytes, index);
    if starts[index] <= offset {
        lemma_count_rises(bytes, starts[index], offset);
    } else {
        lemma_count_rises(bytes, offset, starts[index] - 1);
    }
    if index + 1 < starts.len() {
        lemma_line_counted(bytes, index + 1);
        if offset < starts[index + 1] {
            lemma_count_rises(bytes, offset, starts[index + 1] - 1);
        } else {
            lemma_count_rises(bytes, starts[index + 1], offset);
        }
    } else {
        lemma_count_rises(bytes, offset, bytes.len() - 1);
    }
}

/// The line found for an offset is that of the cursor.
proof fn lemma_line_found(
    lines: Seq<ConflictRenderLine>,
    bytes: Seq<u8>,
    cursor: int,
    from: int,
)
    requires
        conflict_lines::lines_of(lines, bytes),
        0 <= cursor <= bytes.len(),
        0 <= from <= cursor_line(bytes, cursor),
    ensures
        conflict_lines::line_over(lines, cursor, from) == cursor_line(bytes, cursor),
        cursor_line(bytes, cursor) < lines.len(),
    decreases cursor_line(bytes, cursor) - from,
{
    let starts = conflict_lines::line_starts(bytes);
    let found = cursor_line(bytes, cursor) as int;
    lemma_line_counted(bytes, 0);
    lemma_count_rises(bytes, cursor - 1, bytes.len() - 1);
    assert(lines[from].stands_at(bytes, from));
    if cursor > 0 {
        lemma_on_line(bytes, found, cursor - 1);
        if from < found {
            lemma_on_line(bytes, from, cursor - 1);
            lemma_line_counted(bytes, from);
            lemma_line_counted(bytes, from + 1);
            lemma_line_counted(bytes, found);
            if starts[found] < starts[from + 1] {
                lemma_count_rises(bytes, starts[found], starts[from + 1] - 1);
            }
            lemma_line_found(lines, bytes, cursor, from + 1);
        }
    } else {
        if starts.len() > 1 {
            lemma_line_counted(bytes, 1);
        }
    }
}

/// A text ends in a byte of ASCII exactly where it ends in that character.
proof fn lemma_last_byte(chars: Seq<char>, ch: char)
    requires
        chars.len() > 0,
        (ch as u32) < 0x80,
    ensures
        text::bytes_of(chars).len() > 0,
        (text::bytes_of(chars).last() == ch as u8) == (chars.last() == ch),
{
    let last = seq![chars.last()];
    let bytes = text::bytes_of(last);
    assert(chars =~= chars.drop_last() + last);
    text::lemma_bytes_concat(chars.drop_last(), last);
    editing::lemma_character_bytes(chars.last());
    assert(text::bytes_of(chars).last() == bytes.last());
    is_ascii_chars_encode_utf8(seq![ch]);
    assert(text::bytes_of(seq![ch]) =~= seq![ch as u8]);
    if bytes.last() == ch as u8 {
        text::lemma_ascii_boundary(last, bytes.len() - 1);
        assert(bytes.len() == 1);
        assert(bytes =~= seq![ch as u8]);
        text::lemma_bytes_injective(last, seq![ch]);
        assert(last[0] == seq![ch][0]);
    } else if chars.last() == ch {
        assert(last =~= seq![ch]);
    }
}

/// A part at the front of a line, its line end left out, ends at a boundary on that line.
proof fn lemma_inside_line(
    chars: Seq<char>,
    lines: Seq<ConflictRenderLine>,
    index: int,
    len: int,
)
    requires
        conflict_lines::lines_of(lines, text::bytes_of(chars)),
        0 <= index < lines.len(),
        0 <= len <= conflict_lines::line_content(lines[index]).len(),
    ensures
        ({
            let bytes = text::bytes_of(chars);
            let target = lines[index].start + text::bytes_of(
                conflict_lines::line_content(lines[index]).take(len),
            ).len();
            &&& 0 <= target <= bytes.len()
            &&& text::is_boundary(bytes, target)
            &&& text::newline_count(bytes, target) == index
            &&& lines[index].start <= target <= lines[index].end
            &&& text::bytes_of(conflict_lines::line_content(lines[index]).take(len))
                == bytes.subrange(lines[index].start as int, target)
        }),
{
    let bytes = text::bytes_of(chars);
    let starts = conflict_lines::line_starts(bytes);
    let line = lines[index];
    let raw = line.raw_text@;
    let content = conflict_lines::line_content(line);
    let head = content.take(len);
    let tail = raw.skip(len);
    let end = conflict_lines::line_end(bytes, index);
    assert(line.stands_at(bytes, index));
    lemma_line_counted(bytes, index);
    if index + 1 < starts.len() {
        lemma_line_counted(bytes, index + 1);
        if starts[index + 1] < starts[index] {
            lemma_count_rises(bytes, starts[index + 1], starts[index]);
        }
    }
    diff_text::only_line_ends_are_cut_off(raw);
    assert(head =~= raw.take(len));
    assert(raw =~= head + tail);
    text::lemma_bytes_concat(head, tail);
    let head_bytes = text::bytes_of(head);
    let tail_bytes = text::bytes_of(tail);
    let target = line.start + head_bytes.len();
    let inside = bytes.subrange(starts[index], end);
    assert(inside == head_bytes + tail_bytes);
    assert(head_bytes =~= bytes.subrange(starts[index], target)) by {
        assert forall|i: int| 0 <= i < head_bytes.len() implies head_bytes[i] == bytes[starts[index]
            + i] by {
            assert(inside[i] == bytes[starts[index] + i]);
        }
    }
    conflict_lines::lemma_line_starts(chars);
    encode_utf8_valid_utf8(chars);
    text::lemma_boundary_ends(bytes);
    if tail_bytes.len() > 0 {
        encode_utf8_valid_utf8(tail);
        text::lemma_boundary_ends(tail_bytes);
        assert(inside[head_bytes.len() as int] == tail_bytes[0]);
        assert(bytes[target] == tail_bytes[0]);
        assert(target < end);
        lemma_on_line(bytes, index, target);
    } else {
        assert(target == end);
        if tail.len() > 0 {
            lemma_last_byte(tail, 'a');
        }
        assert(raw =~= head);
        if bytes.len() > 0 {
            if raw.len() > 0 {
                lemma_last_byte(raw, '\n');
                assert(raw.last() == content.last());
                assert(inside.last() == bytes[end - 1]);
            } else {
                assert(inside.len() == 0);
                if index + 1 < starts.len() {
                    assert(starts[index] < starts[index + 1]);
                }
            }
        }
    }
}

/// After the key for the line below the cursor is on the line after its own, or still on the last
/// line. After the key for the line above it is on the line before, or still on the first. This
/// holds whatever else is held or typed, and the text stays as it is.
pub proof fn vertical_keys_change_the_line_by_one<
    F: Fn(&str) -> Result<ParsedConflictFile, String>,
>(
    modifiers: Modifiers,
    key_char: Option<String>,
    is_macos: bool,
    before: ConflictEditorDocument,
    after: ConflictEditorDocument,
    anchor: Option<usize>,
    lines: Seq<ConflictRenderLine>,
    typed: Seq<char>,
    parse: F,
    down: bool,
)
    requires
        movable(before, lines),
        key_pressed(
            if down {
                "down"@
            } else {
                "up"@
            },
            modifiers,
            key_char,
            is_macos,
            before,
            after,
            anchor,
            lines,
            typed,
            parse,
        ),
    ensures
        after.raw_text == before.raw_text,
        text::is_boundary(before.bytes(), after.cursor_pos as int),
        ({
            let line = cursor_line(before.bytes(), before.cursor_pos as int) as int;
            text::newline_count(before.bytes(), after.cursor_pos as int) == if down {
                if line < last_line(before.bytes()) {
                    line + 1
                } else {
                    last_line(before.bytes()) as int
                }
            } else if line > 0 {
                line - 1
            } else {
                0
            }
        }),
{
    lemma_key_names();
    let bytes = before.bytes();
    let cursor = before.cursor_pos as int;
    lemma_line_found(lines, bytes, cursor, 0);
    lemma_line_counted(bytes, 0);
    let index = cursor_line(bytes, cursor) as int;
    let to = conflict_lines::vertical_line(lines, index, down);
    let column = diff_text::rendered(
        diff_text::without_line_end(conflict_lines::chars_before(lines[index], cursor)),
    ).len() as int;
    let content = conflict_lines::line_content(lines[to]);
    let len = if column < content.len() {
        column
    } else {
        content.len() as int
    };
    assert(content.take(content.len() as int) =~= content);
    lemma_inside_line(before.raw_text@, lines, to, len);
    encode_utf8_valid_utf8(before.raw_text@);
    text::lemma_floor_boundary(
        bytes,
        lines[to].start + text::bytes_of(content.take(len)).len(),
    );
}

/// After the key for the start of the line the cursor is at the start of its line: at the front of
/// the text or right behind a line feed, with no line feed between there and where it was, but for
/// one right before it.
pub proof fn home_goes_to_the_start_of_the_line<
    F: Fn(&str) -> Result<ParsedConflictFile, String>,
>(
    modifiers: Modifiers,
    key_char: Option<String>,
    is_macos: bool,
    before: ConflictEditorDocument,
    after: ConflictEditorDocument,
    anchor: Option<usize>,
    lines: Seq<ConflictRenderLine>,
    typed: Seq<char>,
    parse: F,
)
    requires
        movable(before, lines),
        key_pressed(
            "home"@,
            modifiers,
            key_char,
            is_macos,
            before,
            after,
            anchor,
            lines,
            typed,
            parse,
        ),
    ensures
        after.raw_text == before.raw_text,
        after.cursor_pos <= before.cursor_pos,
        after.cursor_pos == 0 || before.bytes()[after.cursor_pos - 1] == NEWLINE,
        forall|i: int|
            after.cursor_pos <= i < before.cursor_pos - 1 ==> #[trigger] before.bytes()[i]
                != NEWLINE,
        before.cursor_pos > 0 ==> after.cursor_pos < before.cursor_pos,
{
    lemma_key_names();
    let bytes = before.bytes();
    let cursor = before.cursor_pos as int;
    lemma_line_found(lines, bytes, cursor, 0);
    let index = cursor_line(bytes, cursor) as int;
    let start = lines[index].start as int;
    assert(lines[index].stands_at(bytes, index));
    lemma_line_counted(bytes, index);
    conflict_lines::lemma_line_starts(before.raw_text@);
    encode_utf8_valid_utf8(before.raw_text@);
    text::lemma_floor_boundary(bytes, start);
    if cursor > 0 {
        lemma_on_line(bytes, index, cursor - 1);
        assert forall|i: int| start <= i < cursor - 1 implies #[trigger] bytes[i] != NEWLINE by {
            lemma_same_count(bytes, start, cursor - 1, i);
        }
    }
}

/// After the key for the end of the line the cursor is on the line that it was on, behind the last
/// byte of the line that belongs to no line end: what follows on the line is its line end, and
/// before the cursor is none of it.
pub proof fn end_goes_to_the_end_of_the_line<
    F: Fn(&str) -> Result<ParsedConflictFile, String>,
>(
    modifiers: Modifiers,
    key_char: Option<String>,
    is_macos: bool,
    before: ConflictEditorDocument,
    after: ConflictEditorDocument,
    anchor: Option<usize>,
    lines: Seq<ConflictRenderLine>,
    typed: Seq<char>,
    parse: F,
)
    requires
        movable(before, lines),
        key_pressed(
            "end"@,
            modifiers,
            key_char,
            is_macos,
            before,
            after,
            anchor,
            lines,
            typed,
            parse,
        ),
    ensures
        ({
            let bytes = before.bytes();
            let line = cursor_line(bytes, before.cursor_pos as int);
            let end = after.cursor_pos as int;
            &&& after.raw_text == before.raw_text
            &&& text::newline_count(bytes, end) == line
            &&& forall|i: int|
                end <= i < bytes.len() && #[trigger] text::newline_count(bytes, i) == line
                    ==> bytes[i] == NEWLINE || bytes[i] == RETURN
            &&& end == 0 || text::newline_count(bytes, end - 1) < line || (bytes[end - 1] != NEWLINE
                && bytes[end - 1] != RETURN)
        }),
{
    lemma_key_names();
    let bytes = before.bytes();
    let cursor = before.cursor_pos as int;
    lemma_line_found(lines, bytes, cursor, 0);
    let index = cursor_line(bytes, cursor) as int;
    let line = lines[index];
    let content = conflict_lines::line_content(line);
    let raw = line.raw_text@;
    assert(line.stands_at(bytes, index));
    assert(content.take(content.len() as int) =~= content);
    lemma_inside_line(before.raw_text@, lines, index, content.len() as int);
    lemma_line_counted(bytes, index);
    encode_utf8_valid_utf8(before.raw_text@);
    let end = conflict_lines::content_end(line);
    text::lemma_floor_boundary(bytes, end);
    diff_text::only_line_ends_are_cut_off(raw);
    let tail = raw.skip(content.len() as int);
    assert(raw =~= content + tail);
    text::lemma_bytes_concat(content, tail);
    let inside = conflict_lines::line_bytes(bytes, index);
    assert forall|i: int| 0 <= i < tail.len() implies #[trigger] tail[i] == '\r' || tail[i]
        == '\n' by {
        assert(tail[i] == raw[content.len() + i]);
    }
    lemma_line_end_bytes(tail);
    if index + 1 < lines.len() {
        lemma_line_counted(bytes, index + 1);
    }
    assert forall|i: int|
        end <= i < bytes.len() && #[trigger] text::newline_count(bytes, i) == index implies bytes[i]
        == NEWLINE || bytes[i] == RETURN by {
        lemma_on_line(bytes, index, i);
        let at = i - line.start;
        assert(inside[at] == bytes[i]);
        assert(inside[at] == text::bytes_of(tail)[at - text::bytes_of(content).len()]);
    }
    if content.len() > 0 {
        lemma_last_byte(content, '\n');
        lemma_last_byte(content, '\r');
        let at = text::bytes_of(content).len() - 1;
        assert(inside[at] == text::bytes_of(content)[at]);
        assert(inside[at] == bytes[end - 1]);
    } else {
        assert(text::bytes_of(content) =~= Seq::<u8>::empty());
    }
}

/// The bytes of line ends are line feeds and carriage returns.
proof fn lemma_line_end_bytes(chars: Seq<char>)
    requires
        forall|i: int| 0 <= i < chars.len() ==> #[trigger] chars[i] == '\r' || chars[i] == '\n',
    ensures
        forall|i: int|
            0 <= i < text::bytes_of(chars).len() ==> #[trigger] text::bytes_of(chars)[i] == NEWLINE
                || text::bytes_of(chars)[i] == RETURN,
{
    assert(is_ascii_chars(chars)) by {
        assert forall|i: int| 0 <= i < chars.len() implies '\0' <= #[trigger] chars[i]
            <= '\u{7f}' by {
            assert(chars[i] == '\r' || chars[i] == '\n');
        }
    }
    is_ascii_chars_encode_utf8(chars);
    assert forall|i: int| 0 <= i < text::bytes_of(chars).len() implies #[trigger] text::bytes_of(
        chars,
    )[i] == NEWLINE || text::bytes_of(chars)[i] == RETURN by {
        assert(chars[i] == '\r' || chars[i] == '\n');
    }
}

/// Between an offset and the boundary found at or behind it lies no boundary.
pub proof fn lemma_ceil_nearest(bytes: Seq<u8>, offset: int)
    requires
        0 <= offset <= bytes.len(),
    ensures
        offset <= text::ceil_boundary(bytes, offset) <= bytes.len(),
        text::is_boundary(bytes, text::ceil_boundary(bytes, offset)),
        forall|i: int|
            offset <= i < text::ceil_boundary(bytes, offset) ==> !text::is_boundary(bytes, i),
    decreases bytes.len() - offset,
{
    if offset < bytes.len() && !text::is_boundary(bytes, offset) {
        lemma_ceil_nearest(bytes, offset + 1);
    }
}

/// Between an offset and the boundary found at or before it lies no boundary.
pub proof fn lemma_floor_nearest(bytes: Seq<u8>, offset: int)
    requires
        valid_utf8(bytes),
        0 <= offset <= bytes.len(),
    ensures
        0 <= text::floor_boundary(bytes, offset) <= offset,
        text::is_boundary(bytes, text::floor_boundary(bytes, offset)),
        forall|i: int|
            text::floor_boundary(bytes, offset) < i <= offset ==> !text::is_boundary(bytes, i),
    decreases offset,
{
    text::lemma_boundary_ends(bytes);
    if 0 < offset < bytes.len() && !text::is_boundary(bytes, offset) {
        lemma_floor_nearest(bytes, offset - 1);
    }
}

/// The end of the text counts as the boundary behind its last character, and the front as the one
/// before its first: from a boundary the next and the previous one have no boundary in between.
pub proof fn neighbouring_boundaries_are_nearest(chars: Seq<char>, offset: int)
    requires
        text::is_boundary(text::bytes_of(chars), offset),
    ensures
        ({
            let bytes = text::bytes_of(chars);
            let next = text::next_boundary(bytes, offset);
            let previous = text::previous_boundary(bytes, offset);
            &&& text::is_boundary(bytes, next)
            &&& text::is_boundary(bytes, previous)
            &&& if offset < bytes.len() {
                offset < next
            } else {
                next == offset
            }
            &&& if offset > 0 {
                previous < offset
            } else {
                previous == offset
            }
            &&& forall|i: int| offset < i < next ==> !text::is_boundary(bytes, i)
            &&& forall|i: int| previous < i < offset ==> !text::is_boundary(bytes, i)
        }),
{
    let bytes = text::bytes_of(chars);
    encode_utf8_valid_utf8(chars);
    text::lemma_floor_boundary(bytes, offset);
    if offset < bytes.len() {
        lemma_ceil_nearest(bytes, offset + 1);
    }
    if offset > 0 {
        lemma_floor_nearest(bytes, offset - 1);
    }
}

/// The keys to the left and to the right take the cursor over one character: to a boundary on that
/// side with no boundary in between, or nowhere at an end of the text. Where text is selected and
/// the selection is not extended, they go to the end of it on their side instead.
pub proof fn horizontal_keys_pass_one_character<F: Fn(&str) -> Result<ParsedConflictFile, String>>(
    modifiers: Modifiers,
    key_char: Option<String>,
    is_macos: bool,
    before: ConflictEditorDocument,
    after: ConflictEditorDocument,
    anchor: Option<usize>,
    lines: Seq<ConflictRenderLine>,
    typed: Seq<char>,
    parse: F,
    right: bool,
)
    requires
        movable(before, lines),
        text::is_boundary(before.bytes(), before.cursor_pos as int),
        before.selection_fits(),
        key_pressed(
            if right {
                "right"@
            } else {
                "left"@
            },
            modifiers,
            key_char,
            is_macos,
            before,
            after,
            anchor,
            lines,
            typed,
            parse,
        ),
    ensures
        ({
            let bytes = before.bytes();
            let from = before.cursor_pos as int;
            let to = after.cursor_pos as int;
            &&& after.raw_text == before.raw_text
            &&& text::is_boundary(bytes, to)
            &&& !modifiers.shift && before.selection_range is Some ==> to == (if right {
                before.selection_range->0.end
            } else {
                before.selection_range->0.start
            })
            &&& modifiers.shift || before.selection_range is None ==> {
                &&& right && from < bytes.len() ==> from < to
                &&& right && from == bytes.len() ==> to == from
                &&& !right && from > 0 ==> to < from
                &&& !right && from == 0 ==> to == from
                &&& forall|i: int|
                    from < i < to || to < i < from ==> !text::is_boundary(bytes, i)
            }
        }),
{
    lemma_key_names();
    let bytes = before.bytes();
    encode_utf8_valid_utf8(before.raw_text@);
    neighbouring_boundaries_are_nearest(before.raw_text@, before.cursor_pos as int);
    let target = conflict_document::horizontal_target(before, right, modifiers.shift);
    assert(text::is_boundary(bytes, target));
    text::lemma_floor_boundary(bytes, target);
}

/// A key that moves the cursor selects, where shift is held, what lies between the anchor and the
/// cursor, the anchor being where the cursor was unless there was one; without shift nothing is
/// selected. Nothing else of the document changes but the block that is active.
pub proof fn shift_extends_the_selection<F: Fn(&str) -> Result<ParsedConflictFile, String>>(
    key: Seq<char>,
    modifiers: Modifiers,
    key_char: Option<String>,
    is_macos: bool,
    before: ConflictEditorDocument,
    after: ConflictEditorDocument,
    anchor: Option<usize>,
    lines: Seq<ConflictRenderLine>,
    typed: Seq<char>,
    parse: F,
)
    requires
        key == "left"@ || key == "right"@ || key == "up"@ || key == "down"@ || key == "home"@ || key
            == "end"@,
        key_pressed(
            key,
            modifiers,
            key_char,
            is_macos,
            before,
            after,
            anchor,
            lines,
            typed,
            parse,
        ),
    ensures
        ({
            let from = if anchor is Some {
                anchor->0
            } else {
                before.cursor_pos
            };
            let to = after.cursor_pos;
            let range = after.selection_range;
            &&& !modifiers.shift ==> range is None
            &&& modifiers.shift && from == to ==> range is None
            &&& modifiers.shift && from < to ==> range == Some(ByteRange { start: from, end: to })
            &&& modifiers.shift && to < from ==> range == Some(ByteRange { start: to, end: from })
            &&& after == (ConflictEditorDocument {
                cursor_pos: to,
                selection_range: range,
                active_block_index: after.active_block_index,
                ..before
            })
        }),
{
    lemma_key_names();
}

/// With the platform or the control key held, the key A selects the whole text, from the front to
/// the cursor at the end, and changes none of it.
pub proof fn select_all_key_selects_the_text<F: Fn(&str) -> Result<ParsedConflictFile, String>>(
    modifiers: Modifiers,
    key_char: Option<String>,
    is_macos: bool,
    before: ConflictEditorDocument,
    after: ConflictEditorDocument,
    anchor: Option<usize>,
    lines: Seq<ConflictRenderLine>,
    typed: Seq<char>,
    parse: F,
)
    requires
        before.bytes().len() <= usize::MAX,
        modifiers.platform || modifiers.control,
        key_pressed(
            "a"@,
            modifiers,
            key_char,
            is_macos,
            before,
            after,
            anchor,
            lines,
            typed,
            parse,
        ),
    ensures
        after.raw_text == before.raw_text,
        after.cursor_pos == before.bytes().len(),
        before.bytes().len() > 0 ==> after.selection_range == Some(
            ByteRange { start: 0, end: before.bytes().len() as usize },
        ),
        before.bytes().len() == 0 ==> after.selection_range is None,
{
    lemma_key_names();
}

/// Asking which command a key stands for and running that command on a document is to press the key
/// there.
pub proof fn pressed_key_is_carried_out<F: Fn(&str) -> Result<ParsedConflictFile, String>>(
    key: &str,
    modifiers: &Modifiers,
    key_char: &Option<String>,
    is_macos: bool,
    command: keys::ConflictKeyCommand,
    document: &mut ConflictEditorDocument,
    anchor: &mut Option<usize>,
    lines: &Vec<ConflictRenderLine>,
    typed: &str,
    parse: &F,
    result: conflict_keys::ConflictKeyResult,
)
    requires
        call_ensures(
            keys::handle_conflict_key_down,
            (key, modifiers, key_char, is_macos),
            command,
        ),
        call_ensures(
            conflict_keys::run_conflict_command::<F>,
            (document, anchor, lines, command, modifiers.shift, typed, parse),
            result,
        ),
    ensures
        key_pressed(
            key@,
            *modifiers,
            *key_char,
            is_macos,
            *old(document),
            *final(document),
            *old(anchor),
            lines@,
            typed@,
            *parse,
        ),
{
}

} // verus!
