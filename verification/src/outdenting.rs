//! What outdenting takes off the lines of a text, told byte by byte.

use crate::conflict_document;
use crate::conflict_document::{ConflictEditorDocument, ParsedConflictFile};
use crate::conflict_lines::ConflictRenderLine;
use crate::cursor_movement;
use crate::indentation;
use crate::keys::Modifiers;
use crate::text;
use crate::text::{ByteRange, Removal, NEWLINE, SPACE, TAB};
use vstd::prelude::*;
use vstd::utf8::*;

verus! {

/// The first bytes of a text without those that are gone.
pub open spec fn kept(bytes: Seq<u8>, gone: spec_fn(int) -> bool, upto: int) -> Seq<u8>
    decreases upto,
{
    if upto <= 0 {
        Seq::empty()
    } else if gone(upto - 1) {
        kept(bytes, gone, upto - 1)
    } else {
        kept(bytes, gone, upto - 1).push(bytes[upto - 1])
    }
}

/// The byte belongs to the indentation of its line: a tab at the front of the line, or one of the
/// first four bytes of the line with only spaces up to it.
pub open spec fn is_indentation(bytes: Seq<u8>, offset: int) -> bool {
    let start = text::line_start(bytes, offset);
    ||| offset == start && bytes[offset] == TAB
    ||| offset < start + 4 && forall|i: int| start <= i <= offset ==> #[trigger] bytes[i] == SPACE
}

/// The byte belongs to the indentation of one of some consecutive lines.
pub open spec fn indents(bytes: Seq<u8>, first: int, last: int, offset: int) -> bool {
    first <= text::newline_count(bytes, offset) <= last && is_indentation(bytes, offset)
}

/// The bytes that outdenting takes off some consecutive lines.
pub open spec fn taken_off(bytes: Seq<u8>, first: int, last: int) -> spec_fn(int) -> bool {
    |offset: int| indents(bytes, first, last, offset)
}

/// The offset lies in one of the stretches.
spec fn removed(removals: Seq<Removal>) -> spec_fn(int) -> bool {
    |offset: int|
        exists|k: int|
            0 <= k < removals.len() && (#[trigger] removals[k]).start <= offset < removals[k].end()
}

/// The stretches lie in order in the text.
spec fn in_order(removals: Seq<Removal>, len: int) -> bool {
    &&& forall|i: int| 0 <= i < removals.len() ==> (#[trigger] removals[i]).end() <= len
    &&& forall|i: int, j: int|
        0 <= i < j < removals.len() ==> (#[trigger] removals[i]).end() <= (#[trigger] removals[j]).start
}

/// What lies behind all stretches stays.
proof fn lemma_remove_front(front: Seq<u8>, back: Seq<u8>, removals: Seq<Removal>)
    requires
        in_order(removals, front.len() as int),
    ensures
        text::remove_all(front + back, removals) == text::remove_all(front, removals) + back,
    decreases removals.len(),
{
    if removals.len() > 0 {
        let last = removals.last();
        let rest = removals.drop_last();
        let at = removals.len() - 1;
        assert(removals[at] == last);
        let cut = text::splice(front, last.start as int, last.end(), Seq::empty());
        assert(text::splice(front + back, last.start as int, last.end(), Seq::empty()) =~= cut
            + back);
        assert forall|i: int| 0 <= i < rest.len() implies (#[trigger] rest[i]).end()
            <= cut.len() by {
            assert(rest[i] == removals[i]);
        }
        lemma_remove_front(cut, back, rest);
    }
}

/// What is kept depends on the bytes and on what is gone up to there.
proof fn lemma_kept_same(
    a: Seq<u8>,
    b: Seq<u8>,
    gone: spec_fn(int) -> bool,
    other: spec_fn(int) -> bool,
    upto: int,
)
    requires
        forall|i: int| 0 <= i < upto ==> #[trigger] a[i] == b[i],
        forall|i: int| 0 <= i < upto ==> #[trigger] gone(i) == other(i),
    ensures
        kept(a, gone, upto) == kept(b, other, upto),
    decreases upto,
{
    if upto > 0 {
        assert(a[upto - 1] == b[upto - 1]);
        assert(gone(upto - 1) == other(upto - 1));
        lemma_kept_same(a, b, gone, other, upto - 1);
    }
}

/// Nothing of a stretch that is gone is kept, and all of one that is not.
proof fn lemma_kept_stretch(
    bytes: Seq<u8>,
    gone: spec_fn(int) -> bool,
    from: int,
    to: int,
    all: bool,
)
    requires
        0 <= from <= to <= bytes.len(),
        forall|i: int| from <= i < to ==> #[trigger] gone(i) == all,
    ensures
        kept(bytes, gone, to) == kept(bytes, gone, from) + if all {
            Seq::<u8>::empty()
        } else {
            bytes.subrange(from, to)
        },
    decreases to - from,
{
    if from < to {
        lemma_kept_stretch(bytes, gone, from, to - 1, all);
        assert(gone(to - 1) == all);
        if !all {
            assert(bytes.subrange(from, to) =~= bytes.subrange(from, to - 1).push(bytes[to - 1]));
        }
        assert(kept(bytes, gone, to) =~= kept(bytes, gone, from) + if all {
            Seq::<u8>::empty()
        } else {
            bytes.subrange(from, to)
        });
    } else {
        assert(kept(bytes, gone, to) =~= kept(bytes, gone, from) + if all {
            Seq::<u8>::empty()
        } else {
            bytes.subrange(from, to)
        });
    }
}

/// Taking out stretches keeps what lies in none of them.
proof fn lemma_remove_keeps(bytes: Seq<u8>, removals: Seq<Removal>)
    requires
        in_order(removals, bytes.len() as int),
    ensures
        text::remove_all(bytes, removals) == kept(bytes, removed(removals), bytes.len() as int),
    decreases removals.len(),
{
    let gone = removed(removals);
    let len = bytes.len() as int;
    if removals.len() == 0 {
        assert forall|i: int| 0 <= i < len implies #[trigger] gone(i) == false by {}
        lemma_kept_stretch(bytes, gone, 0, len, false);
        assert(bytes.subrange(0, len) =~= bytes);
        assert(kept(bytes, gone, 0) + bytes =~= bytes);
    } else {
        let last = removals.last();
        let rest = removals.drop_last();
        let at = removals.len() - 1;
        assert(removals[at] == last);
        let start = last.start as int;
        let end = last.end();
        let front = bytes.take(start);
        let back = bytes.skip(end);
        assert(text::splice(bytes, start, end, Seq::empty()) =~= front + back);
        assert forall|i: int| 0 <= i < rest.len() implies (#[trigger] rest[i]).end() <= start by {
            assert(rest[i] == removals[i]);
        }
        lemma_remove_front(front, back, rest);
        lemma_remove_keeps(front, rest);
        let earlier = removed(rest);
        assert forall|i: int| 0 <= i < start implies #[trigger] earlier(i) == gone(i) by {
            if earlier(i) {
                let k = choose|k: int|
                    0 <= k < rest.len() && (#[trigger] rest[k]).start <= i < rest[k].end();
                assert(removals[k].start <= i < removals[k].end());
            }
            if gone(i) {
                let k = choose|k: int|
                    0 <= k < removals.len() && (#[trigger] removals[k]).start <= i
                        < removals[k].end();
                assert(rest[k].start <= i < rest[k].end());
            }
        }
        lemma_kept_same(front, bytes, earlier, gone, start);
        assert forall|i: int| start <= i < end implies #[trigger] gone(i) == true by {
            assert(removals[at].start <= i < removals[at].end());
        }
        lemma_kept_stretch(bytes, gone, start, end, true);
        assert forall|i: int| end <= i < len implies #[trigger] gone(i) == false by {
            if gone(i) {
                let k = choose|k: int|
                    0 <= k < removals.len() && (#[trigger] removals[k]).start <= i
                        < removals[k].end();
                if k < at {
                    assert(removals[k].end() <= removals[at].start);
                }
            }
        }
        lemma_kept_stretch(bytes, gone, end, len, false);
        assert(bytes.subrange(end, len) =~= back);
        assert(kept(bytes, gone, start) + Seq::<u8>::empty() =~= kept(bytes, gone, start));
    }
}

/// The spaces at the front of a line, four at most.
proof fn lemma_spaces(bytes: Seq<u8>, at: int, limit: nat)
    requires
        0 <= at <= bytes.len(),
    ensures
        ({
            let count = text::leading_spaces(bytes, at, limit);
            &&& count <= limit
            &&& at + count <= bytes.len()
            &&& forall|i: int| at <= i < at + count ==> #[trigger] bytes[i] == SPACE
            &&& count == limit || at + count == bytes.len() || bytes[at + count] != SPACE
        }),
    decreases limit,
{
    if limit > 0 && at < bytes.len() && bytes[at] == SPACE {
        lemma_spaces(bytes, at + 1, (limit - 1) as nat);
    }
}

/// The bytes that outdenting takes off a line are its indentation.
proof fn lemma_line_outdented(bytes: Seq<u8>, start: int, offset: int)
    requires
        0 <= start <= offset < bytes.len(),
        text::line_start(bytes, offset) == start,
    ensures
        (offset < start + text::outdent_len(bytes, start)) == is_indentation(bytes, offset),
{
    lemma_spaces(bytes, start, 4);
    if bytes[start] == TAB {
        if offset > start {
            assert(bytes[start] != SPACE);
        }
    } else {
        let count = text::leading_spaces(bytes, start, 4);
        if offset >= start + count && count < 4 {
            assert(bytes[start + count] != SPACE);
        }
    }
}

/// The stretches that outdenting takes out are those of the lines.
proof fn lemma_removals_of_lines(bytes: Seq<u8>, starts: Seq<int>, offset: int)
    requires
        bytes.len() <= usize::MAX,
        forall|k: int| 0 <= k < starts.len() ==> 0 <= #[trigger] starts[k] <= bytes.len(),
    ensures
        removed(text::outdent_removals(bytes, starts))(offset) == exists|k: int|
            0 <= k < starts.len() && #[trigger] starts[k] <= offset < starts[k] + text::outdent_len(
                bytes,
                starts[k],
            ),
    decreases starts.len(),
{
    let removals = text::outdent_removals(bytes, starts);
    if starts.len() > 0 {
        let rest = starts.drop_last();
        let before = text::outdent_removals(bytes, rest);
        let at = starts.len() - 1;
        assert(starts[at] == starts.last());
        lemma_spaces(bytes, starts[at], 4);
        let len = text::outdent_len(bytes, starts.last());
        assert forall|k: int| 0 <= k < rest.len() implies 0 <= #[trigger] rest[k] <= bytes.len() by {
            assert(rest[k] == starts[k]);
        }
        lemma_removals_of_lines(bytes, rest, offset);
        if removed(removals)(offset) {
            let k = choose|k: int|
                0 <= k < removals.len() && (#[trigger] removals[k]).start <= offset
                    < removals[k].end();
            if k < before.len() {
                assert(before[k].start <= offset < before[k].end());
                let i = choose|i: int|
                    0 <= i < rest.len() && #[trigger] rest[i] <= offset < rest[i]
                        + text::outdent_len(bytes, rest[i]);
                assert(starts[i] <= offset < starts[i] + text::outdent_len(bytes, starts[i]));
            } else {
                assert(starts[at] <= offset < starts[at] + text::outdent_len(bytes, starts[at]));
            }
        }
        if exists|k: int|
            0 <= k < starts.len() && #[trigger] starts[k] <= offset < starts[k] + text::outdent_len(
                bytes,
                starts[k],
            ) {
            let k = choose|k: int|
                0 <= k < starts.len() && #[trigger] starts[k] <= offset < starts[k]
                    + text::outdent_len(bytes, starts[k]);
            if k < at {
                assert(rest[k] <= offset < rest[k] + text::outdent_len(bytes, rest[k]));
                let i = choose|i: int|
                    0 <= i < before.len() && (#[trigger] before[i]).start <= offset
                        < before[i].end();
                assert(removals[i].start <= offset < removals[i].end());
            } else {
                assert(removals[before.len() as int].start <= offset
                    < removals[before.len() as int].end());
            }
        }
    }
}

/// A byte is taken off exactly where its line is among the lines and it belongs to the
/// indentation.
proof fn lemma_taken_off(bytes: Seq<u8>, starts: Seq<int>, offset: int)
    requires
        bytes.len() <= usize::MAX,
        0 <= offset < bytes.len(),
        starts.len() > 0,
        text::increasing(starts),
        forall|k: int| 0 <= k < starts.len() ==> 0 <= #[trigger] starts[k] <= bytes.len(),
        forall|k: int|
            0 <= k < starts.len() ==> text::newline_count(bytes, #[trigger] starts[k])
                == text::newline_count(bytes, starts[0]) + k && (starts[k] > 0 ==> bytes[starts[k]
                - 1] == NEWLINE),
    ensures
        removed(text::outdent_removals(bytes, starts))(offset) == taken_off(
            bytes,
            text::newline_count(bytes, starts[0]) as int,
            text::newline_count(bytes, starts.last()) as int,
        )(offset),
{
    let first = text::newline_count(bytes, starts[0]) as int;
    let last = text::newline_count(bytes, starts.last()) as int;
    assert(starts.last() == starts[starts.len() - 1]);
    lemma_removals_of_lines(bytes, starts, offset);
    indentation::lemma_line_start_number(bytes, offset);
    let start = text::line_start(bytes, offset);
    let line = text::newline_count(bytes, offset) as int;
    lemma_line_outdented(bytes, start, offset);
    if removed(text::outdent_removals(bytes, starts))(offset) {
        let k = choose|k: int|
            0 <= k < starts.len() && #[trigger] starts[k] <= offset < starts[k] + text::outdent_len(
                bytes,
                starts[k],
            );
        lemma_spaces(bytes, starts[k], 4);
        assert forall|i: int| starts[k] <= i < offset implies #[trigger] bytes[i] != NEWLINE by {}
        lemma_start_of(bytes, offset, starts[k]);
        assert(start == starts[k]);
    }
    if first <= line <= last {
        let k = line - first;
        if starts[k] < start {
            cursor_movement::lemma_count_rises(bytes, starts[k], start - 1);
        } else if start < starts[k] {
            cursor_movement::lemma_count_rises(bytes, start, starts[k] - 1);
        }
        assert(starts[k] == start);
    }
}

/// The start of a line is known by the line feed before it and by none being behind it.
proof fn lemma_start_of(bytes: Seq<u8>, offset: int, start: int)
    requires
        0 <= start <= offset,
        start > 0 ==> bytes[start - 1] == NEWLINE,
        forall|i: int| start <= i < offset ==> #[trigger] bytes[i] != NEWLINE,
    ensures
        text::line_start(bytes, offset) == start,
    decreases offset,
{
    if offset > start {
        assert(bytes[offset - 1] != NEWLINE);
        lemma_start_of(bytes, offset - 1, start);
    }
}

/// The first and the last line that outdenting works on: that of the selection's start and that of
/// its last selected character, or both times that of the cursor.
pub open spec fn outdented_lines(document: ConflictEditorDocument) -> (int, int) {
    let bytes = document.bytes();
    match document.selection_range {
        Some(range) => (
            text::newline_count(bytes, range.start as int) as int,
            text::newline_count(
                bytes,
                if range.start < range.end {
                    range.end - 1
                } else {
                    range.end as int
                },
            ) as int,
        ),
        None => (
            text::newline_count(bytes, document.cursor_pos as int) as int,
            text::newline_count(bytes, document.cursor_pos as int) as int,
        ),
    }
}

proof fn lemma_edited_lines(document: ConflictEditorDocument, k: int)
    requires
        document.selection_fits(),
        text::is_boundary(document.bytes(), document.cursor_pos as int),
    ensures
        ({
            let starts = conflict_document::edited_lines(document);
            let bytes = document.bytes();
            &&& starts.len() > 0
            &&& text::newline_count(bytes, starts[0]) == outdented_lines(document).0
            &&& text::newline_count(bytes, starts.last()) == outdented_lines(document).1
            &&& 0 <= k < starts.len() ==> text::newline_count(bytes, starts[k])
                == text::newline_count(bytes, starts[0]) + k
        }),
{
    let bytes = document.bytes();
    let chars = document.raw_text@;
    let starts = conflict_document::edited_lines(document);
    encode_utf8_valid_utf8(chars);
    text::lemma_floor_boundary(bytes, document.cursor_pos as int);
    text::lemma_touched_lines(chars, document.selection_range, document.cursor_pos as int);
    let (first, last) = text::touched_line_bounds(
        bytes,
        document.selection_range,
        document.cursor_pos as int,
    );
    match document.selection_range {
        Some(range) => {
            text::lemma_floor_boundary(bytes, range.start as int);
            text::lemma_floor_boundary(bytes, range.end as int);
            let end = if range.end > range.start && bytes[range.end - 1] == NEWLINE {
                range.end - 1
            } else {
                range.end as int
            };
            if end < range.end {
                text::lemma_newline_boundary(chars, end);
            }
            text::lemma_floor_boundary(bytes, end);
            indentation::lemma_line_start_number(bytes, range.start as int);
            indentation::lemma_line_start_number(bytes, end);
            assert(first == text::line_start(bytes, range.start as int));
            assert(last == text::line_start(bytes, end));
            if last < first {
                cursor_movement::lemma_count_rises(bytes, range.start as int, end);
                cursor_movement::lemma_count_rises(bytes, last, first - 1);
            }
        },
        None => {
            indentation::lemma_line_start_number(bytes, document.cursor_pos as int);
        },
    }
    indentation::lemma_lines_numbered(bytes, first, last);
    let rest = text::line_starts_after(bytes, first, last);
    if rest.len() > 0 {
        assert(starts.last() == rest[rest.len() - 1]);
    } else {
        assert(starts.last() == first);
    }
    if 0 < k < starts.len() {
        assert(starts[k] == rest[k - 1]);
    }
}

/// The tab key with shift takes the indentation off every line from that of the selection's start
/// to that of its last selected character, or off the line of the cursor where nothing is
/// selected: a tab, or up to four spaces. All other bytes stay, in their order, and where no line
/// is indented nothing changes.
pub proof fn shift_tab_takes_off_the_indentation<F: Fn(&str) -> Result<ParsedConflictFile, String>>(
    modifiers: Modifiers,
    key_char: Option<String>,
    is_macos: bool,
    before: ConflictEditorDocument,
    after: ConflictEditorDocument,
    anchor: Option<usize>,
    lines: Seq<ConflictRenderLine>,
    typed: Seq<char>,
    parse: F,
)
    requires
        modifiers.shift,
        before.bytes().len() <= usize::MAX,
        before.selection_fits(),
        text::is_boundary(before.bytes(), before.cursor_pos as int),
        cursor_movement::key_pressed(
            "tab"@,
            modifiers,
            key_char,
            is_macos,
            before,
            after,
            anchor,
            lines,
            typed,
            parse,
        ),
    ensures
        ({
            let bytes = before.bytes();
            let (first, last) = outdented_lines(before);
            &&& after.bytes() == kept(bytes, taken_off(bytes, first, last), bytes.len() as int)
            &&& (forall|i: int|
                0 <= i < bytes.len() ==> !#[trigger] indents(bytes, first, last, i)) ==> after
                == before
        }),
{
    cursor_movement::lemma_key_names();
    let bytes = before.bytes();
    let removals = conflict_document::document_removals(before);
    let (first, last) = outdented_lines(before);
    let gone = taken_off(bytes, first, last);
    let len = bytes.len() as int;
    lemma_outdent_facts(before);
    let other = removed(removals);
    lemma_kept_same(bytes, bytes, other, gone, len);
    lemma_remove_keeps(bytes, removals);
    if removals.len() > 0 {
        let at = removals[0].start as int;
        assert(removals[0].start <= at < removals[0].end());
        assert(other(at));
        assert(gone(at));
        assert(indents(bytes, first, last, at));
    }
}

/// An offset that no stretch swallows comes to lie behind what is kept before it.
proof fn lemma_kept_count(bytes: Seq<u8>, removals: Seq<Removal>, offset: int)
    requires
        in_order(removals, bytes.len() as int),
        0 <= offset <= bytes.len(),
        forall|k: int| 0 <= k < removals.len() ==> !(#[trigger] removals[k]).swallows(offset),
    ensures
        kept(bytes, removed(removals), offset).len() == offset - text::removed_before(
            removals,
            offset,
        ),
    decreases removals.len(),
{
    let gone = removed(removals);
    if removals.len() == 0 {
        assert forall|i: int| 0 <= i < offset implies #[trigger] gone(i) == false by {}
        lemma_kept_stretch(bytes, gone, 0, offset, false);
    } else {
        let last = removals.last();
        let rest = removals.drop_last();
        let at = removals.len() - 1;
        assert(removals[at] == last);
        let start = last.start as int;
        let end = last.end();
        let earlier = removed(rest);
        assert forall|k: int| 0 <= k < rest.len() implies (#[trigger] rest[k]).end() <= start by {
            assert(rest[k] == removals[k]);
            assert(removals[k].end() <= removals[at].start);
        }
        assert forall|i: int| 0 <= i < start implies #[trigger] earlier(i) == gone(i) by {
            if earlier(i) {
                let k = choose|k: int|
                    0 <= k < rest.len() && (#[trigger] rest[k]).start <= i < rest[k].end();
                assert(removals[k].start <= i < removals[k].end());
            }
            if gone(i) {
                let k = choose|k: int|
                    0 <= k < removals.len() && (#[trigger] removals[k]).start <= i
                        < removals[k].end();
                assert(rest[k].start <= i < rest[k].end());
            }
        }
        assert(!removals[at].swallows(offset));
        if start < offset {
            lemma_kept_count(bytes, rest, start);
            lemma_kept_same(bytes, bytes, earlier, gone, start);
            assert forall|i: int| start <= i < end implies #[trigger] gone(i) == true by {
                assert(removals[at].start <= i < removals[at].end());
            }
            lemma_kept_stretch(bytes, gone, start, end, true);
            assert forall|i: int| end <= i < offset implies #[trigger] gone(i) == false by {
                if gone(i) {
                    let k = choose|k: int|
                        0 <= k < removals.len() && (#[trigger] removals[k]).start <= i
                            < removals[k].end();
                    if k < at {
                        assert(removals[k].end() <= removals[at].start);
                    }
                }
            }
            lemma_kept_stretch(bytes, gone, end, offset, false);
            lemma_removed_before_all(rest, start);
            lemma_removed_before_all(rest, offset);
        } else {
            assert forall|k: int| 0 <= k < rest.len() implies !(#[trigger] rest[k]).swallows(
                offset,
            ) by {
                assert(rest[k] == removals[k]);
            }
            lemma_kept_count(bytes, rest, offset);
            lemma_kept_same(bytes, bytes, earlier, gone, offset);
            if end <= offset {
                assert(last.len == 0);
            }
        }
    }
}

/// All stretches that end up to an offset count as removed before it.
proof fn lemma_removed_before_all(removals: Seq<Removal>, offset: int)
    requires
        forall|k: int| 0 <= k < removals.len() ==> (#[trigger] removals[k]).end() <= offset,
    ensures
        text::removed_before(removals, offset) == text::removed_before(removals, usize::MAX * 2),
    decreases removals.len(),
{
    if removals.len() > 0 {
        let rest = removals.drop_last();
        let at = removals.len() - 1;
        assert(removals[at] == removals.last());
        assert forall|k: int| 0 <= k < rest.len() implies (#[trigger] rest[k]).end() <= offset by {
            assert(rest[k] == removals[k]);
        }
        lemma_removed_before_all(rest, offset);
        assert(removals.last().end() <= usize::MAX * 2);
    }
}

/// What is kept up to an offset is the front of what is kept of more.
proof fn lemma_kept_front(bytes: Seq<u8>, gone: spec_fn(int) -> bool, a: int, b: int)
    requires
        0 <= a <= b,
    ensures
        kept(bytes, gone, a).len() <= kept(bytes, gone, b).len(),
        forall|i: int|
            0 <= i < kept(bytes, gone, a).len() ==> #[trigger] kept(bytes, gone, b)[i] == kept(
                bytes,
                gone,
                a,
            )[i],
    decreases b - a,
{
    if a < b {
        lemma_kept_front(bytes, gone, a, b - 1);
    }
}

/// An offset at a character that no stretch swallows comes to lie at a character.
proof fn lemma_kept_boundary(bytes: Seq<u8>, removals: Seq<Removal>, offset: int)
    requires
        in_order(removals, bytes.len() as int),
        text::removable(bytes, removals),
        text::is_boundary(bytes, offset),
        forall|k: int| 0 <= k < removals.len() ==> !(#[trigger] removals[k]).swallows(offset),
    ensures
        text::is_boundary(
            kept(bytes, removed(removals), bytes.len() as int),
            kept(bytes, removed(removals), offset).len() as int,
        ),
    decreases bytes.len() - offset,
{
    let gone = removed(removals);
    let len = bytes.len() as int;
    if offset < len {
        if gone(offset) {
            let k = choose|k: int|
                0 <= k < removals.len() && (#[trigger] removals[k]).start <= offset
                    < removals[k].end();
            let end = removals[k].end();
            assert(removals[k].start == offset);
            assert forall|i: int| offset <= i < end implies #[trigger] gone(i) == true by {
                assert(removals[k].start <= i < removals[k].end());
            }
            lemma_kept_stretch(bytes, gone, offset, end, true);
            assert forall|j: int| 0 <= j < removals.len() implies !(#[trigger] removals[j]).swallows(
                end,
            ) by {
                if j < k {
                    assert(removals[j].end() <= removals[k].start);
                }
                if k < j {
                    assert(removals[k].end() <= removals[j].start);
                }
            }
            lemma_kept_boundary(bytes, removals, end);
        } else {
            let x = kept(bytes, gone, offset).len() as int;
            lemma_kept_front(bytes, gone, offset + 1, len);
            assert(kept(bytes, gone, offset + 1)[x] == bytes[offset]);
            assert(kept(bytes, gone, len)[x] == kept(bytes, gone, offset + 1)[x]);
        }
    }
}

/// An offset that no stretch swallows is swallowed to none.
proof fn lemma_not_swallowed(removals: Seq<Removal>, offset: int)
    requires
        forall|k: int| 0 <= k < removals.len() ==> !(#[trigger] removals[k]).swallows(offset),
    ensures
        text::swallowed_to(removals, offset) is None,
    decreases removals.len(),
{
    if removals.len() > 0 {
        let rest = removals.drop_first();
        assert(!removals[0].swallows(offset));
        assert forall|k: int| 0 <= k < rest.len() implies !(#[trigger] rest[k]).swallows(
            offset,
        ) by {
            assert(rest[k] == removals[k + 1]);
        }
        lemma_not_swallowed(rest, offset);
    }
}

/// The offset lies between two bytes that are both gone.
pub open spec fn lies_inside(gone: spec_fn(int) -> bool, len: int, offset: int) -> bool {
    0 < offset < len && gone(offset - 1) && gone(offset)
}

/// An offset outside of what is taken off keeps its place in the text.
proof fn lemma_place_kept(
    bytes: Seq<u8>,
    after: Seq<u8>,
    removals: Seq<Removal>,
    gone: spec_fn(int) -> bool,
    offset: int,
)
    requires
        valid_utf8(after),
        in_order(removals, bytes.len() as int),
        text::removable(bytes, removals),
        forall|i: int| 0 <= i < bytes.len() ==> #[trigger] removed(removals)(i) == gone(i),
        after == kept(bytes, gone, bytes.len() as int),
        text::is_boundary(bytes, offset),
        !lies_inside(gone, bytes.len() as int, offset),
    ensures
        text::adjusted_offset(removals, offset) == kept(bytes, gone, offset).len(),
        text::floor_boundary(after, text::adjusted_offset(removals, offset)) == kept(
            bytes,
            gone,
            offset,
        ).len(),
{
    let other = removed(removals);
    let len = bytes.len() as int;
    assert forall|k: int| 0 <= k < removals.len() implies !(#[trigger] removals[k]).swallows(
        offset,
    ) by {
        if removals[k].swallows(offset) {
            assert(removals[k].end() <= len);
            assert(removals[k].start <= offset - 1 < removals[k].end());
            assert(other(offset - 1));
            assert(gone(offset - 1));
            assert(removals[k].start <= offset < removals[k].end());
            assert(other(offset));
            assert(gone(offset));
        }
    }
    lemma_not_swallowed(removals, offset);
    lemma_kept_count(bytes, removals, offset);
    lemma_kept_boundary(bytes, removals, offset);
    lemma_kept_same(bytes, bytes, other, gone, offset);
    lemma_kept_same(bytes, bytes, other, gone, len);
    text::lemma_floor_boundary(after, kept(bytes, gone, offset).len() as int);
}

/// The stretches that are removed are the indentation of the lines.
proof fn lemma_outdent_facts(document: ConflictEditorDocument)
    requires
        document.bytes().len() <= usize::MAX,
        document.selection_fits(),
        text::is_boundary(document.bytes(), document.cursor_pos as int),
    ensures
        ({
            let bytes = document.bytes();
            let removals = conflict_document::document_removals(document);
            let (first, last) = outdented_lines(document);
            &&& in_order(removals, bytes.len() as int)
            &&& text::removable(bytes, removals)
            &&& forall|k: int| 0 <= k < removals.len() ==> (#[trigger] removals[k]).len > 0
            &&& forall|i: int|
                0 <= i < bytes.len() ==> #[trigger] removed(removals)(i) == taken_off(
                    bytes,
                    first,
                    last,
                )(i)
        }),
{
    let bytes = document.bytes();
    let chars = document.raw_text@;
    let starts = conflict_document::edited_lines(document);
    let removals = conflict_document::document_removals(document);
    let (first, last) = outdented_lines(document);
    let gone = taken_off(bytes, first, last);
    encode_utf8_valid_utf8(chars);
    text::lemma_touched_lines(chars, document.selection_range, document.cursor_pos as int);
    text::lemma_outdent_removals(chars, starts);
    lemma_edited_lines(document, 0);
    assert forall|k: int| 0 <= k < starts.len() implies text::newline_count(
        bytes,
        #[trigger] starts[k],
    ) == text::newline_count(bytes, starts[0]) + k && (starts[k] > 0 ==> bytes[starts[k] - 1]
        == NEWLINE) by {
        lemma_edited_lines(document, k);
    }
    let other = removed(removals);
    assert forall|i: int| 0 <= i < bytes.len() implies #[trigger] other(i) == gone(i) by {
        lemma_taken_off(bytes, starts, i);
    }
}

/// Where outdenting takes something off, the cursor and the ends of the selection keep their places in
/// the text that stays, unless they stood inside of what is taken off.
pub proof fn shift_tab_keeps_the_places<F: Fn(&str) -> Result<ParsedConflictFile, String>>(
    modifiers: Modifiers,
    key_char: Option<String>,
    is_macos: bool,
    before: ConflictEditorDocument,
    after: ConflictEditorDocument,
    anchor: Option<usize>,
    lines: Seq<ConflictRenderLine>,
    typed: Seq<char>,
    parse: F,
    at: int,
)
    requires
        modifiers.shift,
        before.bytes().len() <= usize::MAX,
        before.selection_fits(),
        text::is_boundary(before.bytes(), before.cursor_pos as int),
        0 <= at < before.bytes().len(),
        taken_off(before.bytes(), outdented_lines(before).0, outdented_lines(before).1)(at),
        cursor_movement::key_pressed(
            "tab"@,
            modifiers,
            key_char,
            is_macos,
            before,
            after,
            anchor,
            lines,
            typed,
            parse,
        ),
    ensures
        ({
            let bytes = before.bytes();
            let len = bytes.len() as int;
            let gone = taken_off(bytes, outdented_lines(before).0, outdented_lines(before).1);
            let place = |offset: int| kept(bytes, gone, offset).len();
            match before.selection_range {
                None => {
                    &&& after.selection_range is None
                    &&& !lies_inside(gone, len, before.cursor_pos as int) ==> after.cursor_pos
                        == place(before.cursor_pos as int)
                },
                Some(range) => {
                    &&& !lies_inside(gone, len, range.end as int) ==> after.cursor_pos == place(
                        range.end as int,
                    )
                    &&& !lies_inside(gone, len, range.start as int) && !lies_inside(
                        gone,
                        len,
                        range.end as int,
                    ) ==> (if place(range.start as int) < place(range.end as int) {
                        after.selection_range is Some && after.selection_range->0.start == place(
                            range.start as int,
                        ) && after.selection_range->0.end == place(range.end as int)
                    } else {
                        after.selection_range is None
                    })
                },
            }
        }),
{
    cursor_movement::lemma_key_names();
    let bytes = before.bytes();
    let len = bytes.len() as int;
    let removals = conflict_document::document_removals(before);
    let (first, last) = outdented_lines(before);
    let gone = taken_off(bytes, first, last);
    lemma_outdent_facts(before);
    let other = removed(removals);
    assert(other(at) == gone(at));
    assert(removals.len() > 0);
    encode_utf8_valid_utf8(after.raw_text@);
    lemma_remove_keeps(bytes, removals);
    lemma_kept_same(bytes, bytes, other, gone, len);
    assert(after.bytes() == kept(bytes, gone, len));
    let point = match before.selection_range {
        Some(range) => range.end as int,
        None => before.cursor_pos as int,
    };
    assert(text::is_boundary(bytes, point));
    if !lies_inside(gone, len, point) {
        lemma_place_kept(bytes, after.bytes(), removals, gone, point);
        lemma_kept_front(bytes, gone, point, len);
        lemma_kept_bound(bytes, gone, point);
    }
    if before.selection_range is Some {
        let start = before.selection_range->0.start as int;
        assert(text::is_boundary(bytes, start));
        if !lies_inside(gone, len, start) {
            lemma_place_kept(bytes, after.bytes(), removals, gone, start);
            lemma_kept_bound(bytes, gone, start);
        }
    }
}

/// No more is kept than there is.
proof fn lemma_kept_bound(bytes: Seq<u8>, gone: spec_fn(int) -> bool, upto: int)
    requires
        0 <= upto,
    ensures
        kept(bytes, gone, upto).len() <= upto,
    decreases upto,
{
    if upto > 0 {
        lemma_kept_bound(bytes, gone, upto - 1);
    }
}

} // verus!
