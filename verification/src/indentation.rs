//! What indenting does to lines, outdenting takes back.

use crate::conflict_document;
use crate::conflict_document::{ConflictEditorDocument, ParsedConflictFile};
use crate::conflict_lines::ConflictRenderLine;
use crate::cursor_movement;
use crate::keys::Modifiers;
use crate::text;
use crate::text::{ByteRange, Removal, NEWLINE, SPACE};
use vstd::prelude::*;
use vstd::utf8::*;

verus! {

/// The positions lie inside the text, in order.
spec fn positions_fit(bytes: Seq<u8>, positions: Seq<int>) -> bool {
    &&& text::increasing(positions)
    &&& forall|i: int| 0 <= i < positions.len() ==> 0 <= #[trigger] positions[i] <= bytes.len()
}

/// Where the byte at an offset goes when the indentation is inserted at the positions.
spec fn shifted(positions: Seq<int>, offset: int) -> int {
    offset + 4 * text::count_at_most(positions, offset)
}

/// Where the indentation in front of an offset begins, after the insertions before it.
spec fn insertion_start(positions: Seq<int>, offset: int) -> int {
    offset + 4 * text::count_at_most(positions, offset - 1)
}

/// The text with the lines indented.
spec fn indented(bytes: Seq<u8>, positions: Seq<int>) -> Seq<u8> {
    text::insert_all(bytes, positions, conflict_document::indent_bytes())
}

/// The starts of the indented lines.
spec fn indented_starts(positions: Seq<int>) -> Seq<int> {
    Seq::new(positions.len(), |k: int| positions[k] + 4 * k)
}

/// What was inserted.
spec fn insertions(positions: Seq<int>) -> Seq<Removal> {
    Seq::new(
        positions.len(),
        |k: int| Removal { start: (positions[k] + 4 * k) as usize, len: 4 },
    )
}

/// Indenting makes the text longer by four bytes a line.
proof fn lemma_indented_len(bytes: Seq<u8>, positions: Seq<int>)
    requires
        positions_fit(bytes, positions),
    ensures
        indented(bytes, positions).len() == bytes.len() + 4 * positions.len(),
{
    let indent = conflict_document::indent_bytes();
    text::lemma_insert_all_len(bytes, positions, indent);
    assert(indent.len() == 4);
    assert(positions.len() * indent.len() == 4 * positions.len()) by (nonlinear_arith)
        requires
            indent.len() == 4,
    ;
}

/// As many positions lie at or before a limit as there are before the first one behind it.
proof fn lemma_count(positions: Seq<int>, limit: int, count: int)
    requires
        text::increasing(positions),
        0 <= count <= positions.len(),
        count > 0 ==> positions[count - 1] <= limit,
        count < positions.len() ==> positions[count] > limit,
    ensures
        text::count_at_most(positions, limit) == count,
    decreases positions.len(),
{
    if positions.len() > 0 {
        let shorter = positions.drop_last();
        let last = positions.len() - 1;
        if count == positions.len() {
            if count > 1 {
                assert(positions[count - 2] < positions[count - 1]);
            }
            lemma_count(shorter, limit, count - 1);
        } else {
            if count < last {
                assert(positions[count] < positions[last]);
            }
            lemma_count(shorter, limit, count);
        }
    }
}

/// Finds how many positions lie at or before a limit.
proof fn lemma_count_bounds(positions: Seq<int>, limit: int)
    requires
        text::increasing(positions),
    ensures
        ({
            let count = text::count_at_most(positions, limit) as int;
            &&& 0 <= count <= positions.len()
            &&& forall|k: int| 0 <= k < count ==> #[trigger] positions[k] <= limit
            &&& forall|k: int| count <= k < positions.len() ==> #[trigger] positions[k] > limit
        }),
    decreases positions.len(),
{
    if positions.len() > 0 {
        let shorter = positions.drop_last();
        let last = positions.len() - 1;
        lemma_count_bounds(shorter, limit);
        let count = text::count_at_most(shorter, limit) as int;
        assert forall|k: int| 0 <= k < text::count_at_most(positions, limit) implies #[trigger] positions[k]
            <= limit by {
            if k < last {
                assert(positions[k] < positions[last]);
                if k < count {
                    assert(shorter[k] <= limit);
                }
            }
        }
        if positions[last] <= limit && count < last {
            assert(shorter[count] > limit);
            assert(positions[count] < positions[last]);
        }
        assert forall|k: int|
            text::count_at_most(positions, limit) <= k < positions.len() implies #[trigger] positions[k]
            > limit by {
            if k < last {
                assert(shorter[k] > limit);
            }
        }
    }
}

/// Every byte of the text is where it was shifted to.
proof fn lemma_shifted_byte(bytes: Seq<u8>, positions: Seq<int>, offset: int)
    requires
        positions_fit(bytes, positions),
        0 <= offset < bytes.len(),
    ensures
        0 <= shifted(positions, offset) < indented(bytes, positions).len(),
        indented(bytes, positions)[shifted(positions, offset)] == bytes[offset],
    decreases positions.len(),
{
    let indent = conflict_document::indent_bytes();
    lemma_indented_len(bytes, positions);
    lemma_count_bounds(positions, offset);
    if positions.len() > 0 {
        let last = positions.last();
        let shorter = positions.drop_last();
        assert(positions[positions.len() - 1] == last);
        let next = text::splice(bytes, last, last, indent);
        assert(next.len() == bytes.len() + 4);
        assert(positions_fit(next, shorter));
        if offset < last {
            assert(next[offset] == bytes[offset]);
            lemma_shifted_byte(next, shorter, offset);
        } else {
            assert(next[offset + 4] == bytes[offset]);
            lemma_shifted_byte(next, shorter, offset + 4);
            lemma_all_before(shorter, last, offset + 4);
            lemma_all_before(shorter, last, offset);
        }
    }
}

/// All positions before one lie before any limit from there on.
proof fn lemma_all_before(positions: Seq<int>, bound: int, limit: int)
    requires
        text::increasing(positions),
        forall|k: int| 0 <= k < positions.len() ==> #[trigger] positions[k] <= bound,
        bound <= limit,
    ensures
        text::count_at_most(positions, limit) == positions.len(),
{
    if positions.len() > 0 {
        assert(positions[positions.len() - 1] <= bound);
    }
    lemma_count(positions, limit, positions.len() as int);
}

/// Each line begins with the indentation.
proof fn lemma_inserted_bytes(bytes: Seq<u8>, positions: Seq<int>, k: int, j: int)
    requires
        positions_fit(bytes, positions),
        0 <= k < positions.len(),
        0 <= j < 4,
    ensures
        0 <= positions[k] + 4 * k + j < indented(bytes, positions).len(),
        indented(bytes, positions)[positions[k] + 4 * k + j] == SPACE,
    decreases positions.len(),
{
    let indent = conflict_document::indent_bytes();
    lemma_indented_len(bytes, positions);
    let last = positions.last();
    let shorter = positions.drop_last();
    assert(positions[positions.len() - 1] == last);
    let next = text::splice(bytes, last, last, indent);
    assert(next.len() == bytes.len() + 4);
    assert(positions_fit(next, shorter));
    if k < positions.len() - 1 {
        lemma_inserted_bytes(next, shorter, k, j);
        assert(shorter[k] == positions[k]);
    } else {
        assert(next[last + j] == indent[j]);
        lemma_shifted_byte(next, shorter, last + j);
        lemma_all_before(shorter, last, last + j);
    }
}

/// Inserting behind the other positions first, or last, gives the same text.
proof fn lemma_insert_last(bytes: Seq<u8>, positions: Seq<int>, at: int)
    requires
        positions_fit(bytes, positions),
        0 <= at <= bytes.len(),
        forall|k: int| 0 <= k < positions.len() ==> #[trigger] positions[k] < at,
    ensures
        indented(
            text::splice(bytes, at, at, conflict_document::indent_bytes()),
            positions,
        ) == text::splice(
            indented(bytes, positions),
            at + 4 * positions.len(),
            at + 4 * positions.len(),
            conflict_document::indent_bytes(),
        ),
    decreases positions.len(),
{
    let indent = conflict_document::indent_bytes();
    if positions.len() > 0 {
        let last = positions.last();
        let shorter = positions.drop_last();
        assert(positions[positions.len() - 1] == last);
        let late = text::splice(bytes, at, at, indent);
        let early = text::splice(bytes, last, last, indent);
        assert(text::splice(late, last, last, indent) =~= text::splice(
            early,
            at + 4,
            at + 4,
            indent,
        ));
        assert(positions_fit(early, shorter));
        assert forall|k: int| 0 <= k < shorter.len() implies #[trigger] shorter[k] < at + 4 by {
            assert(shorter[k] == positions[k]);
        }
        lemma_insert_last(early, shorter, at + 4);
    }
}

/// Taking out what was inserted gives the text back.
proof fn lemma_remove_inserted(bytes: Seq<u8>, positions: Seq<int>)
    requires
        positions_fit(bytes, positions),
        indented(bytes, positions).len() <= usize::MAX,
    ensures
        text::remove_all(indented(bytes, positions), insertions(positions)) == bytes,
    decreases positions.len(),
{
    let indent = conflict_document::indent_bytes();
    lemma_indented_len(bytes, positions);
    if positions.len() > 0 {
        let last = positions.last();
        let shorter = positions.drop_last();
        let count = shorter.len();
        assert(positions[positions.len() - 1] == last);
        assert(positions_fit(bytes, shorter));
        assert forall|k: int| 0 <= k < shorter.len() implies #[trigger] shorter[k] < last by {
            assert(shorter[k] == positions[k]);
        }
        lemma_insert_last(bytes, shorter, last);
        lemma_indented_len(bytes, shorter);
        let rest = indented(bytes, shorter);
        let removals = insertions(positions);
        assert(removals.last().start == last + 4 * count);
        assert(removals.last().end() == last + 4 * count + 4);
        assert(text::splice(
            indented(bytes, positions),
            last + 4 * count,
            last + 4 * count + 4,
            Seq::empty(),
        ) =~= rest);
        assert(removals.drop_last() =~= insertions(shorter));
        lemma_remove_inserted(bytes, shorter);
    }
}

/// Outdenting the indented lines takes out what was inserted.
proof fn lemma_outdent_indented(bytes: Seq<u8>, positions: Seq<int>, count: int)
    requires
        positions_fit(bytes, positions),
        0 <= count <= positions.len(),
    ensures
        text::outdent_removals(indented(bytes, positions), indented_starts(positions).take(count))
            == insertions(positions).take(count),
    decreases count,
{
    let out = indented(bytes, positions);
    let starts = indented_starts(positions).take(count);
    let removals = insertions(positions).take(count);
    if count > 0 {
        lemma_outdent_indented(bytes, positions, count - 1);
        assert(starts.drop_last() =~= indented_starts(positions).take(count - 1));
        assert(removals.drop_last() =~= insertions(positions).take(count - 1));
        let at = starts.last();
        assert(at == positions[count - 1] + 4 * (count - 1));
        assert forall|j: int| 0 <= j < 4 implies #[trigger] out[at + j] == SPACE && at + j
            < out.len() by {
            lemma_inserted_bytes(bytes, positions, count - 1, j);
        }
        assert(out[at + 0] == SPACE && out[at + 1] == SPACE && out[at + 2] == SPACE && out[at + 3]
            == SPACE);
        reveal_with_fuel(text::leading_spaces, 5);
        assert(text::leading_spaces(out, at, 4) == 4);
        assert(text::outdent_len(out, at) == 4);
        assert(text::outdent_removals(out, starts) =~= removals);
    } else {
        assert(removals =~= Seq::<Removal>::empty());
    }
}

/// Where an offset goes when the first few insertions are taken out again.
proof fn lemma_insertions_before(positions: Seq<int>, offset: int, count: int)
    requires
        text::increasing(positions),
        0 <= offset,
        0 <= count <= positions.len(),
        forall|k: int| 0 <= k < positions.len() ==> 0 <= #[trigger] positions[k],
        positions.len() > 0 ==> positions.last() + 4 * positions.len() <= usize::MAX,
    ensures
        text::removed_before(insertions(positions).take(count), shifted(positions, offset)) == 4
            * if count <= text::count_at_most(positions, offset) {
            count
        } else {
            text::count_at_most(positions, offset) as int
        },
    decreases count,
{
    lemma_count_bounds(positions, offset);
    if count > 0 {
        lemma_insertions_before(positions, offset, count - 1);
        let removals = insertions(positions).take(count);
        assert(removals.drop_last() =~= insertions(positions).take(count - 1));
        let at = positions[count - 1];
        if count < positions.len() {
            assert(at < positions[positions.len() - 1]);
        }
        assert(removals.last().start == at + 4 * (count - 1));
    }
}

proof fn lemma_nothing_swallowed(positions: Seq<int>, offset: int, from: int)
    requires
        text::increasing(positions),
        0 <= offset,
        0 <= from <= positions.len(),
        forall|k: int| 0 <= k < positions.len() ==> 0 <= #[trigger] positions[k],
        positions.len() > 0 ==> positions.last() + 4 * positions.len() <= usize::MAX,
    ensures
        text::swallowed_to(insertions(positions).skip(from), shifted(positions, offset)) is None,
    decreases positions.len() - from,
{
    lemma_count_bounds(positions, offset);
    let removals = insertions(positions).skip(from);
    if from < positions.len() {
        lemma_nothing_swallowed(positions, offset, from + 1);
        assert(removals.drop_first() =~= insertions(positions).skip(from + 1));
        let at = positions[from];
        if from < positions.len() - 1 {
            assert(at < positions[positions.len() - 1]);
        }
        assert(removals[0].start == at + 4 * from);
    }
}

/// A shifted offset goes back to where it was when the insertions are taken out.
proof fn lemma_offset_returns(positions: Seq<int>, offset: int)
    requires
        text::increasing(positions),
        0 <= offset,
        forall|k: int| 0 <= k < positions.len() ==> 0 <= #[trigger] positions[k],
        positions.len() > 0 ==> positions.last() + 4 * positions.len() <= usize::MAX,
    ensures
        text::adjusted_offset(insertions(positions), shifted(positions, offset)) == offset,
{
    lemma_count_bounds(positions, offset);
    lemma_insertions_before(positions, offset, positions.len() as int);
    lemma_nothing_swallowed(positions, offset, 0);
    assert(insertions(positions).take(positions.len() as int) =~= insertions(positions));
    assert(insertions(positions).skip(0) =~= insertions(positions));
}

/// The start of a line is known by the line feed before it and by none being behind it.
proof fn lemma_line_start_is(bytes: Seq<u8>, offset: int, start: int)
    requires
        0 <= start <= offset,
        start > 0 ==> bytes[start - 1] == NEWLINE,
        forall|at: int| start <= at < offset ==> #[trigger] bytes[at] != NEWLINE,
    ensures
        text::line_start(bytes, offset) == start,
    decreases offset,
{
    if offset > start {
        assert(bytes[offset - 1] != NEWLINE);
        lemma_line_start_is(bytes, offset - 1, start);
    }
}

/// No line feed lies between the start of a line and an offset on it.
proof fn lemma_line_start_clear(bytes: Seq<u8>, offset: int)
    requires
        0 <= offset,
    ensures
        0 <= text::line_start(bytes, offset) <= offset,
        text::line_start(bytes, offset) > 0 ==> bytes[text::line_start(bytes, offset) - 1]
            == NEWLINE,
        forall|at: int|
            text::line_start(bytes, offset) <= at < offset ==> #[trigger] bytes[at] != NEWLINE,
    decreases offset,
{
    if offset > 0 && bytes[offset - 1] != NEWLINE {
        lemma_line_start_clear(bytes, offset - 1);
    }
}

/// Bytes without a line feed begin no lines.
proof fn lemma_no_lines(bytes: Seq<u8>, first: int, from: int, to: int)
    requires
        0 <= first <= from <= to,
        forall|at: int| from <= at < to ==> #[trigger] bytes[at] != NEWLINE,
    ensures
        text::line_starts_after(bytes, first, to) == text::line_starts_after(bytes, first, from),
    decreases to - from,
{
    if from < to {
        assert(bytes[to - 1] != NEWLINE);
        lemma_no_lines(bytes, first, from, to - 1);
        if to - 1 <= first {
            assert(text::line_starts_after(bytes, first, from) =~= Seq::<int>::empty());
        }
    }
}

/// The lines of the indented text begin where the indentation was put.
proof fn lemma_indented_lines(bytes: Seq<u8>, positions: Seq<int>, last: int)
    requires
        positions_fit(bytes, positions),
        positions.len() > 0,
        positions[0] <= last <= bytes.len(),
    ensures
        text::line_starts_after(
            indented(bytes, positions),
            positions[0],
            insertion_start(positions, last),
        ) == text::line_starts_after(bytes, positions[0], last).map_values(
            |at: int| insertion_start(positions, at),
        ),
    decreases last,
{
    let out = indented(bytes, positions);
    let first = positions[0];
    let moved = |at: int| insertion_start(positions, at);
    lemma_count(positions, first - 1, 0);
    lemma_count_bounds(positions, last - 1);
    if last <= first {
        assert(text::line_starts_after(bytes, first, last).map_values(moved) =~= Seq::<
            int,
        >::empty());
    } else {
        let at = last - 1;
        lemma_indented_lines(bytes, positions, at);
        lemma_shifted_byte(bytes, positions, at);
        lemma_count_bounds(positions, at);
        lemma_count_bounds(positions, at - 1);
        let before = text::count_at_most(positions, at - 1) as int;
        let count = text::count_at_most(positions, at) as int;
        let from = insertion_start(positions, at);
        let to = shifted(positions, at);
        assert(insertion_start(positions, last) == to + 1);
        assert(before <= count) by {
            if before > count {
                assert(positions[count] <= at - 1);
            }
        }
        assert(count <= before + 1) by {
            if count > before + 1 {
                assert(positions[before] > at - 1);
                assert(positions[before + 1] <= at);
                assert(positions[before] < positions[before + 1]);
            }
        }
        assert forall|q: int| from <= q < to implies #[trigger] out[q] != NEWLINE by {
            assert(count == before + 1);
            assert(positions[before] == at);
            lemma_inserted_bytes(bytes, positions, before, q - from);
        }
        lemma_no_lines(out, first, from, to);
        let shorter = text::line_starts_after(bytes, first, at);
        assert(out[to] == bytes[at]);
        assert(to + 1 > first);
        if bytes[at] == NEWLINE {
            assert(shorter.push(last).map_values(moved) =~= shorter.map_values(moved).push(
                moved(last),
            ));
        }
    }
}

/// The line of a shifted offset begins at the indentation of its line.
proof fn lemma_shifted_line(bytes: Seq<u8>, positions: Seq<int>, offset: int, k: int)
    requires
        positions_fit(bytes, positions),
        0 <= offset <= bytes.len(),
        0 <= k < positions.len(),
        positions[k] == text::line_start(bytes, offset),
        text::count_at_most(positions, offset) == k + 1,
    ensures
        text::line_start(indented(bytes, positions), shifted(positions, offset)) == positions[k]
            + 4 * k,
{
    let out = indented(bytes, positions);
    let start = positions[k];
    lemma_line_start_clear(bytes, offset);
    lemma_count_bounds(positions, offset);
    if start > 0 {
        if k > 0 {
            assert(positions[k - 1] < positions[k]);
        }
        lemma_count(positions, start - 1, k);
        lemma_shifted_byte(bytes, positions, start - 1);
        assert(shifted(positions, start - 1) == start + 4 * k - 1);
    } else if k > 0 {
        assert(positions[0] < positions[k]);
    }
    assert forall|q: int| start + 4 * k <= q < shifted(positions, offset) implies #[trigger] out[q]
        != NEWLINE by {
        if q < start + 4 * k + 4 {
            lemma_inserted_bytes(bytes, positions, k, q - start - 4 * k);
        } else {
            let at = q - 4 * (k + 1);
            lemma_count(positions, at, k + 1);
            lemma_shifted_byte(bytes, positions, at);
            assert(bytes[at] != NEWLINE);
        }
    }
    lemma_line_start_is(out, shifted(positions, offset), start + 4 * k);
}

/// Every line that begins in a range is listed.
proof fn lemma_line_listed(bytes: Seq<u8>, first: int, last: int)
    requires
        0 <= first < last,
        bytes[last - 1] == NEWLINE,
    ensures
        text::line_starts_after(bytes, first, last).len() > 0,
        text::line_starts_after(bytes, first, last).last() == last,
{
}

/// The lines that a selection of several lines touches, and where its ends lie among them.
proof fn lemma_selected_lines(document: ConflictEditorDocument)
    requires
        document.selection_fits(),
        conflict_document::selects_lines(document),
    ensures
        ({
            let bytes = document.bytes();
            let range = document.selection_range->0;
            let starts = conflict_document::edited_lines(document);
            let end = if bytes[range.end - 1] == NEWLINE {
                range.end - 1
            } else {
                range.end as int
            };
            &&& positions_fit(bytes, starts)
            &&& starts.len() > 0
            &&& range.start < range.end
            &&& starts[0] == text::line_start(bytes, range.start as int)
            &&& starts.last() == text::line_start(bytes, end)
            &&& starts == seq![starts[0]] + text::line_starts_after(
                bytes,
                starts[0],
                starts.last(),
            )
            &&& text::count_at_most(starts, range.start as int) == 1
            &&& text::count_at_most(starts, end) == starts.len()
            &&& text::count_at_most(starts, range.end as int) == starts.len()
            &&& forall|k: int|
                0 <= k < starts.len() && starts[k] > 0 ==> bytes[#[trigger] starts[k] - 1]
                    == NEWLINE
        }),
{
    let bytes = document.bytes();
    let chars = document.raw_text@;
    let range = document.selection_range->0;
    let starts = conflict_document::edited_lines(document);
    encode_utf8_valid_utf8(chars);
    text::lemma_floor_boundary(bytes, range.start as int);
    text::lemma_floor_boundary(bytes, range.end as int);
    text::lemma_touched_lines(chars, document.selection_range, document.cursor_pos as int);
    assert(range.start < range.end);
    let end = if bytes[range.end - 1] == NEWLINE {
        range.end - 1
    } else {
        range.end as int
    };
    if end < range.end {
        text::lemma_newline_boundary(chars, end);
    }
    text::lemma_floor_boundary(bytes, end);
    let first = text::line_start(bytes, range.start as int);
    let last = text::line_start(bytes, end);
    assert(text::touched_line_bounds(
        bytes,
        document.selection_range,
        document.cursor_pos as int,
    ) == (first, last));
    lemma_line_start_clear(bytes, range.start as int);
    lemma_line_start_clear(bytes, end);
    assert(first <= last) by {
        if last < first {
            assert(bytes[first - 1] != NEWLINE);
        }
    }
    let rest = text::line_starts_after(bytes, first, last);
    if first < last {
        lemma_line_listed(bytes, first, last);
        assert(starts.last() == rest.last());
    } else {
        assert(rest =~= Seq::<int>::empty());
    }
    assert(starts =~= seq![starts[0]] + rest);
    if starts.len() > 1 {
        let second = starts[1];
        assert(starts[0] < starts[1]);
        assert(bytes[second - 1] == NEWLINE);
        if second <= range.start {
            assert(bytes[second - 1] != NEWLINE);
        }
    }
    lemma_count(starts, range.start as int, 1);
    lemma_count(starts, end, starts.len() as int);
    lemma_count(starts, range.end as int, starts.len() as int);
}

/// Where indenting puts the lines and the ends of a selection, and what outdenting takes out again:
/// exactly the indentation of every line.
proof fn lemma_indented_document<F: Fn(&str) -> Result<ParsedConflictFile, String>>(
    before: ConflictEditorDocument,
    indented: ConflictEditorDocument,
    parse: F,
)
    requires
        before.selection_fits(),
        conflict_document::selects_lines(before),
        indented.bytes().len() <= usize::MAX,
        indented.edited(
            before,
            text::insert_all(
                before.bytes(),
                conflict_document::edited_lines(before),
                conflict_document::indent_bytes(),
            ),
            conflict_document::indented_selection(before).end as int,
            Some(conflict_document::indented_selection(before)),
            parse,
        ),
    ensures
        ({
            let starts = conflict_document::edited_lines(before);
            let range = before.selection_range->0;
            &&& starts.len() > 0
            &&& positions_fit(before.bytes(), starts)
            &&& indented.bytes() == self::indented(before.bytes(), starts)
            &&& indented.selection_range == Some(
                ByteRange {
                    start: shifted(starts, range.start as int) as usize,
                    end: shifted(starts, range.end as int) as usize,
                },
            )
            &&& shifted(starts, range.start as int) == range.start + 4
            &&& shifted(starts, range.end as int) == range.end + 4 * starts.len()
            &&& shifted(starts, range.end as int) <= indented.bytes().len()
            &&& text::is_boundary(indented.bytes(), shifted(starts, range.start as int))
            &&& text::is_boundary(indented.bytes(), shifted(starts, range.end as int))
            &&& conflict_document::document_removals(indented) == insertions(starts)
        }),
{
    let bytes = before.bytes();
    let range = before.selection_range->0;
    let starts = conflict_document::edited_lines(before);
    lemma_selected_lines(before);
    let out = self::indented(bytes, starts);
    let count = starts.len() as int;
    lemma_indented_len(bytes, starts);
    assert(indented.bytes() == out);
    encode_utf8_valid_utf8(indented.raw_text@);
    encode_utf8_valid_utf8(before.raw_text@);
    // the selection of the indented text
    let start = shifted(starts, range.start as int);
    let end = shifted(starts, range.end as int);
    assert(end == range.end + 4 * count);
    assert(start == range.start + 4);
    lemma_shifted_byte(bytes, starts, range.start as int);
    assert(text::is_boundary(out, start));
    if range.end < bytes.len() {
        lemma_shifted_byte(bytes, starts, range.end as int);
    }
    assert(text::is_boundary(out, end));
    assert(start < end);
    text::lemma_floor_boundary(out, start);
    text::lemma_floor_boundary(out, end);
    assert(indented.selection_range == Some(ByteRange { start: start as usize, end: end as usize }));
    // the lines that it touches
    lemma_shifted_byte(bytes, starts, range.end - 1);
    let tail = if bytes[range.end - 1] == NEWLINE {
        range.end - 1
    } else {
        range.end as int
    };
    assert(starts.last() <= range.end - 1) by {
        lemma_line_start_clear(bytes, tail);
        assert(starts[count - 1] == starts.last());
        if starts.last() == range.end {
            assert(bytes[starts[count - 1] - 1] == NEWLINE);
        }
    }
    lemma_count(starts, range.end - 1, count);
    assert(out[end - 1] == bytes[range.end - 1]);
    let tail_out = if out[end - 1] == NEWLINE {
        end - 1
    } else {
        end
    };
    assert(tail_out == shifted(starts, tail));
    assert(text::is_boundary(out, tail_out));
    text::lemma_floor_boundary(out, tail_out);
    lemma_shifted_line(bytes, starts, range.start as int, 0);
    lemma_shifted_line(bytes, starts, tail, count - 1);
    lemma_indented_lines(bytes, starts, starts.last());
    let lines = conflict_document::edited_lines(indented);
    let moved = |at: int| insertion_start(starts, at);
    assert forall|k: int| 0 <= k < count implies #[trigger] insertion_start(starts, starts[k])
        == starts[k] + 4 * k by {
        if k > 0 {
            assert(starts[k - 1] < starts[k]);
        }
        lemma_count(starts, starts[k] - 1, k);
    }
    assert(starts.last() == starts[count - 1]);
    assert(insertion_start(starts, starts[count - 1]) == starts.last() + 4 * (count - 1));
    let rest = text::line_starts_after(bytes, starts[0], starts.last());
    assert(lines =~= seq![starts[0]] + rest.map_values(moved));
    assert(lines =~= indented_starts(starts)) by {
        assert forall|k: int| 0 <= k < count implies lines[k] == indented_starts(starts)[k] by {
            assert(insertion_start(starts, starts[k]) == starts[k] + 4 * k);
            if k > 0 {
                assert(starts[k] == rest[k - 1]);
            }
        }
    }
    // what is taken out of them
    lemma_outdent_indented(bytes, starts, count);
    assert(indented_starts(starts).take(count) =~= indented_starts(starts));
    assert(insertions(starts).take(count) =~= insertions(starts));
    assert(conflict_document::document_removals(indented) == insertions(starts));
}

/// After lines were indented, outdenting finds something to take out of them, and so changes the
/// document. `indented` is the document that indenting makes of `before`.
pub proof fn indented_lines_can_be_outdented<
    F: Fn(&str) -> Result<ParsedConflictFile, String>,
>(before: ConflictEditorDocument, indented: ConflictEditorDocument, parse: F)
    requires
        before.selection_fits(),
        conflict_document::selects_lines(before),
        indented.bytes().len() <= usize::MAX,
        indented.edited(
            before,
            text::insert_all(
                before.bytes(),
                conflict_document::edited_lines(before),
                conflict_document::indent_bytes(),
            ),
            conflict_document::indented_selection(before).end as int,
            Some(conflict_document::indented_selection(before)),
            parse,
        ),
    ensures
        conflict_document::document_removals(indented).len() > 0,
{
    lemma_indented_document(before, indented, parse);
}

/// Outdenting takes back what indenting did to the lines of a selection: it says that it changed
/// the document, and the text, the selection and the cursor's place at its end are what they were.
/// `indented` is the document that indenting makes of `before`, `after` is what outdenting makes of
/// that, and `changed` is what outdenting returns.
pub proof fn outdent_undoes_indent<F: Fn(&str) -> Result<ParsedConflictFile, String>>(
    before: ConflictEditorDocument,
    indented: ConflictEditorDocument,
    after: ConflictEditorDocument,
    changed: bool,
    parse: F,
)
    requires
        before.selection_fits(),
        conflict_document::selects_lines(before),
        indented.bytes().len() <= usize::MAX,
        indented.edited(
            before,
            text::insert_all(
                before.bytes(),
                conflict_document::edited_lines(before),
                conflict_document::indent_bytes(),
            ),
            conflict_document::indented_selection(before).end as int,
            Some(conflict_document::indented_selection(before)),
            parse,
        ),
        changed == (conflict_document::document_removals(indented).len() > 0),
        !changed ==> after == indented,
        changed ==> after.edited(
            indented,
            text::remove_all(indented.bytes(), conflict_document::document_removals(indented)),
            conflict_document::outdented_cursor(indented),
            conflict_document::outdented_selection(indented),
            parse,
        ),
    ensures
        changed,
        after.raw_text@ == before.raw_text@,
        after.selection_range == before.selection_range,
        after.cursor_pos == before.selection_range->0.end,
{
    let bytes = before.bytes();
    let range = before.selection_range->0;
    let starts = conflict_document::edited_lines(before);
    lemma_selected_lines(before);
    lemma_indented_len(bytes, starts);
    lemma_indented_document(before, indented, parse);
    let out = indented.bytes();
    encode_utf8_valid_utf8(indented.raw_text@);
    encode_utf8_valid_utf8(before.raw_text@);
    text::lemma_floor_boundary(out, shifted(starts, range.start as int));
    text::lemma_floor_boundary(out, shifted(starts, range.end as int));
    lemma_remove_inserted(bytes, starts);
    lemma_offset_returns(starts, range.start as int);
    lemma_offset_returns(starts, range.end as int);
    // the document after that
    text::lemma_floor_boundary(bytes, range.start as int);
    text::lemma_floor_boundary(bytes, range.end as int);
    text::lemma_bytes_injective(after.raw_text@, before.raw_text@);
}

/// The lines that begin behind an offset are counted by the line feeds from there on.
pub proof fn lemma_lines_numbered(bytes: Seq<u8>, first: int, last: int)
    requires
        0 <= first <= last,
    ensures
        ({
            let starts = text::line_starts_after(bytes, first, last);
            &&& starts.len() == text::newline_count(bytes, last) - text::newline_count(bytes, first)
            &&& forall|k: int|
                0 <= k < starts.len() ==> text::newline_count(bytes, #[trigger] starts[k])
                    == text::newline_count(bytes, first) + k + 1 && bytes[starts[k] - 1] == NEWLINE
                    && first < starts[k] <= last
        }),
    decreases last,
{
    if first < last {
        lemma_lines_numbered(bytes, first, last - 1);
    }
}

/// No line feed lies between the start of a line and an offset on it, so both have the same number
/// of line feeds before them.
pub proof fn lemma_line_start_number(bytes: Seq<u8>, offset: int)
    requires
        0 <= offset,
    ensures
        0 <= text::line_start(bytes, offset) <= offset,
        text::line_start(bytes, offset) > 0 ==> bytes[text::line_start(bytes, offset) - 1]
            == NEWLINE,
        text::newline_count(bytes, text::line_start(bytes, offset)) == text::newline_count(
            bytes,
            offset,
        ),
        forall|at: int|
            text::line_start(bytes, offset) <= at < offset ==> #[trigger] bytes[at] != NEWLINE,
    decreases offset,
{
    if offset > 0 && bytes[offset - 1] != NEWLINE {
        lemma_line_start_number(bytes, offset - 1);
    }
}

/// How many of some consecutive lines begin at or before an offset.
pub open spec fn lines_begun(bytes: Seq<u8>, first: int, last: int, offset: int) -> int {
    let line = text::newline_count(bytes, offset) as int;
    if line < first {
        0
    } else if line <= last {
        line - first + 1
    } else {
        last - first + 1
    }
}

/// The starts of consecutive lines, counted up to an offset.
proof fn lemma_lines_begun(bytes: Seq<u8>, starts: Seq<int>, offset: int)
    requires
        0 <= offset,
        starts.len() > 0,
        text::increasing(starts),
        starts[0] >= 0,
        starts == seq![starts[0]] + text::line_starts_after(bytes, starts[0], starts.last()),
        starts[0] > 0 ==> bytes[starts[0] - 1] == NEWLINE,
    ensures
        ({
            let first = text::newline_count(bytes, starts[0]) as int;
            let last = text::newline_count(bytes, starts.last()) as int;
            &&& starts.len() == last - first + 1
            &&& text::count_at_most(starts, offset) == lines_begun(bytes, first, last, offset)
            &&& forall|k: int|
                0 <= k < starts.len() ==> text::newline_count(bytes, #[trigger] starts[k]) == first
                    + k && (starts[k] > 0 ==> bytes[starts[k] - 1] == NEWLINE)
        }),
{
    let rest = text::line_starts_after(bytes, starts[0], starts.last());
    let first = text::newline_count(bytes, starts[0]) as int;
    if starts.len() > 1 {
        assert(starts[0] < starts[starts.len() - 1]);
    }
    lemma_lines_numbered(bytes, starts[0], starts.last());
    assert forall|k: int| 0 <= k < starts.len() implies text::newline_count(
        bytes,
        #[trigger] starts[k],
    ) == first + k && (starts[k] > 0 ==> bytes[starts[k] - 1] == NEWLINE) by {
        if k > 0 {
            assert(starts[k] == rest[k - 1]);
        }
    }
    let last = text::newline_count(bytes, starts.last()) as int;
    assert(starts.last() == starts[starts.len() - 1]);
    let count = lines_begun(bytes, first, last, offset);
    if count > 0 {
        let at = starts[count - 1];
        if offset < at {
            assert(bytes[at - 1] == NEWLINE);
            cursor_movement::lemma_count_rises(bytes, offset, at - 1);
        }
    }
    if count < starts.len() {
        let at = starts[count];
        if at <= offset {
            cursor_movement::lemma_count_rises(bytes, at, offset);
        }
    }
    lemma_count(starts, offset, count);
}

/// The tab key without shift, pressed while the selected text holds a line feed, puts four spaces
/// at the front of every line from that of the selection's start to that of its last selected
/// character, and keeps every byte of the text in its order. The selection still covers what it
/// covered, without the spaces before its start, and the cursor is at its end.
pub proof fn tab_indents_the_selected_lines<F: Fn(&str) -> Result<ParsedConflictFile, String>>(
    modifiers: Modifiers,
    key_char: Option<String>,
    is_macos: bool,
    before: ConflictEditorDocument,
    after: ConflictEditorDocument,
    anchor: Option<usize>,
    lines: Seq<ConflictRenderLine>,
    typed: Seq<char>,
    parse: F,
    at: int,
    offset: int,
)
    requires
        !modifiers.shift,
        before.selection_fits(),
        before.selection_range is Some,
        before.selection_range->0.start <= at < before.selection_range->0.end,
        before.bytes()[at] == NEWLINE,
        after.bytes().len() <= usize::MAX,
        0 <= offset <= before.bytes().len(),
        cursor_movement::key_pressed(
            "tab"@,
            modifiers,
            key_char,
            is_macos,
            before,
            after,
            anchor,
            lines,
            typed,
            parse,
        ),
    ensures
        ({
            let bytes = before.bytes();
            let range = before.selection_range->0;
            let first = text::newline_count(bytes, range.start as int) as int;
            let last = text::newline_count(bytes, range.end - 1) as int;
            let line = text::newline_count(bytes, offset) as int;
            &&& after.bytes().len() == bytes.len() + 4 * (last - first + 1)
            &&& offset < bytes.len() ==> after.bytes()[offset + 4 * lines_begun(
                bytes,
                first,
                last,
                offset,
            )] == bytes[offset]
            &&& first <= line <= last && (offset == 0 || bytes[offset - 1] == NEWLINE)
                ==> after.bytes().subrange(
                offset + 4 * (line - first),
                offset + 4 * (line - first) + 4,
            ) == seq![SPACE, SPACE, SPACE, SPACE]
            &&& after.selection_range == Some(
                ByteRange {
                    start: (range.start + 4) as usize,
                    end: (range.end + 4 * (last - first + 1)) as usize,
                },
            )
            &&& after.cursor_pos == range.end + 4 * (last - first + 1)
        }),
{
    cursor_movement::lemma_key_names();
    let bytes = before.bytes();
    let range = before.selection_range->0;
    let starts = conflict_document::edited_lines(before);
    assert(conflict_document::selects_lines(before));
    lemma_selected_lines(before);
    lemma_indented_document(before, after, parse);
    lemma_indented_len(bytes, starts);
    lemma_lines_begun(bytes, starts, offset);
    lemma_line_start_number(bytes, range.start as int);
    let end = if bytes[range.end - 1] == NEWLINE {
        range.end - 1
    } else {
        range.end as int
    };
    lemma_line_start_number(bytes, end);
    let first = text::newline_count(bytes, range.start as int) as int;
    let last = text::newline_count(bytes, range.end - 1) as int;
    let line = text::newline_count(bytes, offset) as int;
    assert(text::newline_count(bytes, end) == last);
    if offset < bytes.len() {
        lemma_shifted_byte(bytes, starts, offset);
    }
    if first <= line <= last && (offset == 0 || bytes[offset - 1] == NEWLINE) {
        let k = line - first;
        let start = starts[k];
        if start < offset {
            cursor_movement::lemma_count_rises(bytes, start, offset - 1);
        } else if offset < start {
            cursor_movement::lemma_count_rises(bytes, offset, start - 1);
        }
        assert(starts[k] == offset);
        lemma_inserted_bytes(bytes, starts, k, 0);
        lemma_inserted_bytes(bytes, starts, k, 1);
        lemma_inserted_bytes(bytes, starts, k, 2);
        lemma_inserted_bytes(bytes, starts, k, 3);
        assert(after.bytes().subrange(offset + 4 * k, offset + 4 * k + 4) =~= seq![
            SPACE,
            SPACE,
            SPACE,
            SPACE,
        ]);
    }
    encode_utf8_valid_utf8(after.raw_text@);
    text::lemma_floor_boundary(after.bytes(), shifted(starts, range.end as int));
}

} // verus!
