//! The styled runs of a shown diff line: syntax colours, changed stretches and the selection.

use crate::diff_text;
use crate::model::HighlightedSpan;
use crate::text;
use crate::text::ByteRange;
use vstd::prelude::*;
use vstd::utf8::*;

verus! {

/// How many bytes a raw byte is shown with: eight for a tab, two for a space.
pub open spec fn display_width(byte: u8) -> nat {
    if byte == text::TAB {
        8
    } else if byte == text::SPACE {
        2
    } else {
        1
    }
}

/// How many bytes the first `end` raw bytes are shown with.
pub open spec fn display_offset(bytes: Seq<u8>, end: int) -> nat
    decreases end,
{
    if end <= 0 {
        0
    } else {
        display_offset(bytes, end - 1) + display_width(bytes[end - 1])
    }
}

/// A range ends at an offset in the middle of a character, at or before `offset`.
pub open spec fn blocked(bytes: Seq<u8>, ranges: Seq<ByteRange>, offset: int) -> bool {
    exists|i: int|
        0 <= i < ranges.len() && (((#[trigger] ranges[i]).start <= offset && !text::is_boundary(
            bytes,
            ranges[i].start as int,
        )) || (ranges[i].end <= offset && !text::is_boundary(bytes, ranges[i].end as int)))
}

/// Where a raw offset is shown. Offsets past the end go to the end, and so does everything from
/// the first offset on that cuts a character in two.
pub open spec fn mapped_offset(bytes: Seq<u8>, ranges: Seq<ByteRange>, offset: int) -> nat {
    if offset >= bytes.len() || blocked(bytes, ranges, offset) {
        display_offset(bytes, bytes.len() as int)
    } else {
        display_offset(bytes, offset)
    }
}

proof fn lemma_display_offset_concat(a: Seq<u8>, b: Seq<u8>, end: int)
    requires
        0 <= end <= b.len(),
    ensures
        display_offset(a + b, a.len() + end) == display_offset(a, a.len() as int) + display_offset(
            b,
            end,
        ),
    decreases end,
{
    if end <= 0 {
        lemma_display_offset_prefix(a, b, a.len() as int);
    } else {
        lemma_display_offset_concat(a, b, end - 1);
    }
}

proof fn lemma_display_offset_prefix(a: Seq<u8>, b: Seq<u8>, end: int)
    requires
        0 <= end <= a.len(),
    ensures
        display_offset(a + b, end) == display_offset(a, end),
    decreases end,
{
    if end > 0 {
        lemma_display_offset_prefix(a, b, end - 1);
    }
}

proof fn lemma_display_offset_plain(bytes: Seq<u8>, end: int)
    requires
        0 <= end <= bytes.len(),
        forall|i: int| 0 <= i < end ==> display_width(#[trigger] bytes[i]) == 1,
    ensures
        display_offset(bytes, end) == end,
    decreases end,
{
    if end > 0 {
        lemma_display_offset_plain(bytes, end - 1);
    }
}

pub proof fn lemma_display_offset_monotone(bytes: Seq<u8>, a: int, b: int)
    requires
        a <= b,
    ensures
        display_offset(bytes, a) <= display_offset(bytes, b),
    decreases b,
{
    if a < b && b > 0 {
        lemma_display_offset_monotone(bytes, a, b - 1);
    }
}

/// A character is shown with as many bytes as its raw bytes count for.
proof fn lemma_char_width(ch: char)
    ensures
        display_offset(encode_scalar(ch as u32), encode_scalar(ch as u32).len() as int)
            == text::bytes_of(diff_text::rendered_char(ch)).len(),
{
    let code = encode_scalar(ch as u32);
    char_is_scalar(ch);
    assert(seq![ch].drop_first() =~= Seq::<char>::empty());
    reveal_with_fuel(encode_utf8, 5);
    assert(text::bytes_of(seq![ch]) =~= code);
    if ch == '\t' || ch == ' ' {
        let one = ch as u32;
        assert(leading_byte_width_1(one) == one) by (bit_vector)
            requires
                one == 9u32 || one == 32u32,
        ;
        assert(code =~= seq![one as u8]);
        reveal_with_fuel(display_offset, 2);
        let nbsp = diff_text::NBSP;
        char_is_scalar(nbsp);
        let wide = encode_scalar(nbsp as u32);
        assert(wide.len() == 2);
        assert(seq![nbsp].drop_first() =~= Seq::<char>::empty());
        assert(text::bytes_of(seq![nbsp]) =~= wide);
        let two = seq![nbsp] + seq![nbsp];
        let four = two + two;
        text::lemma_bytes_concat(seq![nbsp], seq![nbsp]);
        text::lemma_bytes_concat(two, two);
        assert(four =~= seq![nbsp, nbsp, nbsp, nbsp]);
    } else {
        lemma_encoding_is_plain(ch);
        lemma_display_offset_plain(code, code.len() as int);
    }
}

/// Only a tab and a space have bytes that are shown wider.
proof fn lemma_encoding_is_plain(ch: char)
    requires
        ch != '\t',
        ch != ' ',
    ensures
        forall|i: int|
            0 <= i < encode_scalar(ch as u32).len() ==> display_width(
                #[trigger] encode_scalar(ch as u32)[i],
            ) == 1,
{
    let v = ch as u32;
    char_is_scalar(ch);
    if has_width_1_encoding(v) {
        assert(leading_byte_width_1(v) == v) by (bit_vector)
            requires
                v <= 0x7fu32,
        ;
    } else {
        assert(leading_byte_width_2(v) >= 0x80 && leading_byte_width_3(v) >= 0x80
            && leading_byte_width_4(v) >= 0x80 && last_continuation_byte(v) >= 0x80
            && second_last_continuation_byte(v) >= 0x80 && third_last_continuation_byte(v) >= 0x80)
            by (bit_vector);
    }
}

/// A text is shown with as many bytes as its raw bytes count for.
pub proof fn lemma_rendered_width(chars: Seq<char>)
    ensures
        text::bytes_of(diff_text::rendered(chars)).len() == display_offset(
            text::bytes_of(chars),
            text::bytes_of(chars).len() as int,
        ),
    decreases chars.len(),
{
    if chars.len() > 0 {
        let rest = chars.drop_last();
        let ch = chars.last();
        lemma_rendered_width(rest);
        assert(chars =~= rest + seq![ch]);
        text::lemma_bytes_concat(rest, seq![ch]);
        assert(seq![ch].drop_first() =~= Seq::<char>::empty());
        reveal_with_fuel(encode_utf8, 2);
        let code = encode_scalar(ch as u32);
        assert(text::bytes_of(seq![ch]) =~= code);
        lemma_display_offset_concat(text::bytes_of(rest), code, code.len() as int);
        lemma_char_width(ch);
        text::lemma_bytes_concat(diff_text::rendered(rest), diff_text::rendered_char(ch));
    }
}

/// Maps byte ranges of a raw line to byte ranges of the line as it is shown.
pub fn map_raw_to_display_ranges(raw: &str, ranges: &Vec<ByteRange>) -> (mapped: Vec<ByteRange>)
    ensures
        mapped@.len() == ranges@.len(),
        forall|i: int|
            #![trigger mapped@[i]]
            0 <= i < mapped@.len() ==> {
                let bytes = text::bytes_of(diff_text::without_line_end(raw@));
                &&& mapped@[i].start == mapped_offset(bytes, ranges@, ranges@[i].start as int)
                &&& mapped@[i].end == mapped_offset(bytes, ranges@, ranges@[i].end as int)
            },
{
    let trimmed = diff_text::trim_line_end(raw);
    let bytes = trimmed.as_bytes();
    let len = bytes.len();
    let shown = diff_text::render_diff_text_string(raw);
    let total = text::byte_len(shown.as_str());
    proof {
        encode_utf8_valid_utf8(trimmed@);
        lemma_rendered_width(trimmed@);
    }
    // The shown offset of every raw offset.
    let mut table: Vec<usize> = Vec::new();
    table.push(0);
    let mut at: usize = 0;
    while at < len
        invariant
            at <= len,
            len == bytes@.len(),
            total == display_offset(bytes@, len as int),
            table@.len() == at + 1,
            forall|j: int| 0 <= j <= at ==> table@[j] == display_offset(bytes@, j),
        decreases len - at,
    {
        proof {
            lemma_display_offset_monotone(bytes@, at + 1, len as int);
        }
        let width: usize = if bytes[at] == text::TAB {
            8
        } else if bytes[at] == text::SPACE {
            2
        } else {
            1
        };
        let next: usize = table[at] + width;
        table.push(next);
        at = at + 1;
    }
    // The first offset that cuts a character in two.
    let mut cut: Option<usize> = None;
    let mut i: usize = 0;
    while i < ranges.len()
        invariant
            i <= ranges@.len(),
            bytes@ == text::bytes_of(trimmed@),
            len == bytes@.len(),
            valid_utf8(bytes@),
            forall|offset: int|
                0 <= offset < len ==> (#[trigger] blocked(
                    bytes@,
                    ranges@.take(i as int),
                    offset,
                ) == (cut is Some && cut->0 <= offset)),
        decreases ranges@.len() - i,
    {
        let range = ranges[i];
        let ghost before = cut;
        cut = earlier_cut(trimmed, cut, range.start);
        cut = earlier_cut(trimmed, cut, range.end);
        proof {
            let shorter = ranges@.take(i as int);
            let longer = ranges@.take(i + 1);
            assert forall|offset: int| 0 <= offset < len implies (#[trigger] blocked(
                bytes@,
                longer,
                offset,
            ) == (cut is Some && cut->0 <= offset)) by {
                assert(blocked(bytes@, shorter, offset) == (before is Some && before->0 <= offset));
                assert(longer[i as int] == range);
                if blocked(bytes@, shorter, offset) {
                    let k = choose|k: int|
                        0 <= k < shorter.len() && (((#[trigger] shorter[k]).start <= offset
                            && !text::is_boundary(bytes@, shorter[k].start as int)) || (
                        shorter[k].end <= offset && !text::is_boundary(
                            bytes@,
                            shorter[k].end as int,
                        )));
                    assert(longer[k] == shorter[k]);
                    assert(blocked(bytes@, longer, offset));
                }
                if blocked(bytes@, longer, offset) && !blocked(bytes@, shorter, offset) {
                    let k = choose|k: int|
                        0 <= k < longer.len() && (((#[trigger] longer[k]).start <= offset
                            && !text::is_boundary(bytes@, longer[k].start as int)) || (
                        longer[k].end <= offset && !text::is_boundary(
                            bytes@,
                            longer[k].end as int,
                        )));
                    if k < i {
                        assert(shorter[k] == longer[k]);
                        assert(false);
                    }
                }
            }
        }
        i = i + 1;
    }
    assert(ranges@.take(i as int) =~= ranges@);
    let mut mapped: Vec<ByteRange> = Vec::new();
    let mut k: usize = 0;
    while k < ranges.len()
        invariant
            k <= ranges@.len(),
            len == bytes@.len(),
            bytes@ == text::bytes_of(diff_text::without_line_end(raw@)),
            total == display_offset(bytes@, len as int),
            table@.len() == len + 1,
            forall|j: int| 0 <= j <= len ==> table@[j] == display_offset(bytes@, j),
            forall|offset: int|
                0 <= offset < len ==> (#[trigger] blocked(bytes@, ranges@, offset) == (cut is Some
                    && cut->0 <= offset)),
            mapped@.len() == k,
            forall|i: int|
                #![trigger mapped@[i]]
                0 <= i < mapped@.len() ==> {
                    &&& mapped@[i].start == mapped_offset(bytes@, ranges@, ranges@[i].start as int)
                    &&& mapped@[i].end == mapped_offset(bytes@, ranges@, ranges@[i].end as int)
                },
        decreases ranges@.len() - k,
    {
        let range = ranges[k];
        let start: usize = if range.start >= len || passed(cut, range.start) {
            total
        } else {
            table[range.start]
        };
        let end: usize = if range.end >= len || passed(cut, range.end) {
            total
        } else {
            table[range.end]
        };
        mapped.push(ByteRange { start, end });
        k = k + 1;
    }
    mapped
}

/// The smaller of a cut and an offset that cuts a character in two.
fn earlier_cut(trimmed: &str, cut: Option<usize>, offset: usize) -> (result: Option<usize>)
    ensures
        result == if offset < text::bytes_of(trimmed@).len() && !text::is_boundary(
            text::bytes_of(trimmed@),
            offset as int,
        ) && !(cut is Some && cut->0 <= offset) {
            Some(offset)
        } else {
            cut
        },
{
    proof {
        encode_utf8_valid_utf8(trimmed@);
        text::lemma_boundary(text::bytes_of(trimmed@), offset as int);
    }
    if offset < text::byte_len(trimmed) && !trimmed.is_char_boundary(offset) && !passed(
        cut,
        offset,
    ) {
        Some(offset)
    } else {
        cut
    }
}

/// Whether an offset lies at or behind a cut.
fn passed(cut: Option<usize>, offset: usize) -> (passed: bool)
    ensures
        passed == (cut is Some && cut->0 <= offset),
{
    match cut {
        Some(at) => at <= offset,
        None => false,
    }
}

/// The range orders before or with the other: by start, then by end.
pub open spec fn range_le(a: ByteRange, b: ByteRange) -> bool {
    a.start < b.start || (a.start == b.start && a.end <= b.end)
}

/// A range put into an ordered list, behind all that do not order after it.
pub open spec fn insert_range(ranges: Seq<ByteRange>, range: ByteRange) -> Seq<ByteRange>
    decreases ranges.len(),
{
    if ranges.len() == 0 || range_le(ranges.last(), range) {
        ranges.push(range)
    } else {
        insert_range(ranges.drop_last(), range).push(ranges.last())
    }
}

/// The ranges moved outward to character boundaries, without those that are empty, in order.
pub open spec fn ordered_ranges(bytes: Seq<u8>, ranges: Seq<ByteRange>) -> Seq<ByteRange>
    decreases ranges.len(),
{
    if ranges.len() == 0 {
        Seq::empty()
    } else {
        let before = ordered_ranges(bytes, ranges.drop_last());
        let start = text::floor_boundary(bytes, ranges.last().start as int);
        let end = text::ceil_boundary(
            bytes,
            diff_text::least(ranges.last().end as int, bytes.len() as int),
        );
        if start < end {
            insert_range(before, ByteRange { start: start as usize, end: end as usize })
        } else {
            before
        }
    }
}

/// An ordered list of ranges with those that overlap merged. Ranges that only touch stay apart.
pub open spec fn merged_ranges(ranges: Seq<ByteRange>) -> Seq<ByteRange>
    decreases ranges.len(),
{
    if ranges.len() == 0 {
        Seq::empty()
    } else {
        let before = merged_ranges(ranges.drop_last());
        let range = ranges.last();
        if before.len() > 0 && range.start < before.last().end {
            before.drop_last().push(
                ByteRange {
                    start: before.last().start,
                    end: if before.last().end >= range.end {
                        before.last().end
                    } else {
                        range.end
                    },
                },
            )
        } else {
            before.push(range)
        }
    }
}

/// Ranges of a shown text, normalized.
pub open spec fn normalized_ranges(bytes: Seq<u8>, ranges: Seq<ByteRange>) -> Seq<ByteRange> {
    merged_ranges(ordered_ranges(bytes, ranges))
}

/// The ranges are not empty, lie in the text at character boundaries, and follow one another
/// without overlap.
pub open spec fn ranges_in_order(bytes: Seq<u8>, ranges: Seq<ByteRange>) -> bool {
    &&& forall|i: int|
        #![trigger ranges[i]]
        0 <= i < ranges.len() ==> ranges[i].start < ranges[i].end && text::valid_range(
            bytes,
            ranges[i],
        )
    &&& forall|i: int, j: int|
        0 <= i < j < ranges.len() ==> (#[trigger] ranges[i]).end <= (#[trigger] ranges[j]).start
}

/// An offset lies in one of the ranges.
pub open spec fn covered(ranges: Seq<ByteRange>, offset: int) -> bool {
    exists|i: int| 0 <= i < ranges.len() && (#[trigger] ranges[i]).start <= offset < ranges[i].end
}

/// The ranges are sound and sorted by start and end.
spec fn sorted_sound(bytes: Seq<u8>, ranges: Seq<ByteRange>) -> bool {
    &&& forall|i: int|
        #![trigger ranges[i]]
        0 <= i < ranges.len() ==> ranges[i].start < ranges[i].end && text::valid_range(
            bytes,
            ranges[i],
        )
    &&& forall|i: int, j: int|
        0 <= i < j < ranges.len() ==> range_le(#[trigger] ranges[i], #[trigger] ranges[j])
}

proof fn lemma_insert_range(bytes: Seq<u8>, ranges: Seq<ByteRange>, range: ByteRange)
    requires
        sorted_sound(bytes, ranges),
        range.start < range.end,
        text::valid_range(bytes, range),
    ensures
        sorted_sound(bytes, insert_range(ranges, range)),
        insert_range(ranges, range).len() == ranges.len() + 1,
        forall|i: int|
            0 <= i < ranges.len() + 1 ==> #[trigger] insert_range(ranges, range)[i] == range
                || ranges.contains(insert_range(ranges, range)[i]),
        forall|offset: int|
            #[trigger] covered(insert_range(ranges, range), offset) == (covered(ranges, offset) || (
            range.start <= offset < range.end)),
    decreases ranges.len(),
{
    let out = insert_range(ranges, range);
    if ranges.len() == 0 || range_le(ranges.last(), range) {
        assert forall|i: int, j: int| 0 <= i < j < out.len() implies range_le(
            #[trigger] out[i],
            #[trigger] out[j],
        ) by {
            if j == ranges.len() {
                assert(range_le(ranges[i], ranges.last()) || i == ranges.len() - 1);
            }
        }
        assert forall|offset: int| #[trigger] covered(out, offset) == (covered(ranges, offset) || (
        range.start <= offset < range.end)) by {
            if covered(ranges, offset) {
                let k = choose|k: int|
                    0 <= k < ranges.len() && (#[trigger] ranges[k]).start <= offset
                        < ranges[k].end;
                assert(out[k] == ranges[k]);
            }
            if range.start <= offset < range.end {
                assert(out[ranges.len() as int] == range);
            }
            if covered(out, offset) {
                let k = choose|k: int|
                    0 <= k < out.len() && (#[trigger] out[k]).start <= offset < out[k].end;
                if k < ranges.len() {
                    assert(ranges[k] == out[k]);
                }
            }
        }
    } else {
        let rest = ranges.drop_last();
        lemma_insert_range(bytes, rest, range);
        let inner = insert_range(rest, range);
        assert(out =~= inner.push(ranges.last()));
        assert forall|i: int, j: int| 0 <= i < j < out.len() implies range_le(
            #[trigger] out[i],
            #[trigger] out[j],
        ) by {
            if j < inner.len() {
                assert(out[i] == inner[i] && out[j] == inner[j]);
            } else {
                assert(out[i] == inner[i]);
                if inner[i] != range {
                    let k = choose|k: int| 0 <= k < rest.len() && rest[k] == inner[i];
                    assert(range_le(ranges[k], ranges[ranges.len() - 1]));
                }
            }
        }
        assert forall|i: int| 0 <= i < out.len() implies #[trigger] out[i] == range
            || ranges.contains(out[i]) by {
            if i < inner.len() {
                if inner[i] != range {
                    let k = choose|k: int| 0 <= k < rest.len() && rest[k] == inner[i];
                    assert(ranges[k] == rest[k]);
                }
            } else {
                assert(ranges[ranges.len() - 1] == out[i]);
            }
        }
        assert forall|i: int| 0 <= i < out.len() implies (#[trigger] out[i]).start < out[i].end
            && text::valid_range(bytes, out[i]) by {
            if i < inner.len() {
                assert(out[i] == inner[i]);
            } else {
                assert(out[i] == ranges[ranges.len() - 1]);
            }
        }
        assert forall|offset: int| #[trigger] covered(out, offset) == (covered(ranges, offset) || (
        range.start <= offset < range.end)) by {
            let last = ranges.last();
            assert(covered(inner, offset) == (covered(rest, offset) || (range.start <= offset
                < range.end)));
            if covered(out, offset) {
                let k = choose|k: int|
                    0 <= k < out.len() && (#[trigger] out[k]).start <= offset < out[k].end;
                if k < inner.len() {
                    assert(inner[k] == out[k]);
                    assert(covered(inner, offset));
                    if covered(rest, offset) {
                        let m = choose|m: int|
                            0 <= m < rest.len() && (#[trigger] rest[m]).start <= offset
                                < rest[m].end;
                        assert(ranges[m] == rest[m]);
                    }
                } else {
                    assert(ranges[ranges.len() - 1] == out[k]);
                }
            }
            if covered(ranges, offset) {
                let k = choose|k: int|
                    0 <= k < ranges.len() && (#[trigger] ranges[k]).start <= offset
                        < ranges[k].end;
                if k < rest.len() {
                    assert(rest[k] == ranges[k]);
                    assert(covered(inner, offset));
                    let m = choose|m: int|
                        0 <= m < inner.len() && (#[trigger] inner[m]).start <= offset
                            < inner[m].end;
                    assert(out[m] == inner[m]);
                } else {
                    assert(out[inner.len() as int] == ranges[k]);
                }
            }
            if range.start <= offset < range.end {
                assert(covered(inner, offset));
                let m = choose|m: int|
                    0 <= m < inner.len() && (#[trigger] inner[m]).start <= offset < inner[m].end;
                assert(out[m] == inner[m]);
            }
        }
    }
}

/// Merging keeps the ranges in order and what they cover.
proof fn lemma_merged_ranges(bytes: Seq<u8>, ranges: Seq<ByteRange>)
    requires
        sorted_sound(bytes, ranges),
    ensures
        ranges_in_order(bytes, merged_ranges(ranges)),
        ranges.len() > 0 ==> merged_ranges(ranges).len() > 0 && merged_ranges(ranges).last().start
            <= ranges.last().start,
        forall|offset: int|
            #[trigger] covered(merged_ranges(ranges), offset) == covered(ranges, offset),
    decreases ranges.len(),
{
    let out = merged_ranges(ranges);
    if ranges.len() > 0 {
        let rest = ranges.drop_last();
        let range = ranges.last();
        assert(ranges[ranges.len() - 1] == range);
        assert forall|i: int, j: int| 0 <= i < j < rest.len() implies range_le(
            #[trigger] rest[i],
            #[trigger] rest[j],
        ) by {
            assert(range_le(ranges[i], ranges[j]));
        }
        lemma_merged_ranges(bytes, rest);
        let before = merged_ranges(rest);
        if rest.len() > 0 {
            assert(range_le(ranges[rest.len() - 1], ranges[ranges.len() - 1]));
        }
        let merges = before.len() > 0 && range.start < before.last().end;
        assert forall|i: int| 0 <= i < out.len() implies (#[trigger] out[i]).start < out[i].end
            && text::valid_range(bytes, out[i]) by {
            if i < before.len() {
                assert(before[i].start < before[i].end);
            }
            if merges {
                assert(text::valid_range(bytes, before[before.len() - 1]));
            }
        }
        assert forall|i: int, j: int| 0 <= i < j < out.len() implies (#[trigger] out[i]).end <= (
        #[trigger] out[j]).start by {
            if j < before.len() {
                assert(before[i].end <= before[j].start);
            } else {
                if i < before.len() - 1 {
                    assert(before[i].end <= before[before.len() - 1].start);
                }
                assert(before[before.len() - 1].start < before[before.len() - 1].end);
            }
        }
        assert forall|offset: int| #[trigger] covered(out, offset) == covered(ranges, offset) by {
            assert(covered(before, offset) == covered(rest, offset));
            if covered(ranges, offset) {
                let k = choose|k: int|
                    0 <= k < ranges.len() && (#[trigger] ranges[k]).start <= offset
                        < ranges[k].end;
                if k < rest.len() {
                    assert(rest[k] == ranges[k]);
                    assert(covered(before, offset));
                    let m = choose|m: int|
                        0 <= m < before.len() && (#[trigger] before[m]).start <= offset
                            < before[m].end;
                    assert(out[m].start <= offset < out[m].end);
                } else {
                    assert(out[out.len() - 1].start <= offset < out[out.len() - 1].end);
                }
            }
            if covered(out, offset) {
                let k = choose|k: int|
                    0 <= k < out.len() && (#[trigger] out[k]).start <= offset < out[k].end;
                if k < before.len() && before[k].start <= offset < before[k].end {
                    assert(covered(before, offset));
                    let m = choose|m: int|
                        0 <= m < rest.len() && (#[trigger] rest[m]).start <= offset
                            < rest[m].end;
                    assert(ranges[m] == rest[m]);
                } else {
                    assert(ranges[ranges.len() - 1].start <= offset < ranges[ranges.len()
                        - 1].end);
                }
            }
        }
    }
}

proof fn lemma_ordered_ranges(chars: Seq<char>, ranges: Seq<ByteRange>)
    requires
        text::bytes_of(chars).len() <= usize::MAX,
    ensures
        sorted_sound(text::bytes_of(chars), ordered_ranges(text::bytes_of(chars), ranges)),
    decreases ranges.len(),
{
    let bytes = text::bytes_of(chars);
    encode_utf8_valid_utf8(chars);
    if ranges.len() > 0 {
        lemma_ordered_ranges(chars, ranges.drop_last());
        let start = text::floor_boundary(bytes, ranges.last().start as int);
        let limit = diff_text::least(ranges.last().end as int, bytes.len() as int);
        let end = text::ceil_boundary(bytes, limit);
        text::lemma_floor_boundary(bytes, ranges.last().start as int);
        lemma_ceil_boundary(bytes, limit);
        if start < end {
            lemma_insert_range(
                bytes,
                ordered_ranges(bytes, ranges.drop_last()),
                ByteRange { start: start as usize, end: end as usize },
            );
        }
    }
}

proof fn lemma_ceil_boundary(bytes: Seq<u8>, offset: int)
    ensures
        text::is_boundary(bytes, text::ceil_boundary(bytes, offset)) || offset < 0,
        text::ceil_boundary(bytes, offset) <= bytes.len(),
    decreases bytes.len() - offset,
{
    if offset >= bytes.len() || text::is_boundary(bytes, offset) {
    } else {
        lemma_ceil_boundary(bytes, offset + 1);
    }
}

/// Puts a range into an ordered list.
fn insert_in_order(ranges: &mut Vec<ByteRange>, range: ByteRange)
    ensures
        final(ranges)@ == insert_range(old(ranges)@, range),
    decreases old(ranges)@.len(),
{
    let len = ranges.len();
    if len == 0 {
        ranges.push(range);
        return ;
    }
    let last = ranges[len - 1];
    if last.start < range.start || (last.start == range.start && last.end <= range.end) {
        ranges.push(range);
    } else {
        let ghost before = ranges@;
        ranges.pop();
        assert(ranges@ =~= before.drop_last());
        insert_in_order(ranges, range);
        ranges.push(last);
    }
}

/// Ranges of a shown text moved outward to character boundaries, without empty ones, in order,
/// and with those that overlap merged.
pub fn normalize_display_ranges(shown: &str, ranges: &Vec<ByteRange>) -> (merged: Vec<ByteRange>)
    ensures
        merged@ == normalized_ranges(text::bytes_of(shown@), ranges@),
        ranges_in_order(text::bytes_of(shown@), merged@),
{
    let len = text::byte_len(shown);
    let mut ordered: Vec<ByteRange> = Vec::new();
    let mut i: usize = 0;
    while i < ranges.len()
        invariant
            i <= ranges@.len(),
            len == text::bytes_of(shown@).len(),
            ordered@ == ordered_ranges(text::bytes_of(shown@), ranges@.take(i as int)),
        decreases ranges@.len() - i,
    {
        let range = ranges[i];
        let limit: usize = if range.end <= len {
            range.end
        } else {
            len
        };
        let start = text::clamp_offset_to_char_boundary(shown, range.start);
        let end = text::ceil_offset_to_char_boundary(shown, limit);
        if start < end {
            insert_in_order(&mut ordered, ByteRange { start, end });
        }
        assert(ranges@.take(i + 1).drop_last() =~= ranges@.take(i as int));
        i = i + 1;
    }
    assert(ranges@.take(i as int) =~= ranges@);
    let mut merged: Vec<ByteRange> = Vec::new();
    let mut k: usize = 0;
    while k < ordered.len()
        invariant
            k <= ordered@.len(),
            merged@ == merged_ranges(ordered@.take(k as int)),
        decreases ordered@.len() - k,
    {
        let range = ordered[k];
        let ghost before = merged@;
        let count = merged.len();
        if count > 0 && range.start < merged[count - 1].end {
            let last = merged[count - 1];
            let end: usize = if last.end >= range.end {
                last.end
            } else {
                range.end
            };
            merged.pop();
            merged.push(ByteRange { start: last.start, end });
            assert(merged@ =~= before.drop_last().push(ByteRange { start: last.start, end }));
        } else {
            merged.push(range);
        }
        assert(ordered@.take(k + 1).drop_last() =~= ordered@.take(k as int));
        k = k + 1;
    }
    assert(ordered@.take(k as int) =~= ordered@);
    proof {
        lemma_ordered_ranges(shown@, ranges@);
        lemma_merged_ranges(text::bytes_of(shown@), ordered@);
    }
    merged
}

/// Whether an offset lies in one of the ranges.
pub fn in_any_range(pos: usize, ranges: &Vec<ByteRange>) -> (inside: bool)
    ensures
        inside == covered(ranges@, pos as int),
{
    let mut i: usize = 0;
    while i < ranges.len()
        invariant
            i <= ranges@.len(),
            forall|k: int|
                0 <= k < i ==> !((#[trigger] ranges@[k]).start <= pos < ranges@[k].end),
        decreases ranges@.len() - i,
    {
        if pos >= ranges[i].start && pos < ranges[i].end {
            assert(ranges@[i as int].start <= pos < ranges@[i as int].end);
            return true;
        }
        i = i + 1;
    }
    false
}

/// An offset lies in one of the ranges as they are after being moved to character boundaries.
pub open spec fn covered_widened(bytes: Seq<u8>, ranges: Seq<ByteRange>, offset: int) -> bool {
    exists|i: int|
        0 <= i < ranges.len() && text::floor_boundary(bytes, (#[trigger] ranges[i]).start as int)
            <= offset < text::ceil_boundary(
            bytes,
            diff_text::least(ranges[i].end as int, bytes.len() as int),
        )
}

proof fn lemma_ordered_cover(chars: Seq<char>, ranges: Seq<ByteRange>, offset: int)
    requires
        text::bytes_of(chars).len() <= usize::MAX,
    ensures
        covered(ordered_ranges(text::bytes_of(chars), ranges), offset) == covered_widened(
            text::bytes_of(chars),
            ranges,
            offset,
        ),
    decreases ranges.len(),
{
    let bytes = text::bytes_of(chars);
    encode_utf8_valid_utf8(chars);
    if ranges.len() > 0 {
        let rest = ranges.drop_last();
        lemma_ordered_ranges(chars, rest);
        lemma_ordered_cover(chars, rest, offset);
        let start = text::floor_boundary(bytes, ranges.last().start as int);
        let limit = diff_text::least(ranges.last().end as int, bytes.len() as int);
        let end = text::ceil_boundary(bytes, limit);
        text::lemma_floor_boundary(bytes, ranges.last().start as int);
        lemma_ceil_boundary(bytes, limit);
        if start < end {
            let range = ByteRange { start: start as usize, end: end as usize };
            lemma_insert_range(bytes, ordered_ranges(bytes, rest), range);
            assert(covered(insert_range(ordered_ranges(bytes, rest), range), offset) == (covered(
                ordered_ranges(bytes, rest),
                offset,
            ) || start <= offset < end));
        }
        assert(ranges[ranges.len() - 1] == ranges.last());
        if covered_widened(bytes, rest, offset) {
            let k = choose|k: int|
                0 <= k < rest.len() && text::floor_boundary(
                    bytes,
                    (#[trigger] rest[k]).start as int,
                ) <= offset < text::ceil_boundary(
                    bytes,
                    diff_text::least(rest[k].end as int, bytes.len() as int),
                );
            assert(ranges[k] == rest[k]);
            assert(covered_widened(bytes, ranges, offset));
        }
        if covered_widened(bytes, ranges, offset) && !(start <= offset < end) {
            let k = choose|k: int|
                0 <= k < ranges.len() && text::floor_boundary(
                    bytes,
                    (#[trigger] ranges[k]).start as int,
                ) <= offset < text::ceil_boundary(
                    bytes,
                    diff_text::least(ranges[k].end as int, bytes.len() as int),
                );
            assert(rest[k] == ranges[k]);
            assert(covered_widened(bytes, rest, offset));
        }
    }
}

/// Normalizing ranges keeps what they cover: a byte lies in a normalized range exactly where it
/// lies in one of the given ranges, widened to whole characters.
pub proof fn normalized_ranges_cover_the_same_text(
    chars: Seq<char>,
    ranges: Seq<ByteRange>,
    offset: int,
)
    requires
        text::bytes_of(chars).len() <= usize::MAX,
    ensures
        covered(normalized_ranges(text::bytes_of(chars), ranges), offset) == covered_widened(
            text::bytes_of(chars),
            ranges,
            offset,
        ),
        ranges_in_order(text::bytes_of(chars), normalized_ranges(text::bytes_of(chars), ranges)),
{
    let bytes = text::bytes_of(chars);
    lemma_ordered_ranges(chars, ranges);
    lemma_ordered_cover(chars, ranges, offset);
    lemma_merged_ranges(bytes, ordered_ranges(bytes, ranges));
    assert(covered(merged_ranges(ordered_ranges(bytes, ranges)), offset) == covered(
        ordered_ranges(bytes, ranges),
        offset,
    ));
}

/// Ranges that are in order already are neither moved nor merged.
proof fn lemma_in_order_stays(chars: Seq<char>, ranges: Seq<ByteRange>)
    requires
        ranges_in_order(text::bytes_of(chars), ranges),
    ensures
        ordered_ranges(text::bytes_of(chars), ranges) == ranges,
        merged_ranges(ranges) == ranges,
    decreases ranges.len(),
{
    let bytes = text::bytes_of(chars);
    encode_utf8_valid_utf8(chars);
    if ranges.len() > 0 {
        let rest = ranges.drop_last();
        let range = ranges[ranges.len() - 1];
        assert(ranges_in_order(bytes, rest)) by {
            assert forall|i: int, j: int| 0 <= i < j < rest.len() implies (#[trigger] rest[i]).end
                <= (#[trigger] rest[j]).start by {
                assert(ranges[i].end <= ranges[j].start);
            }
        }
        lemma_in_order_stays(chars, rest);
        text::lemma_floor_boundary(bytes, range.start as int);
        assert(text::valid_range(bytes, range));
        assert(text::ceil_boundary(bytes, range.end as int) == range.end);
        if rest.len() > 0 {
            let last = ranges[rest.len() - 1];
            assert(rest.last() == last);
            assert(last.start < last.end);
            assert(last.end <= range.start);
        }
        assert(rest.push(range) =~= ranges);
    }
}

/// Normalizing ranges a second time changes nothing.
pub proof fn normalizing_ranges_again_changes_nothing(chars: Seq<char>, ranges: Seq<ByteRange>)
    requires
        text::bytes_of(chars).len() <= usize::MAX,
    ensures
        normalized_ranges(
            text::bytes_of(chars),
            normalized_ranges(text::bytes_of(chars), ranges),
        ) == normalized_ranges(text::bytes_of(chars), ranges),
{
    let bytes = text::bytes_of(chars);
    lemma_ordered_ranges(chars, ranges);
    lemma_merged_ranges(bytes, ordered_ranges(bytes, ranges));
    lemma_in_order_stays(chars, normalized_ranges(bytes, ranges));
}

/// Why a run has a background of its own.
#[derive(Clone, Copy, Debug, PartialEq, Eq, Structural)]
pub enum RunBackground {
    Selection,
    InlineChange,
}

/// A stretch of a shown line with one style: the syntax colour of its text, if any, and its
/// background, if any.
#[derive(Clone, Copy, Debug, PartialEq, Eq, Structural)]
pub struct StyledRun {
    pub start: usize,
    pub end: usize,
    pub color: Option<u32>,
    pub background: Option<RunBackground>,
}

/// The runs are not empty, lie in a text of the given length, and follow one another without
/// overlap.
pub open spec fn runs_in_order(runs: Seq<StyledRun>, len: int) -> bool {
    &&& forall|i: int|
        0 <= i < runs.len() ==> (#[trigger] runs[i]).start < runs[i].end <= len
    &&& forall|i: int, j: int|
        0 <= i < j < runs.len() ==> (#[trigger] runs[i]).end <= (#[trigger] runs[j]).start
}

/// The number of bytes of the first spans.
pub open spec fn spans_len(spans: Seq<HighlightedSpan>) -> nat {
    text::bytes_of(diff_text::span_text(spans)).len()
}

/// The background at an offset: the selection's where it is selected, or else that of a changed
/// stretch.
pub open spec fn background_at(
    selection: Option<ByteRange>,
    inline: Seq<ByteRange>,
    offset: int,
) -> Option<RunBackground> {
    if selection matches Some(range) && range.start <= offset < range.end {
        Some(RunBackground::Selection)
    } else if covered(inline, offset) {
        Some(RunBackground::InlineChange)
    } else {
        None
    }
}

/// An end of the selection or of a changed stretch.
pub open spec fn is_cut(selection: Option<ByteRange>, inline: Seq<ByteRange>, offset: int) -> bool {
    ||| selection matches Some(range) && (range.start == offset || range.end == offset)
    ||| exists|i: int|
        0 <= i < inline.len() && ((#[trigger] inline[i]).start == offset || inline[i].end
            == offset)
}

/// The next cut behind an offset, or the limit where none comes before it.
pub open spec fn next_cut(
    selection: Option<ByteRange>,
    inline: Seq<ByteRange>,
    offset: int,
    limit: int,
) -> int
    decreases limit - offset,
{
    if offset + 1 >= limit {
        limit
    } else if is_cut(selection, inline, offset + 1) {
        offset + 1
    } else {
        next_cut(selection, inline, offset + 1, limit)
    }
}

/// The runs of the text between two offsets in one colour: cut wherever the background may
/// change.
pub open spec fn span_runs(
    selection: Option<ByteRange>,
    inline: Seq<ByteRange>,
    color: u32,
    start: int,
    end: int,
) -> Seq<StyledRun>
    decreases end - start,
{
    if start >= end {
        Seq::empty()
    } else {
        let cut = next_cut(selection, inline, start, end);
        if start < cut <= end {
            seq![
                StyledRun {
                    start: start as usize,
                    end: cut as usize,
                    color: Some(color),
                    background: background_at(selection, inline, start),
                },
            ] + span_runs(selection, inline, color, cut, end)
        } else {
            Seq::empty()
        }
    }
}

/// The runs of a line with highlighted spans.
pub open spec fn highlighted_runs(
    spans: Seq<HighlightedSpan>,
    selection: Option<ByteRange>,
    inline: Seq<ByteRange>,
) -> Seq<StyledRun>
    decreases spans.len(),
{
    if spans.len() == 0 {
        Seq::empty()
    } else {
        highlighted_runs(spans.drop_last(), selection, inline) + span_runs(
            selection,
            inline,
            spans.last().color,
            spans_len(spans.drop_last()) as int,
            spans_len(spans) as int,
        )
    }
}

/// A run that only has a background.
pub open spec fn background_run(start: int, end: int, background: RunBackground) -> StyledRun {
    StyledRun {
        start: start as usize,
        end: end as usize,
        color: None,
        background: Some(background),
    }
}

/// The parts of changed stretches that lie before an offset.
pub open spec fn runs_before(inline: Seq<ByteRange>, offset: int) -> Seq<StyledRun>
    decreases inline.len(),
{
    if inline.len() == 0 {
        Seq::empty()
    } else {
        let before = runs_before(inline.drop_last(), offset);
        let range = inline.last();
        if range.start < offset {
            before.push(
                background_run(
                    range.start as int,
                    diff_text::least(range.end as int, offset),
                    RunBackground::InlineChange,
                ),
            )
        } else {
            before
        }
    }
}

/// The parts of changed stretches that lie behind an offset.
pub open spec fn runs_after(inline: Seq<ByteRange>, offset: int) -> Seq<StyledRun>
    decreases inline.len(),
{
    if inline.len() == 0 {
        Seq::empty()
    } else {
        let before = runs_after(inline.drop_last(), offset);
        let range = inline.last();
        if range.end > offset {
            before.push(
                background_run(
                    if range.start >= offset {
                        range.start as int
                    } else {
                        offset
                    },
                    range.end as int,
                    RunBackground::InlineChange,
                ),
            )
        } else {
            before
        }
    }
}

/// The runs of a line without highlighted spans: the changed stretches, with the selection laid
/// over them.
pub open spec fn plain_runs(selection: Option<ByteRange>, inline: Seq<ByteRange>) -> Seq<StyledRun> {
    match selection {
        Some(range) => runs_before(inline, range.start as int) + seq![
            background_run(range.start as int, range.end as int, RunBackground::Selection),
        ] + runs_after(inline, range.end as int),
        None => runs_after(inline, 0),
    }
}

/// The selection of a line moved to whole characters.
pub open spec fn shown_selection(bytes: Seq<u8>, selection: Option<ByteRange>) -> Option<ByteRange> {
    match selection {
        Some(range) => {
            let ranges = normalized_ranges(bytes, seq![range]);
            if ranges.len() > 0 {
                Some(ranges[0])
            } else {
                None
            }
        },
        None => None,
    }
}

/// The changed stretches of a line as they are shown. There are none where they have no
/// background.
pub open spec fn shown_changes(
    raw: Seq<char>,
    highlights: Option<Vec<HighlightedSpan>>,
    inline_changes: Option<Vec<ByteRange>>,
    has_inline_background: bool,
) -> Seq<ByteRange> {
    if has_inline_background && inline_changes is Some {
        let ranges = inline_changes->0@;
        let raw_bytes = text::bytes_of(diff_text::without_line_end(raw));
        normalized_ranges(
            text::bytes_of(diff_text::display_chars(raw, highlights)),
            Seq::new(
                ranges.len(),
                |i: int|
                    ByteRange {
                        start: mapped_offset(raw_bytes, ranges, ranges[i].start as int) as usize,
                        end: mapped_offset(raw_bytes, ranges, ranges[i].end as int) as usize,
                    },
            ),
        )
    } else {
        Seq::empty()
    }
}

proof fn lemma_next_cut(
    selection: Option<ByteRange>,
    inline: Seq<ByteRange>,
    offset: int,
    limit: int,
    cut: int,
)
    requires
        offset < cut <= limit,
        cut < limit ==> is_cut(selection, inline, cut),
        forall|p: int| offset < p < cut ==> !#[trigger] is_cut(selection, inline, p),
    ensures
        next_cut(selection, inline, offset, limit) == cut,
    decreases limit - offset,
{
    if offset + 1 >= limit {
    } else if offset + 1 == cut {
    } else {
        assert(!is_cut(selection, inline, offset + 1));
        lemma_next_cut(selection, inline, offset + 1, limit, cut);
    }
}

/// The smaller of a bound and a candidate that lies behind an offset.
fn nearer(bound: usize, candidate: usize, offset: usize) -> (result: usize)
    ensures
        result == if offset < candidate < bound {
            candidate
        } else {
            bound
        },
{
    if candidate > offset && candidate < bound {
        candidate
    } else {
        bound
    }
}

/// The next cut behind an offset, or the limit where none comes before it.
fn find_next_cut(
    selection: Option<ByteRange>,
    inline: &Vec<ByteRange>,
    offset: usize,
    limit: usize,
) -> (cut: usize)
    requires
        offset < limit,
    ensures
        cut == next_cut(selection, inline@, offset as int, limit as int),
        offset < cut <= limit,
{
    let mut cut: usize = limit;
    if let Some(range) = selection {
        cut = nearer(cut, range.start, offset);
        cut = nearer(cut, range.end, offset);
    }
    let mut i: usize = 0;
    while i < inline.len()
        invariant
            i <= inline@.len(),
            offset < cut <= limit,
            cut < limit ==> is_cut(selection, inline@, cut as int),
            selection matches Some(range) ==> !(offset < range.start < cut) && !(offset < range.end
                < cut),
            forall|k: int|
                0 <= k < i ==> !(offset < (#[trigger] inline@[k]).start < cut) && !(offset
                    < inline@[k].end < cut),
        decreases inline@.len() - i,
    {
        let range = inline[i];
        assert(inline@[i as int] == range);
        cut = nearer(cut, range.start, offset);
        cut = nearer(cut, range.end, offset);
        i = i + 1;
    }
    proof {
        assert forall|p: int| offset < p < cut implies !#[trigger] is_cut(
            selection,
            inline@,
            p,
        ) by {
            if is_cut(selection, inline@, p) {
                if selection is Some && (selection->0.start == p || selection->0.end == p) {
                    assert(false);
                } else {
                    let k = choose|k: int|
                        0 <= k < inline@.len() && ((#[trigger] inline@[k]).start == p
                            || inline@[k].end == p);
                    assert(false);
                }
            }
        }
        lemma_next_cut(selection, inline@, offset as int, limit as int, cut as int);
    }
    cut
}

/// The background at an offset.
fn find_background(selection: Option<ByteRange>, inline: &Vec<ByteRange>, offset: usize) -> (
    background: Option<RunBackground>)
    ensures
        background == background_at(selection, inline@, offset as int),
{
    if let Some(range) = selection {
        if offset >= range.start && offset < range.end {
            return Some(RunBackground::Selection);
        }
    }
    if in_any_range(offset, inline) {
        Some(RunBackground::InlineChange)
    } else {
        None
    }
}

/// A text and the styles of its stretches.
#[derive(Debug)]
pub struct StyledLine {
    pub text: String,
    pub runs: Vec<StyledRun>,
}

/// The runs of a line with the given shown selection and changes.
pub open spec fn line_runs(
    highlights: Option<Vec<HighlightedSpan>>,
    selection: Option<ByteRange>,
    inline: Seq<ByteRange>,
) -> Seq<StyledRun> {
    if diff_text::has_spans(highlights) {
        highlighted_runs(highlights->0@, selection, inline)
    } else {
        plain_runs(selection, inline)
    }
}

proof fn lemma_next_cut_bounds(
    selection: Option<ByteRange>,
    inline: Seq<ByteRange>,
    offset: int,
    limit: int,
)
    requires
        offset < limit,
    ensures
        offset < next_cut(selection, inline, offset, limit) <= limit,
    decreases limit - offset,
{
    if offset + 1 >= limit || is_cut(selection, inline, offset + 1) {
    } else {
        lemma_next_cut_bounds(selection, inline, offset + 1, limit);
    }
}

/// The runs of a span tile it.
proof fn lemma_span_runs(
    selection: Option<ByteRange>,
    inline: Seq<ByteRange>,
    color: u32,
    start: int,
    end: int,
)
    requires
        0 <= start <= end <= usize::MAX,
    ensures
        runs_in_order(span_runs(selection, inline, color, start, end), end),
        forall|i: int|
            0 <= i < span_runs(selection, inline, color, start, end).len() ==> start <= (
            #[trigger] span_runs(selection, inline, color, start, end)[i]).start,
        start < end ==> {
            let runs = span_runs(selection, inline, color, start, end);
            runs.len() > 0 && runs[0].start == start && runs.last().end == end
        },
    decreases end - start,
{
    if start < end {
        lemma_next_cut_bounds(selection, inline, start, end);
        let cut = next_cut(selection, inline, start, end);
        lemma_span_runs(selection, inline, color, cut, end);
        let rest = span_runs(selection, inline, color, cut, end);
        let runs = span_runs(selection, inline, color, start, end);
        assert forall|i: int| 0 <= i < runs.len() implies (#[trigger] runs[i]).start < runs[i].end
            <= end && start <= runs[i].start by {
            if i > 0 {
                assert(runs[i] == rest[i - 1]);
            }
        }
        assert forall|i: int, j: int| 0 <= i < j < runs.len() implies (#[trigger] runs[i]).end <= (
        #[trigger] runs[j]).start by {
            assert(runs[j] == rest[j - 1]);
            if i > 0 {
                assert(runs[i] == rest[i - 1]);
            }
        }
        if rest.len() > 0 {
            assert(runs.last() == rest.last());
        }
    }
}

proof fn lemma_spans_len(spans: Seq<HighlightedSpan>)
    requires
        spans.len() > 0,
    ensures
        spans_len(spans.drop_last()) <= spans_len(spans),
{
    text::lemma_bytes_concat(diff_text::span_text(spans.drop_last()), spans.last().text@);
}

/// The runs of highlighted spans follow one another without overlap.
proof fn lemma_highlighted_runs(
    spans: Seq<HighlightedSpan>,
    selection: Option<ByteRange>,
    inline: Seq<ByteRange>,
)
    requires
        spans_len(spans) <= usize::MAX,
    ensures
        runs_in_order(highlighted_runs(spans, selection, inline), spans_len(spans) as int),
    decreases spans.len(),
{
    if spans.len() > 0 {
        let rest = spans.drop_last();
        lemma_spans_len(spans);
        lemma_highlighted_runs(rest, selection, inline);
        lemma_span_runs(
            selection,
            inline,
            spans.last().color,
            spans_len(rest) as int,
            spans_len(spans) as int,
        );
        let head = highlighted_runs(rest, selection, inline);
        let tail = span_runs(
            selection,
            inline,
            spans.last().color,
            spans_len(rest) as int,
            spans_len(spans) as int,
        );
        lemma_join_runs(head, tail, spans_len(rest) as int, spans_len(spans) as int);
    }
}

/// Runs up to an offset followed by runs from there on are in order.
proof fn lemma_join_runs(head: Seq<StyledRun>, tail: Seq<StyledRun>, middle: int, len: int)
    requires
        middle <= len,
        runs_in_order(head, middle),
        runs_in_order(tail, len),
        forall|i: int| 0 <= i < tail.len() ==> middle <= (#[trigger] tail[i]).start,
    ensures
        runs_in_order(head + tail, len),
{
    let all = head + tail;
    assert forall|i: int| 0 <= i < all.len() implies (#[trigger] all[i]).start < all[i].end
        <= len by {
        if i < head.len() {
            assert(all[i] == head[i]);
        } else {
            assert(all[i] == tail[i - head.len()]);
        }
    }
    assert forall|i: int, j: int| 0 <= i < j < all.len() implies (#[trigger] all[i]).end <= (
    #[trigger] all[j]).start by {
        if j < head.len() {
            assert(all[i] == head[i] && all[j] == head[j]);
        } else if i >= head.len() {
            assert(all[i] == tail[i - head.len()] && all[j] == tail[j - head.len()]);
        } else {
            assert(all[i] == head[i] && all[j] == tail[j - head.len()]);
        }
    }
}

proof fn lemma_runs_before(bytes: Seq<u8>, inline: Seq<ByteRange>, offset: int)
    requires
        ranges_in_order(bytes, inline),
        0 <= offset <= usize::MAX,
    ensures
        runs_in_order(runs_before(inline, offset), offset),
        forall|i: int|
            0 <= i < runs_before(inline, offset).len() ==> inline.len() > 0 && (
            #[trigger] runs_before(inline, offset)[i]).end <= inline.last().end,
    decreases inline.len(),
{
    if inline.len() > 0 {
        let rest = inline.drop_last();
        let range = inline.last();
        assert(inline[inline.len() - 1] == range);
        assert forall|i: int, j: int| 0 <= i < j < rest.len() implies (#[trigger] rest[i]).end <= (
        #[trigger] rest[j]).start by {
            assert(inline[i].end <= inline[j].start);
        }
        lemma_runs_before(bytes, rest, offset);
        let before = runs_before(rest, offset);
        if rest.len() > 0 {
            assert(inline[rest.len() - 1].end <= inline[inline.len() - 1].start);
        }
        assert forall|i: int| 0 <= i < before.len() implies (#[trigger] before[i]).end
            <= range.start by {
            assert(before[i].end <= rest.last().end);
        }
    }
}

proof fn lemma_runs_after(bytes: Seq<u8>, inline: Seq<ByteRange>, offset: int)
    requires
        ranges_in_order(bytes, inline),
        0 <= offset <= usize::MAX,
    ensures
        runs_in_order(runs_after(inline, offset), bytes.len() as int),
        forall|i: int|
            #![trigger runs_after(inline, offset)[i]]
            0 <= i < runs_after(inline, offset).len() ==> {
                &&& inline.len() > 0
                &&& runs_after(inline, offset)[i].end <= inline.last().end
                &&& offset <= runs_after(inline, offset)[i].start
            },
    decreases inline.len(),
{
    if inline.len() > 0 {
        let rest = inline.drop_last();
        let range = inline.last();
        assert(inline[inline.len() - 1] == range);
        assert forall|i: int, j: int| 0 <= i < j < rest.len() implies (#[trigger] rest[i]).end <= (
        #[trigger] rest[j]).start by {
            assert(inline[i].end <= inline[j].start);
        }
        lemma_runs_after(bytes, rest, offset);
        let before = runs_after(rest, offset);
        if rest.len() > 0 {
            assert(inline[rest.len() - 1].end <= inline[inline.len() - 1].start);
        }
        assert forall|i: int| 0 <= i < before.len() implies (#[trigger] before[i]).end
            <= range.start by {
            assert(before[i].end <= rest.last().end);
        }
    }
}

/// The runs of a line follow one another without overlap, whatever is selected and changed.
proof fn lemma_line_runs(
    chars: Seq<char>,
    highlights: Option<Vec<HighlightedSpan>>,
    selection: Option<ByteRange>,
    inline: Seq<ByteRange>,
)
    requires
        diff_text::has_spans(highlights) ==> chars == diff_text::span_text(highlights->0@),
        text::bytes_of(chars).len() <= usize::MAX,
        ranges_in_order(text::bytes_of(chars), inline),
        selection matches Some(range) ==> range.start < range.end && text::valid_range(
            text::bytes_of(chars),
            range,
        ),
    ensures
        runs_in_order(
            line_runs(highlights, selection, inline),
            text::bytes_of(chars).len() as int,
        ),
{
    let bytes = text::bytes_of(chars);
    if diff_text::has_spans(highlights) {
        lemma_highlighted_runs(highlights->0@, selection, inline);
    } else {
        match selection {
            Some(range) => {
                lemma_runs_before(bytes, inline, range.start as int);
                lemma_runs_after(bytes, inline, range.end as int);
                let one = seq![
                    background_run(range.start as int, range.end as int, RunBackground::Selection),
                ];
                lemma_join_runs(
                    runs_before(inline, range.start as int),
                    one,
                    range.start as int,
                    range.end as int,
                );
                lemma_join_runs(
                    runs_before(inline, range.start as int) + one,
                    runs_after(inline, range.end as int),
                    range.end as int,
                    bytes.len() as int,
                );
            },
            None => {
                lemma_runs_after(bytes, inline, 0);
            },
        }
    }
}

/// Appends the runs of one span.
fn push_span_runs(
    runs: &mut Vec<StyledRun>,
    selection: Option<ByteRange>,
    inline: &Vec<ByteRange>,
    color: u32,
    start: usize,
    end: usize,
)
    ensures
        final(runs)@ == old(runs)@ + span_runs(selection, inline@, color, start as int, end as int),
{
    let mut at: usize = start;
    let ghost before = runs@;
    assert(before + span_runs(selection, inline@, color, start as int, end as int) =~= runs@
        + span_runs(selection, inline@, color, at as int, end as int));
    while at < end
        invariant
            runs@ + span_runs(selection, inline@, color, at as int, end as int) == before
                + span_runs(selection, inline@, color, start as int, end as int),
        decreases end - at,
    {
        let cut = find_next_cut(selection, inline, at, end);
        let run = StyledRun {
            start: at,
            end: cut,
            color: Some(color),
            background: find_background(selection, inline, at),
        };
        let ghost head = runs@;
        runs.push(run);
        assert(runs@ + span_runs(selection, inline@, color, cut as int, end as int) =~= head
            + span_runs(selection, inline@, color, at as int, end as int));
        at = cut;
    }
    assert(runs@ =~= runs@ + span_runs(selection, inline@, color, at as int, end as int));
}

/// The styled runs of a diff line as it is shown: syntax colours, with the selection and the
/// changed stretches as backgrounds. The runs follow one another and never overlap.
pub fn render_highlighted_text(
    raw: &str,
    highlights: &Option<Vec<HighlightedSpan>>,
    selection_range: Option<ByteRange>,
    inline_changes: &Option<Vec<ByteRange>>,
    has_inline_background: bool,
) -> (line: StyledLine)
    ensures
        line.text@ == diff_text::display_chars(raw@, *highlights),
        line.runs@ == line_runs(
            *highlights,
            shown_selection(text::bytes_of(line.text@), selection_range),
            shown_changes(raw@, *highlights, *inline_changes, has_inline_background),
        ),
        runs_in_order(line.runs@, text::bytes_of(line.text@).len() as int),
{
    let shown = diff_text::display_text_for_line(raw, highlights);
    let len = text::byte_len(shown.as_str());
    let inline: Vec<ByteRange> = match inline_changes {
        Some(ranges) if has_inline_background => {
            let mapped = map_raw_to_display_ranges(raw, ranges);
            proof {
                let raw_bytes = text::bytes_of(diff_text::without_line_end(raw@));
                assert(mapped@ =~= Seq::new(
                    ranges@.len(),
                    |i: int|
                        ByteRange {
                            start: mapped_offset(
                                raw_bytes,
                                ranges@,
                                ranges@[i].start as int,
                            ) as usize,
                            end: mapped_offset(raw_bytes, ranges@, ranges@[i].end as int) as usize,
                        },
                ));
            }
            normalize_display_ranges(shown.as_str(), &mapped)
        },
        _ => Vec::new(),
    };
    let selection: Option<ByteRange> = match selection_range {
        Some(range) => {
            let mut one: Vec<ByteRange> = Vec::new();
            one.push(range);
            assert(one@ =~= seq![range]);
            let ranges = normalize_display_ranges(shown.as_str(), &one);
            if ranges.len() > 0 {
                assert(ranges@[0].start < ranges@[0].end);
                Some(ranges[0])
            } else {
                None
            }
        },
        None => None,
    };
    let mut runs: Vec<StyledRun> = Vec::new();
    let mut has_spans = false;
    if let Some(spans) = highlights {
        has_spans = spans.len() > 0;
        if has_spans {
            let mut built = String::new();
            let mut i: usize = 0;
            assert(spans@.take(0) =~= Seq::<HighlightedSpan>::empty());
            while i < spans.len()
                invariant
                    i <= spans@.len(),
                    built@ == diff_text::span_text(spans@.take(i as int)),
                    runs@ == highlighted_runs(spans@.take(i as int), selection, inline@),
                decreases spans@.len() - i,
            {
                let start = text::byte_len(built.as_str());
                built.append(spans[i].text.as_str());
                assert(spans@.take(i + 1).drop_last() =~= spans@.take(i as int));
                let end = text::byte_len(built.as_str());
                push_span_runs(&mut runs, selection, &inline, spans[i].color, start, end);
                i = i + 1;
            }
            assert(spans@.take(i as int) =~= spans@);
        }
    }
    if !has_spans {
        runs = plain_line_runs(selection, &inline);
    }
    proof {
        lemma_line_runs(shown@, *highlights, selection, inline@);
    }
    StyledLine { text: shown, runs }
}

/// Appends a run that only has a background.
fn push_background(
    runs: &mut Vec<StyledRun>,
    start: usize,
    end: usize,
    background: RunBackground,
)
    ensures
        final(runs)@ == old(runs)@.push(background_run(start as int, end as int, background)),
{
    runs.push(StyledRun { start, end, color: None, background: Some(background) });
}

/// The runs of a line without highlighted spans.
fn plain_line_runs(selection: Option<ByteRange>, inline: &Vec<ByteRange>) -> (runs: Vec<StyledRun>)
    ensures
        runs@ == plain_runs(selection, inline@),
{
    let mut runs: Vec<StyledRun> = Vec::new();
    let mut behind: usize = 0;
    if let Some(range) = selection {
        let mut i: usize = 0;
        assert(inline@.take(0) =~= Seq::<ByteRange>::empty());
        while i < inline.len()
            invariant
                i <= inline@.len(),
                runs@ == runs_before(inline@.take(i as int), range.start as int),
            decreases inline@.len() - i,
        {
            let part = inline[i];
            assert(inline@.take(i + 1).drop_last() =~= inline@.take(i as int));
            if part.start < range.start {
                let end: usize = if part.end <= range.start {
                    part.end
                } else {
                    range.start
                };
                push_background(&mut runs, part.start, end, RunBackground::InlineChange);
            }
            i = i + 1;
        }
        assert(inline@.take(i as int) =~= inline@);
        push_background(&mut runs, range.start, range.end, RunBackground::Selection);
        behind = range.end;
    }
    let ghost head = runs@;
    let mut i: usize = 0;
    assert(inline@.take(0) =~= Seq::<ByteRange>::empty());
    assert(runs@ =~= head + runs_after(inline@.take(0), behind as int));
    while i < inline.len()
        invariant
            i <= inline@.len(),
            runs@ == head + runs_after(inline@.take(i as int), behind as int),
        decreases inline@.len() - i,
    {
        let part = inline[i];
        assert(inline@.take(i + 1).drop_last() =~= inline@.take(i as int));
        if part.end > behind {
            let start: usize = if part.start >= behind {
                part.start
            } else {
                behind
            };
            let ghost before = runs@;
            push_background(&mut runs, start, part.end, RunBackground::InlineChange);
            assert(runs@ =~= head + runs_after(inline@.take(i + 1), behind as int));
        }
        i = i + 1;
    }
    assert(inline@.take(i as int) =~= inline@);
    assert(runs@ =~= plain_runs(selection, inline@));
    runs
}

/// An offset of a raw text is shown behind the text before it: as many bytes in as that text is shown
/// with.
pub proof fn offset_is_shown_behind_the_text_before_it(
    a: Seq<char>,
    b: Seq<char>,
    ranges: Seq<ByteRange>,
)
    requires
        forall|i: int|
            0 <= i < ranges.len() ==> text::is_boundary(
                text::bytes_of(a + b),
                (#[trigger] ranges[i]).start as int,
            ) && text::is_boundary(text::bytes_of(a + b), ranges[i].end as int),
    ensures
        mapped_offset(text::bytes_of(a + b), ranges, text::bytes_of(a).len() as int)
            == text::bytes_of(diff_text::rendered(a)).len(),
{
    text::lemma_bytes_concat(a, b);
    lemma_rendered_width(a);
    lemma_rendered_width(a + b);
    let bytes = text::bytes_of(a + b);
    let at = text::bytes_of(a).len() as int;
    lemma_display_offset_prefix(text::bytes_of(a), text::bytes_of(b), at);
    assert(!blocked(bytes, ranges, at));
}

/// A byte has the background of the selection where it is selected, else that of a changed stretch
/// where it is in one, and else none.
pub proof fn selection_lies_over_changes(
    selection: Option<ByteRange>,
    inline: Seq<ByteRange>,
    offset: int,
)
    ensures
        ({
            let selected = selection is Some && selection->0.start <= offset < selection->0.end;
            let changed = exists|i: int|
                0 <= i < inline.len() && (#[trigger] inline[i]).start <= offset < inline[i].end;
            &&& selected ==> background_at(selection, inline, offset) == Some(
                RunBackground::Selection,
            )
            &&& !selected && changed ==> background_at(selection, inline, offset) == Some(
                RunBackground::InlineChange,
            )
            &&& !selected && !changed ==> background_at(selection, inline, offset) is None
        }),
{
}

/// Without a cut in between, the background stays the same.
proof fn lemma_background_stays(
    selection: Option<ByteRange>,
    inline: Seq<ByteRange>,
    from: int,
    to: int,
)
    requires
        from <= to,
        forall|i: int| from < i <= to ==> !is_cut(selection, inline, i),
    ensures
        background_at(selection, inline, from) == background_at(selection, inline, to),
{
    if selection is Some {
        let range = selection->0;
        if from < range.start <= to {
            assert(is_cut(selection, inline, range.start as int));
        }
        if from < range.end <= to {
            assert(is_cut(selection, inline, range.end as int));
        }
    }
    if covered(inline, from) {
        let i = choose|i: int|
            0 <= i < inline.len() && (#[trigger] inline[i]).start <= from < inline[i].end;
        if inline[i].end <= to {
            assert(is_cut(selection, inline, inline[i].end as int));
        }
        assert(inline[i].start <= to < inline[i].end);
    }
    if covered(inline, to) {
        let i = choose|i: int|
            0 <= i < inline.len() && (#[trigger] inline[i]).start <= to < inline[i].end;
        if from < inline[i].start {
            assert(is_cut(selection, inline, inline[i].start as int));
        }
        assert(inline[i].start <= from < inline[i].end);
    }
}

proof fn lemma_no_cut_before_next(
    selection: Option<ByteRange>,
    inline: Seq<ByteRange>,
    offset: int,
    limit: int,
)
    ensures
        forall|i: int|
            offset < i < next_cut(selection, inline, offset, limit) && i < limit ==> !is_cut(
                selection,
                inline,
                i,
            ),
    decreases limit - offset,
{
    if offset + 1 < limit && !is_cut(selection, inline, offset + 1) {
        lemma_no_cut_before_next(selection, inline, offset + 1, limit);
    }
}

proof fn lemma_span_run_at(
    selection: Option<ByteRange>,
    inline: Seq<ByteRange>,
    color: u32,
    start: int,
    end: int,
    offset: int,
) -> (k: int)
    requires
        0 <= start <= offset < end <= usize::MAX,
    ensures
        ({
            let runs = span_runs(selection, inline, color, start, end);
            &&& 0 <= k < runs.len()
            &&& runs[k].start <= offset < runs[k].end
            &&& runs[k].color == Some(color)
            &&& runs[k].background == background_at(selection, inline, offset)
        }),
    decreases end - start,
{
    lemma_next_cut_bounds(selection, inline, start, end);
    let cut = next_cut(selection, inline, start, end);
    let runs = span_runs(selection, inline, color, start, end);
    let rest = span_runs(selection, inline, color, cut, end);
    if offset < cut {
        lemma_no_cut_before_next(selection, inline, start, end);
        lemma_background_stays(selection, inline, start, offset);
        0
    } else {
        let k = lemma_span_run_at(selection, inline, color, cut, end, offset);
        assert(runs[k + 1] == rest[k]);
        k + 1
    }
}

/// Every byte of a line with highlighted spans is drawn in the colour of its own span, with the
/// background of the selection where it is selected, else that of a changed stretch where it is in
/// one, and else without.
pub proof fn bytes_are_drawn_in_the_colour_of_their_span(
    spans: Seq<HighlightedSpan>,
    selection: Option<ByteRange>,
    inline: Seq<ByteRange>,
    index: int,
    offset: int,
) -> (k: int)
    requires
        spans_len(spans) <= usize::MAX,
        0 <= index < spans.len(),
        spans_len(spans.take(index)) <= offset < spans_len(spans.take(index + 1)),
    ensures
        ({
            let runs = highlighted_runs(spans, selection, inline);
            &&& 0 <= k < runs.len()
            &&& runs[k].start <= offset < runs[k].end
            &&& runs[k].color == Some(spans[index].color)
            &&& runs[k].background == background_at(selection, inline, offset)
            &&& runs_in_order(runs, spans_len(spans) as int)
        }),
    decreases spans.len(),
{
    let rest = spans.drop_last();
    let runs = highlighted_runs(spans, selection, inline);
    let front = highlighted_runs(rest, selection, inline);
    lemma_spans_len(spans);
    lemma_highlighted_runs(spans, selection, inline);
    if index == spans.len() - 1 {
        assert(spans.take(index) =~= rest);
        assert(spans.take(index + 1) =~= spans);
        let k = lemma_span_run_at(
            selection,
            inline,
            spans.last().color,
            spans_len(rest) as int,
            spans_len(spans) as int,
            offset,
        );
        front.len() as int + k
    } else {
        assert(rest.take(index) =~= spans.take(index));
        assert(rest.take(index + 1) =~= spans.take(index + 1));
        assert(rest[index] == spans[index]);
        let k = bytes_are_drawn_in_the_colour_of_their_span(
            rest,
            selection,
            inline,
            index,
            offset,
        );
        assert(runs[k] == front[k]);
        k
    }
}

/// A run gives the byte at an offset this background.
pub open spec fn gives(runs: Seq<StyledRun>, offset: int, background: RunBackground) -> bool {
    exists|k: int|
        0 <= k < runs.len() && (#[trigger] runs[k]).start <= offset < runs[k].end
            && runs[k].background == Some(background)
}

proof fn lemma_before_gives(inline: Seq<ByteRange>, limit: int, offset: int)
    requires
        0 <= limit <= usize::MAX,
    ensures
        gives(runs_before(inline, limit), offset, RunBackground::InlineChange) == (covered(
            inline,
            offset,
        ) && offset < limit),
        !gives(runs_before(inline, limit), offset, RunBackground::Selection),
    decreases inline.len(),
{
    let runs = runs_before(inline, limit);
    if inline.len() > 0 {
        let rest = inline.drop_last();
        let range = inline.last();
        let front = runs_before(rest, limit);
        lemma_before_gives(rest, limit, offset);
        assert(inline[inline.len() - 1] == range);
        lemma_covered_last(inline, offset);
        if gives(front, offset, RunBackground::InlineChange) {
            let k = choose|k: int|
                0 <= k < front.len() && (#[trigger] front[k]).start <= offset < front[k].end
                    && front[k].background == Some(RunBackground::InlineChange);
            assert(runs[k] == front[k]);
        }
        if range.start < limit {
            assert(runs[runs.len() - 1] == background_run(
                range.start as int,
                diff_text::least(range.end as int, limit),
                RunBackground::InlineChange,
            ));
        }
        if gives(runs, offset, RunBackground::InlineChange) {
            let k = choose|k: int|
                0 <= k < runs.len() && (#[trigger] runs[k]).start <= offset < runs[k].end
                    && runs[k].background == Some(RunBackground::InlineChange);
            if k < front.len() {
                assert(front[k].start <= offset < front[k].end);
            }
        }
        if gives(runs, offset, RunBackground::Selection) {
            let k = choose|k: int|
                0 <= k < runs.len() && (#[trigger] runs[k]).start <= offset < runs[k].end
                    && runs[k].background == Some(RunBackground::Selection);
            if k < front.len() {
                assert(front[k].start <= offset < front[k].end);
            }
        }
    }
}

proof fn lemma_covered_last(ranges: Seq<ByteRange>, offset: int)
    requires
        ranges.len() > 0,
    ensures
        covered(ranges, offset) == (covered(ranges.drop_last(), offset) || ranges.last().start
            <= offset < ranges.last().end),
{
    let rest = ranges.drop_last();
    if covered(rest, offset) {
        let k = choose|k: int|
            0 <= k < rest.len() && (#[trigger] rest[k]).start <= offset < rest[k].end;
        assert(ranges[k].start <= offset < ranges[k].end);
    }
    if covered(ranges, offset) {
        let k = choose|k: int|
            0 <= k < ranges.len() && (#[trigger] ranges[k]).start <= offset < ranges[k].end;
        if k < rest.len() {
            assert(rest[k].start <= offset < rest[k].end);
        }
    }
    assert(ranges[ranges.len() - 1] == ranges.last());
}

proof fn lemma_after_gives(inline: Seq<ByteRange>, limit: int, offset: int)
    requires
        0 <= limit <= usize::MAX,
    ensures
        gives(runs_after(inline, limit), offset, RunBackground::InlineChange) == (covered(
            inline,
            offset,
        ) && offset >= limit),
        !gives(runs_after(inline, limit), offset, RunBackground::Selection),
    decreases inline.len(),
{
    let runs = runs_after(inline, limit);
    if inline.len() > 0 {
        let rest = inline.drop_last();
        let range = inline.last();
        let front = runs_after(rest, limit);
        lemma_after_gives(rest, limit, offset);
        assert(inline[inline.len() - 1] == range);
        lemma_covered_last(inline, offset);
        if gives(front, offset, RunBackground::InlineChange) {
            let k = choose|k: int|
                0 <= k < front.len() && (#[trigger] front[k]).start <= offset < front[k].end
                    && front[k].background == Some(RunBackground::InlineChange);
            assert(runs[k] == front[k]);
        }
        if range.end > limit {
            assert(runs[runs.len() - 1] == background_run(
                if range.start >= limit {
                    range.start as int
                } else {
                    limit
                },
                range.end as int,
                RunBackground::InlineChange,
            ));
        }
        if gives(runs, offset, RunBackground::InlineChange) {
            let k = choose|k: int|
                0 <= k < runs.len() && (#[trigger] runs[k]).start <= offset < runs[k].end
                    && runs[k].background == Some(RunBackground::InlineChange);
            if k < front.len() {
                assert(front[k].start <= offset < front[k].end);
            }
        }
        if gives(runs, offset, RunBackground::Selection) {
            let k = choose|k: int|
                0 <= k < runs.len() && (#[trigger] runs[k]).start <= offset < runs[k].end
                    && runs[k].background == Some(RunBackground::Selection);
            if k < front.len() {
                assert(front[k].start <= offset < front[k].end);
            }
        }
    }
}

proof fn lemma_gives_concat(
    a: Seq<StyledRun>,
    b: Seq<StyledRun>,
    offset: int,
    background: RunBackground,
)
    ensures
        gives(a + b, offset, background) == (gives(a, offset, background) || gives(
            b,
            offset,
            background,
        )),
{
    let all = a + b;
    if gives(a, offset, background) {
        let k = choose|k: int|
            0 <= k < a.len() && (#[trigger] a[k]).start <= offset < a[k].end && a[k].background
                == Some(background);
        assert(all[k] == a[k]);
    }
    if gives(b, offset, background) {
        let k = choose|k: int|
            0 <= k < b.len() && (#[trigger] b[k]).start <= offset < b[k].end && b[k].background
                == Some(background);
        assert(all[a.len() + k] == b[k]);
    }
    if gives(all, offset, background) {
        let k = choose|k: int|
            0 <= k < all.len() && (#[trigger] all[k]).start <= offset < all[k].end
                && all[k].background == Some(background);
        if k < a.len() {
            assert(a[k] == all[k]);
        } else {
            assert(b[k - a.len()] == all[k]);
        }
    }
}

/// In a line without highlighted spans exactly the selected bytes have the background of the
/// selection, and exactly the other bytes of changed stretches have that of changes.
pub proof fn plain_line_marks_selection_and_changes(
    selection: Option<ByteRange>,
    inline: Seq<ByteRange>,
    offset: int,
)
    requires
        selection is Some ==> selection->0.start <= selection->0.end,
        0 <= offset,
    ensures
        ({
            let runs = plain_runs(selection, inline);
            let selected = selection is Some && selection->0.start <= offset < selection->0.end;
            &&& gives(runs, offset, RunBackground::Selection) == selected
            &&& gives(runs, offset, RunBackground::InlineChange) == (!selected && covered(
                inline,
                offset,
            ))
        }),
{
    match selection {
        Some(range) => {
            let before = runs_before(inline, range.start as int);
            let one = seq![
                background_run(range.start as int, range.end as int, RunBackground::Selection),
            ];
            let after = runs_after(inline, range.end as int);
            lemma_before_gives(inline, range.start as int, offset);
            lemma_after_gives(inline, range.end as int, offset);
            lemma_gives_concat(before, one, offset, RunBackground::Selection);
            lemma_gives_concat(before + one, after, offset, RunBackground::Selection);
            lemma_gives_concat(before, one, offset, RunBackground::InlineChange);
            lemma_gives_concat(before + one, after, offset, RunBackground::InlineChange);
            assert(one[0].background == Some(RunBackground::Selection));
            if range.start <= offset < range.end {
                assert(gives(one, offset, RunBackground::Selection)) by {
                    assert(one[0].start <= offset < one[0].end);
                }
            }
        },
        None => {
            lemma_after_gives(inline, 0, offset);
        },
    }
}

/// A selection of a line that begins and ends at characters is shown as it is, unless it is empty.
pub proof fn selection_of_whole_characters_is_shown(chars: Seq<char>, range: ByteRange, offset: int)
    requires
        text::bytes_of(chars).len() <= usize::MAX,
        text::valid_range(text::bytes_of(chars), range),
    ensures
        ({
            let shown = shown_selection(text::bytes_of(chars), Some(range));
            &&& range.start < range.end ==> shown == Some(range)
            &&& range.start == range.end ==> shown is None
            &&& shown_selection(text::bytes_of(chars), None) is None
        }),
{
    let bytes = text::bytes_of(chars);
    encode_utf8_valid_utf8(chars);
    text::lemma_floor_boundary(bytes, range.start as int);
    lemma_ceil_boundary(bytes, range.end as int);
    reveal_with_fuel(ordered_ranges, 2);
    reveal_with_fuel(merged_ranges, 2);
    reveal_with_fuel(insert_range, 2);
    let one = seq![range];
    assert(one.drop_last() =~= Seq::<ByteRange>::empty());
    assert(one.last() == range);
    assert(text::ceil_boundary(bytes, range.end as int) == range.end);
    if range.start < range.end {
        let kept = ordered_ranges(bytes, one);
        assert(kept =~= seq![range]);
        assert(kept.drop_last() =~= Seq::<ByteRange>::empty());
        assert(merged_ranges(kept) =~= seq![range]);
    } else {
        assert(ordered_ranges(bytes, one) =~= Seq::<ByteRange>::empty());
    }
}

} // verus!
