//! Byte offsets, character boundaries and lines of UTF-8 text.
//!
//! The model of a text is the sequence of its UTF-8 bytes, `encode_utf8(s@)`. Offsets are
//! byte offsets into that sequence.

use vstd::prelude::*;
use vstd::string::*;
use vstd::utf8::*;

verus! {

/// The line feed byte.
pub const NEWLINE: u8 = 10;

/// The bytes of a text.
pub open spec fn bytes_of(chars: Seq<char>) -> Seq<u8> {
    encode_utf8(chars)
}

/// The offset lies inside the text and not in the middle of a character.
pub open spec fn is_boundary(bytes: Seq<u8>, offset: int) -> bool {
    &&& 0 <= offset <= bytes.len()
    &&& offset == bytes.len() || !is_continuation_byte(bytes[offset])
}

/// The last boundary at or before `offset`.
pub open spec fn floor_boundary(bytes: Seq<u8>, offset: int) -> int
    decreases offset,
{
    if offset >= bytes.len() {
        bytes.len() as int
    } else if offset <= 0 {
        0
    } else if is_boundary(bytes, offset) {
        offset
    } else {
        floor_boundary(bytes, offset - 1)
    }
}

/// The first boundary at or after `offset`.
pub open spec fn ceil_boundary(bytes: Seq<u8>, offset: int) -> int
    decreases bytes.len() - offset,
{
    if offset >= bytes.len() {
        bytes.len() as int
    } else if is_boundary(bytes, offset) {
        offset
    } else {
        ceil_boundary(bytes, offset + 1)
    }
}

/// In valid UTF-8 the boundaries are exactly the offsets that `str` can be split at.
pub proof fn lemma_boundary(bytes: Seq<u8>, offset: int)
    requires
        valid_utf8(bytes),
    ensures
        is_boundary(bytes, offset) == is_char_boundary(bytes, offset),
{
    if offset < 0 || offset > bytes.len() {
    } else if offset == bytes.len() {
        is_char_boundary_start_end_of_seq(bytes);
    } else {
        is_char_boundary_iff_not_is_continuation_byte(bytes, offset);
    }
}

/// The first byte of valid UTF-8 begins a character.
pub proof fn lemma_boundary_ends(bytes: Seq<u8>)
    requires
        valid_utf8(bytes),
    ensures
        is_boundary(bytes, 0),
        is_boundary(bytes, bytes.len() as int),
{
    is_char_boundary_start_end_of_seq(bytes);
    lemma_boundary(bytes, 0);
}

/// Two texts with the same bytes are the same text.
pub proof fn lemma_bytes_injective(a: Seq<char>, b: Seq<char>)
    requires
        bytes_of(a) == bytes_of(b),
    ensures
        a == b,
{
    encode_utf8_decode_utf8(a);
    encode_utf8_decode_utf8(b);
}

/// The bytes of a concatenation are the concatenated bytes.
pub proof fn lemma_bytes_concat(a: Seq<char>, b: Seq<char>)
    ensures
        bytes_of(a + b) == bytes_of(a) + bytes_of(b),
    decreases a.len(),
{
    if a.len() == 0 {
        assert(a + b =~= b);
        assert(bytes_of(a) + bytes_of(b) =~= bytes_of(b));
    } else {
        assert((a + b).drop_first() =~= a.drop_first() + b);
        lemma_bytes_concat(a.drop_first(), b);
        assert(bytes_of(a + b) =~= bytes_of(a) + bytes_of(b));
    }
}

pub proof fn lemma_floor_boundary(bytes: Seq<u8>, offset: int)
    requires
        valid_utf8(bytes),
        0 <= offset,
    ensures
        is_boundary(bytes, floor_boundary(bytes, offset)),
        0 <= floor_boundary(bytes, offset) <= bytes.len(),
        floor_boundary(bytes, offset) <= offset,
        is_boundary(bytes, offset) ==> floor_boundary(bytes, offset) == offset,
    decreases offset,
{
    lemma_boundary_ends(bytes);
    if offset >= bytes.len() || offset <= 0 || is_boundary(bytes, offset) {
    } else {
        lemma_floor_boundary(bytes, offset - 1);
    }
}

/// The number of bytes of a text.
pub fn byte_len(text: &str) -> (len: usize)
    ensures
        len == bytes_of(text@).len(),
{
    text.as_bytes().len()
}

/// The part of a text before an offset.
pub fn text_before<'a>(text: &'a str, end: usize) -> (part: &'a str)
    requires
        is_boundary(bytes_of(text@), end as int),
    ensures
        bytes_of(part@) == bytes_of(text@).subrange(0, end as int),
{
    proof {
        encode_utf8_valid_utf8(text@);
        lemma_boundary(bytes_of(text@), end as int);
    }
    text.split_at(end).0
}

/// The part of a text from an offset on.
pub fn text_from<'a>(text: &'a str, start: usize) -> (part: &'a str)
    requires
        is_boundary(bytes_of(text@), start as int),
    ensures
        bytes_of(part@) == bytes_of(text@).subrange(start as int, bytes_of(text@).len() as int),
{
    proof {
        encode_utf8_valid_utf8(text@);
        lemma_boundary(bytes_of(text@), start as int);
    }
    text.split_at(start).1
}

/// The part of a text between two offsets.
pub fn text_between<'a>(text: &'a str, start: usize, end: usize) -> (part: &'a str)
    requires
        start <= end,
        is_boundary(bytes_of(text@), start as int),
        is_boundary(bytes_of(text@), end as int),
    ensures
        bytes_of(part@) == bytes_of(text@).subrange(start as int, end as int),
{
    let head = text_before(text, end);
    proof {
        let bytes = bytes_of(text@);
        encode_utf8_valid_utf8(text@);
        if start < end {
            assert(bytes_of(head@)[start as int] == bytes[start as int]);
        }
        assert(bytes.subrange(0, end as int).subrange(start as int, end as int) =~= bytes.subrange(
            start as int,
            end as int,
        ));
    }
    text_from(head, start)
}

/// Moves an offset back to the boundary of the character that it lies in. Offsets past the
/// end become the end.
pub fn clamp_offset_to_char_boundary(text: &str, offset: usize) -> (clamped: usize)
    ensures
        clamped == floor_boundary(bytes_of(text@), offset as int),
        is_boundary(bytes_of(text@), clamped as int),
        clamped <= offset,
{
    let ghost bytes = bytes_of(text@);
    proof {
        encode_utf8_valid_utf8(text@);
        lemma_boundary_ends(bytes);
        lemma_floor_boundary(bytes, offset as int);
    }
    let len = byte_len(text);
    if offset >= len {
        return len;
    }
    let mut at: usize = offset;
    proof {
        lemma_boundary(bytes, at as int);
    }
    while !text.is_char_boundary(at)
        invariant
            bytes == bytes_of(text@),
            valid_utf8(bytes),
            is_boundary(bytes, 0),
            0 <= at < bytes.len(),
            floor_boundary(bytes, at as int) == floor_boundary(bytes, offset as int),
            is_boundary(bytes, at as int) == is_char_boundary(bytes, at as int),
        decreases at,
    {
        at = at - 1;
        proof {
            lemma_boundary(bytes, at as int);
        }
    }
    at
}

/// Moves an offset forward to the next boundary. Offsets past the end become the end.
pub fn ceil_offset_to_char_boundary(text: &str, offset: usize) -> (clamped: usize)
    ensures
        clamped == ceil_boundary(bytes_of(text@), offset as int),
        is_boundary(bytes_of(text@), clamped as int),
        offset <= clamped || clamped == bytes_of(text@).len(),
{
    let ghost bytes = bytes_of(text@);
    proof {
        encode_utf8_valid_utf8(text@);
    }
    let len = byte_len(text);
    if offset >= len {
        return len;
    }
    let mut at: usize = offset;
    proof {
        lemma_boundary(bytes, at as int);
    }
    while at < len && !text.is_char_boundary(at)
        invariant
            bytes == bytes_of(text@),
            len == bytes.len(),
            valid_utf8(bytes),
            offset <= at <= len,
            ceil_boundary(bytes, at as int) == ceil_boundary(bytes, offset as int),
            is_boundary(bytes, at as int) == is_char_boundary(bytes, at as int),
        decreases len - at,
    {
        at = at + 1;
        proof {
            lemma_boundary(bytes, at as int);
        }
    }
    at
}

/// A range of byte offsets.
#[derive(Clone, Copy, Debug, PartialEq, Eq, Structural)]
pub struct ByteRange {
    pub start: usize,
    pub end: usize,
}

/// The range begins and ends at boundaries of the text, in order.
pub open spec fn valid_range(bytes: Seq<u8>, range: ByteRange) -> bool {
    &&& range.start <= range.end
    &&& is_boundary(bytes, range.start as int)
    &&& is_boundary(bytes, range.end as int)
}

/// The offset at which the character before `offset` begins; 0 at the start of the text.
pub open spec fn previous_boundary(bytes: Seq<u8>, offset: int) -> int {
    let at = floor_boundary(bytes, offset);
    if at <= 0 {
        0
    } else {
        floor_boundary(bytes, at - 1)
    }
}

/// The offset behind the character at `offset`; the length at the end of the text.
pub open spec fn next_boundary(bytes: Seq<u8>, offset: int) -> int {
    let at = floor_boundary(bytes, offset);
    if at >= bytes.len() {
        bytes.len() as int
    } else {
        ceil_boundary(bytes, at + 1)
    }
}

/// Where the character before the given offset begins.
pub fn previous_char_boundary(text: &str, offset: usize) -> (previous: usize)
    ensures
        previous == previous_boundary(bytes_of(text@), offset as int),
        is_boundary(bytes_of(text@), previous as int),
        previous <= floor_boundary(bytes_of(text@), offset as int),
        previous == floor_boundary(bytes_of(text@), offset as int) ==> previous == 0,
{
    let at = clamp_offset_to_char_boundary(text, offset);
    if at == 0 {
        0
    } else {
        clamp_offset_to_char_boundary(text, at - 1)
    }
}

/// Where the character at the given offset ends.
pub fn next_char_boundary(text: &str, offset: usize) -> (next: usize)
    ensures
        next == next_boundary(bytes_of(text@), offset as int),
        is_boundary(bytes_of(text@), next as int),
        floor_boundary(bytes_of(text@), offset as int) <= next,
        next == floor_boundary(bytes_of(text@), offset as int) ==> next == bytes_of(text@).len(),
{
    let at = clamp_offset_to_char_boundary(text, offset);
    let len = byte_len(text);
    if at >= len {
        len
    } else {
        ceil_offset_to_char_boundary(text, at + 1)
    }
}

/// The number of line feeds among the first `end` bytes.
pub open spec fn newline_count(bytes: Seq<u8>, end: int) -> nat
    decreases end,
{
    if end <= 0 {
        0
    } else {
        newline_count(bytes, end - 1) + if bytes[end - 1] == NEWLINE {
            1nat
        } else {
            0nat
        }
    }
}

/// The offset behind the last line feed before `offset`; 0 on the first line.
pub open spec fn line_start(bytes: Seq<u8>, offset: int) -> int
    decreases offset,
{
    if offset <= 0 {
        0
    } else if bytes[offset - 1] == NEWLINE {
        offset
    } else {
        line_start(bytes, offset - 1)
    }
}

/// The offsets in `(first, last]` at which a line begins, in order.
pub open spec fn line_starts_after(bytes: Seq<u8>, first: int, last: int) -> Seq<int>
    decreases last,
{
    if last <= first || last <= 0 {
        Seq::empty()
    } else {
        let before = line_starts_after(bytes, first, last - 1);
        if bytes[last - 1] == NEWLINE {
            before.push(last)
        } else {
            before
        }
    }
}

/// A line feed is a character of its own: the offsets at both of its ends are boundaries.
pub proof fn lemma_newline_boundary(chars: Seq<char>, at: int)
    requires
        0 <= at < bytes_of(chars).len(),
        bytes_of(chars)[at] == NEWLINE,
    ensures
        is_boundary(bytes_of(chars), at),
        is_boundary(bytes_of(chars), at + 1),
{
    lemma_ascii_boundary(chars, at);
}

/// An ASCII byte is a character of its own.
pub proof fn lemma_ascii_boundary(chars: Seq<char>, at: int)
    requires
        0 <= at < bytes_of(chars).len(),
        bytes_of(chars)[at] < 0x80,
    ensures
        is_boundary(bytes_of(chars), at),
        is_boundary(bytes_of(chars), at + 1),
{
    let bytes = bytes_of(chars);
    encode_utf8_valid_utf8(chars);
    lemma_boundary(bytes, at);
    valid_utf8_split(bytes, at);
    let rest = bytes.subrange(at, bytes.len() as int);
    assert(rest[0] == bytes[at]);
    if at + 1 < bytes.len() {
        let tail = pop_first_scalar(rest);
        assert(tail =~= bytes.subrange(at + 1, bytes.len() as int));
        lemma_boundary_ends(tail);
        assert(tail[0] == bytes[at + 1]);
    }
}

pub proof fn lemma_line_start(chars: Seq<char>, offset: int)
    requires
        0 <= offset <= bytes_of(chars).len(),
    ensures
        0 <= line_start(bytes_of(chars), offset) <= offset,
        is_boundary(bytes_of(chars), line_start(bytes_of(chars), offset)),
        line_start(bytes_of(chars), offset) > 0 ==> bytes_of(chars)[line_start(
            bytes_of(chars),
            offset,
        ) - 1] == NEWLINE,
    decreases offset,
{
    encode_utf8_valid_utf8(chars);
    lemma_boundary_ends(bytes_of(chars));
    if offset > 0 {
        if bytes_of(chars)[offset - 1] == NEWLINE {
            lemma_newline_boundary(chars, offset - 1);
        } else {
            lemma_line_start(chars, offset - 1);
        }
    }
}

/// The index of the line that holds the given offset, counted from 0.
pub fn line_index_for_offset_in_text(text: &str, offset: usize) -> (line: usize)
    ensures
        line == newline_count(
            bytes_of(text@),
            if offset <= bytes_of(text@).len() {
                offset as int
            } else {
                bytes_of(text@).len() as int
            },
        ),
        line <= offset,
{
    let bytes = text.as_bytes();
    let end: usize = if offset <= bytes.len() {
        offset
    } else {
        bytes.len()
    };
    let mut at: usize = 0;
    let mut count: usize = 0;
    while at < end
        invariant
            bytes@ == bytes_of(text@),
            end <= bytes@.len(),
            at <= end,
            count <= at,
            count == newline_count(bytes@, at as int),
        decreases end - at,
    {
        if bytes[at] == NEWLINE {
            count = count + 1;
        }
        at = at + 1;
    }
    count
}

/// Where the line of the given offset begins.
pub fn line_start_for_offset(text: &str, offset: usize) -> (start: usize)
    ensures
        start == line_start(bytes_of(text@), floor_boundary(bytes_of(text@), offset as int)),
        is_boundary(bytes_of(text@), start as int),
        start <= offset,
{
    let at = clamp_offset_to_char_boundary(text, offset);
    let bytes = text.as_bytes();
    proof {
        lemma_line_start(text@, at as int);
    }
    let mut start: usize = at;
    while start > 0 && bytes[start - 1] != NEWLINE
        invariant
            bytes@ == bytes_of(text@),
            start <= at <= bytes@.len(),
            line_start(bytes@, start as int) == line_start(bytes@, at as int),
        decreases start,
    {
        start = start - 1;
    }
    start
}

/// The first and the last of the line starts that a selection, or else the cursor, touches. A
/// selection that ends behind a line feed does not touch the line after it.
pub open spec fn touched_line_bounds(
    bytes: Seq<u8>,
    selection: Option<ByteRange>,
    cursor: int,
) -> (int, int) {
    match selection {
        Some(range) => {
            let start = floor_boundary(bytes, range.start as int);
            let end = floor_boundary(bytes, range.end as int);
            let last = if end > start && bytes[end - 1] == NEWLINE {
                end - 1
            } else {
                end
            };
            (line_start(bytes, start), line_start(bytes, floor_boundary(bytes, last)))
        },
        None => {
            let start = line_start(bytes, floor_boundary(bytes, cursor));
            (start, start)
        },
    }
}

/// The starts of the lines that a selection, or else the cursor, touches.
pub open spec fn touched_lines(
    bytes: Seq<u8>,
    selection: Option<ByteRange>,
    cursor: int,
) -> Seq<int> {
    let (first, last) = touched_line_bounds(bytes, selection, cursor);
    seq![first] + line_starts_after(bytes, first, last)
}

/// The offsets of a vector as mathematical integers.
pub open spec fn offsets(positions: Seq<usize>) -> Seq<int> {
    positions.map_values(|position: usize| position as int)
}

/// The starts of the lines that the selection touches, or of the cursor's line where nothing is
/// selected.
pub fn touched_line_starts(
    text: &str,
    selection: Option<ByteRange>,
    cursor_pos: usize,
) -> (starts: Vec<usize>)
    ensures
        offsets(starts@) == touched_lines(bytes_of(text@), selection, cursor_pos as int),
{
    let bytes = text.as_bytes();
    let (first, last): (usize, usize) = match selection {
        Some(range) => {
            let start = clamp_offset_to_char_boundary(text, range.start);
            let end = clamp_offset_to_char_boundary(text, range.end);
            let last_offset: usize = if end > start && bytes[end - 1] == NEWLINE {
                end - 1
            } else {
                end
            };
            proof {
                encode_utf8_valid_utf8(text@);
                lemma_floor_boundary(bytes@, start as int);
            }
            (line_start_for_offset(text, start), line_start_for_offset(text, last_offset))
        },
        None => {
            let start = line_start_for_offset(text, cursor_pos);
            (start, start)
        },
    };
    let mut starts: Vec<usize> = Vec::new();
    starts.push(first);
    let mut at: usize = first;
    assert(offsets(starts@) =~= seq![first as int] + line_starts_after(bytes@, first as int, at as int));
    while at < last
        invariant
            bytes@ == bytes_of(text@),
            first <= at,
            at <= last || at == first,
            last <= bytes@.len(),
            offsets(starts@) == seq![first as int] + line_starts_after(
                bytes@,
                first as int,
                at as int,
            ),
        decreases last - at,
    {
        at = at + 1;
        if bytes[at - 1] == NEWLINE {
            let ghost before = starts@;
            starts.push(at);
            assert(offsets(starts@) =~= offsets(before).push(at as int));
            assert(offsets(starts@) =~= seq![first as int] + line_starts_after(
                bytes@,
                first as int,
                at as int,
            ));
        }
    }
    proof {
        assert(line_starts_after(bytes@, first as int, last as int) =~= line_starts_after(
            bytes@,
            first as int,
            at as int,
        ));
    }
    starts
}

/// A line feed lies between two offsets.
pub open spec fn has_newline(bytes: Seq<u8>, start: int, end: int) -> bool {
    exists|at: int| start <= at < end && bytes[at] == NEWLINE
}

/// Whether the selected text holds a line feed.
pub fn selection_spans_multiple_lines(text: &str, selection: ByteRange) -> (spans: bool)
    requires
        valid_range(bytes_of(text@), selection),
    ensures
        spans == has_newline(bytes_of(text@), selection.start as int, selection.end as int),
{
    let bytes = text.as_bytes();
    let mut at: usize = selection.start;
    while at < selection.end
        invariant
            bytes@ == bytes_of(text@),
            selection.start <= at <= selection.end <= bytes@.len(),
            forall|j: int| selection.start <= j < at ==> bytes@[j] != NEWLINE,
        decreases selection.end - at,
    {
        if bytes[at] == NEWLINE {
            return true;
        }
        at = at + 1;
    }
    false
}

/// A byte sequence with the part between two offsets replaced.
pub open spec fn splice(bytes: Seq<u8>, start: int, end: int, replacement: Seq<u8>) -> Seq<u8> {
    bytes.subrange(0, start) + replacement + bytes.subrange(end, bytes.len() as int)
}

/// A text with the part between two offsets replaced.
pub fn replace_text(text: &str, range: ByteRange, replacement: &str) -> (result: String)
    requires
        valid_range(bytes_of(text@), range),
    ensures
        bytes_of(result@) == splice(
            bytes_of(text@),
            range.start as int,
            range.end as int,
            bytes_of(replacement@),
        ),
{
    let head = text_before(text, range.start);
    let tail = text_from(text, range.end);
    let mut result = head.to_owned();
    result.append(replacement);
    result.append(tail);
    proof {
        lemma_bytes_concat(head@, replacement@);
        lemma_bytes_concat(head@ + replacement@, tail@);
    }
    result
}

/// The first `len` bytes of two byte sequences agree.
pub open spec fn shared_prefix(old: Seq<u8>, new: Seq<u8>, len: int) -> bool {
    &&& 0 <= len <= old.len()
    &&& len <= new.len()
    &&& forall|i: int| 0 <= i < len ==> old[i] == new[i]
}

/// The last `len` bytes of two byte sequences agree.
pub open spec fn shared_suffix(old: Seq<u8>, new: Seq<u8>, len: int) -> bool {
    &&& 0 <= len <= old.len()
    &&& len <= new.len()
    &&& forall|i: int|
        1 <= i <= len ==> #[trigger] old[old.len() - i] == new[new.len() - i]
}

/// Where the prefix that two byte sequences share ends, seen from an index inside of it.
pub open spec fn prefix_end(old: Seq<u8>, new: Seq<u8>, at: int) -> int
    decreases old.len() - at,
{
    if 0 <= at < old.len() && at < new.len() && old[at] == new[at] {
        prefix_end(old, new, at + 1)
    } else {
        at
    }
}

/// The number of last bytes that two byte sequences share behind their first `prefix_len` bytes,
/// where they are known to share the last `len` ones.
pub open spec fn suffix_from(old: Seq<u8>, new: Seq<u8>, prefix_len: int, len: int) -> int
    decreases old.len() - prefix_len - len,
{
    if 0 <= len < old.len() - prefix_len && len < new.len() - prefix_len && old[old.len() - len - 1]
        == new[new.len() - len - 1] {
        suffix_from(old, new, prefix_len, len + 1)
    } else {
        len
    }
}

/// The length of the longest prefix that two byte sequences share.
pub fn common_prefix_len(old: &[u8], new: &[u8]) -> (len: usize)
    ensures
        len == prefix_end(old@, new@, 0),
        shared_prefix(old@, new@, len as int),
        len < old@.len() && len < new@.len() ==> old@[len as int] != new@[len as int],
{
    let mut len: usize = 0;
    while len < old.len() && len < new.len() && old[len] == new[len]
        invariant
            shared_prefix(old@, new@, len as int),
            prefix_end(old@, new@, 0) == prefix_end(old@, new@, len as int),
        decreases old@.len() - len,
    {
        len = len + 1;
    }
    len
}

/// The length of the longest suffix that two byte sequences share behind their first
/// `prefix_len` bytes.
pub fn common_suffix_len(old: &[u8], new: &[u8], prefix_len: usize) -> (len: usize)
    requires
        prefix_len <= old@.len(),
        prefix_len <= new@.len(),
    ensures
        len == suffix_from(old@, new@, prefix_len as int, 0),
        shared_suffix(old@, new@, len as int),
        len <= old@.len() - prefix_len,
        len <= new@.len() - prefix_len,
        len < old@.len() - prefix_len && len < new@.len() - prefix_len ==> old@[old@.len() - len
            - 1] != new@[new@.len() - len - 1],
{
    let old_remaining: usize = old.len() - prefix_len;
    let new_remaining: usize = new.len() - prefix_len;
    let mut len: usize = 0;
    while len < old_remaining && len < new_remaining && old[old.len() - len - 1] == new[new.len()
        - len - 1]
        invariant
            prefix_len <= old@.len(),
            prefix_len <= new@.len(),
            old_remaining == old@.len() - prefix_len,
            new_remaining == new@.len() - prefix_len,
            len <= old_remaining,
            len <= new_remaining,
            suffix_from(old@, new@, prefix_len as int, 0) == suffix_from(
                old@,
                new@,
                prefix_len as int,
                len as int,
            ),
            shared_suffix(old@, new@, len as int),
        decreases old_remaining - len,
    {
        len = len + 1;
    }
    len
}

/// What one level of indentation inserts.
pub const INDENT_WIDTH: usize = 4;

/// The tab byte.
pub const TAB: u8 = 9;

/// The space byte.
pub const SPACE: u8 = 32;

/// The number of spaces at the front of a line, at most `limit`.
pub open spec fn leading_spaces(bytes: Seq<u8>, at: int, limit: nat) -> nat
    decreases limit,
{
    if limit == 0 || at >= bytes.len() || bytes[at] != SPACE {
        0
    } else {
        1 + leading_spaces(bytes, at + 1, (limit - 1) as nat)
    }
}

/// How many bytes one level of outdenting takes off the line that begins at `line_start`.
pub open spec fn outdent_len(bytes: Seq<u8>, line_start: int) -> nat {
    if line_start < bytes.len() && bytes[line_start] == TAB {
        1
    } else {
        leading_spaces(bytes, line_start, INDENT_WIDTH as nat)
    }
}

pub proof fn lemma_leading_spaces(bytes: Seq<u8>, at: int, limit: nat)
    requires
        0 <= at <= bytes.len(),
    ensures
        leading_spaces(bytes, at, limit) <= limit,
        at + leading_spaces(bytes, at, limit) <= bytes.len(),
        forall|i: int|
            at <= i < at + leading_spaces(bytes, at, limit) ==> bytes[i] == SPACE,
    decreases limit,
{
    if limit == 0 || at >= bytes.len() || bytes[at] != SPACE {
    } else {
        lemma_leading_spaces(bytes, at + 1, (limit - 1) as nat);
    }
}

/// How many bytes of indentation the line that begins at `line_start` loses: one tab, or up to
/// four spaces.
pub fn leading_outdent_len(text: &str, line_start: usize) -> (len: usize)
    requires
        is_boundary(bytes_of(text@), line_start as int),
    ensures
        len == outdent_len(bytes_of(text@), line_start as int),
        len <= INDENT_WIDTH,
        line_start + len <= bytes_of(text@).len(),
        is_boundary(bytes_of(text@), line_start + len),
{
    let bytes = text.as_bytes();
    if line_start < bytes.len() && bytes[line_start] == TAB {
        proof {
            lemma_ascii_boundary(text@, line_start as int);
        }
        return 1;
    }
    let available: usize = bytes.len() - line_start;
    let mut len: usize = 0;
    while len < INDENT_WIDTH && len < available && bytes[line_start + len] == SPACE
        invariant
            bytes@ == bytes_of(text@),
            available == bytes@.len() - line_start,
            bytes@.len() <= usize::MAX,
            len <= INDENT_WIDTH,
            line_start + len <= bytes@.len(),
            is_boundary(bytes@, line_start + len),
            leading_spaces(bytes@, line_start as int, INDENT_WIDTH as nat) == len + leading_spaces(
                bytes@,
                line_start + len,
                (INDENT_WIDTH - len) as nat,
            ),
        decreases INDENT_WIDTH - len,
    {
        proof {
            lemma_ascii_boundary(text@, line_start + len);
        }
        len = len + 1;
    }
    len
}

/// A stretch of text that is taken out: where it begins and how long it is.
#[derive(Clone, Copy, Debug, PartialEq, Eq, Structural)]
pub struct Removal {
    pub start: usize,
    pub len: usize,
}

impl Removal {
    pub open spec fn end(self) -> int {
        self.start + self.len
    }

    /// The offset lies strictly inside the removed stretch.
    pub open spec fn swallows(self, offset: int) -> bool {
        self.start < offset < self.end()
    }
}

/// The number of bytes removed in stretches that end at or before `offset`.
pub open spec fn removed_before(removals: Seq<Removal>, offset: int) -> nat
    decreases removals.len(),
{
    if removals.len() == 0 {
        0
    } else {
        let last = removals.last();
        removed_before(removals.drop_last(), offset) + if last.end() <= offset {
            last.len as nat
        } else {
            0nat
        }
    }
}

/// The start of the first stretch that swallows the offset.
pub open spec fn swallowed_to(removals: Seq<Removal>, offset: int) -> Option<int>
    decreases removals.len(),
{
    if removals.len() == 0 {
        None
    } else if removals[0].swallows(offset) {
        Some(removals[0].start as int)
    } else {
        swallowed_to(removals.drop_first(), offset)
    }
}

/// Where an offset goes when stretches are removed: to the start of the first stretch that
/// swallows it, or else back by what was removed before it.
pub open spec fn adjusted_offset(removals: Seq<Removal>, offset: int) -> int {
    match swallowed_to(removals, offset) {
        Some(start) => start,
        None => if removed_before(removals, offset) <= offset {
            offset - removed_before(removals, offset)
        } else {
            0
        },
    }
}

/// Where an offset goes when the given stretches are removed from the text.
pub fn adjust_offset_for_removals(offset: usize, removals: &Vec<Removal>) -> (adjusted: usize)
    requires
        forall|k: int| 0 <= k < removals@.len() ==> (#[trigger] removals@[k]).end() <= usize::MAX,
    ensures
        adjusted == adjusted_offset(removals@, offset as int),
        adjusted <= offset,
{
    let mut adjusted: usize = offset;
    let mut i: usize = 0;
    assert(removals@.skip(0) =~= removals@);
    while i < removals.len()
        invariant
            i <= removals@.len(),
            adjusted <= offset,
            forall|k: int|
                0 <= k < removals@.len() ==> (#[trigger] removals@[k]).end() <= usize::MAX,
            swallowed_to(removals@.skip(i as int), offset as int) == swallowed_to(
                removals@,
                offset as int,
            ),
            adjusted == if removed_before(removals@.take(i as int), offset as int) <= offset {
                offset - removed_before(removals@.take(i as int), offset as int)
            } else {
                0
            },
        decreases removals@.len() - i,
    {
        let removal = removals[i];
        assert(removals@[i as int].end() <= usize::MAX);
        proof {
            assert(removals@.take(i + 1).drop_last() =~= removals@.take(i as int));
            assert(removals@.skip(i as int)[0] == removal);
            assert(removals@.skip(i as int).drop_first() =~= removals@.skip(i + 1));
        }
        if offset >= removal.start + removal.len {
            adjusted = adjusted.saturating_sub(removal.len);
        } else if offset > removal.start {
            return removal.start;
        }
        i = i + 1;
    }
    proof {
        assert(removals@.take(i as int) =~= removals@);
    }
    adjusted
}

/// The offset of the character with the given index, or the length where there are fewer.
pub open spec fn char_offset(chars: Seq<char>, char_idx: int) -> nat {
    if char_idx >= chars.len() {
        bytes_of(chars).len()
    } else {
        bytes_of(chars.take(char_idx)).len()
    }
}

/// Converts a character index to a byte offset.
pub fn char_to_byte(s: &str, char_idx: usize) -> (offset: usize)
    ensures
        offset == char_offset(s@, char_idx as int),
{
    if char_idx >= s.unicode_len() {
        byte_len(s)
    } else {
        let head = s.substring_char(0, char_idx);
        proof {
            assert(head@ =~= s@.take(char_idx as int));
        }
        byte_len(head)
    }
}

/// The bytes of a text hashed in order, each by a multiplication and an exclusive or.
pub open spec fn hash_prefix(bytes: Seq<u8>, len: int) -> u64
    decreases len,
{
    if len <= 0 {
        0xcbf29ce484222325u64
    } else {
        vstd::wrapping::u64_specs::wrapping_mul(
            hash_prefix(bytes, len - 1),
            0x100000001b3u64,
        ) ^ (bytes[len - 1] as u64)
    }
}

/// A quick content hash that tells documents apart.
pub fn simple_hash(s: &str) -> (hash: u64)
    ensures
        hash == hash_prefix(bytes_of(s@), bytes_of(s@).len() as int),
{
    let bytes = s.as_bytes();
    let mut hash: u64 = 0xcbf29ce484222325;
    let mut i: usize = 0;
    while i < bytes.len()
        invariant
            bytes@ == bytes_of(s@),
            i <= bytes@.len(),
            hash == hash_prefix(bytes@, i as int),
        decreases bytes@.len() - i,
    {
        hash = hash.wrapping_mul(0x100000001b3) ^ (bytes[i] as u64);
        i = i + 1;
    }
    hash
}

/// Positions in order, none twice.
pub open spec fn increasing(positions: Seq<int>) -> bool {
    forall|i: int, j: int| 0 <= i < j < positions.len() ==> positions[i] < positions[j]
}

/// The same text inserted at each of the given positions.
pub open spec fn insert_all(bytes: Seq<u8>, positions: Seq<int>, insertion: Seq<u8>) -> Seq<u8>
    decreases positions.len(),
{
    if positions.len() == 0 {
        bytes
    } else {
        insert_all(
            splice(bytes, positions.last(), positions.last(), insertion),
            positions.drop_last(),
            insertion,
        )
    }
}

/// The given stretches taken out, the last one first.
pub open spec fn remove_all(bytes: Seq<u8>, removals: Seq<Removal>) -> Seq<u8>
    decreases removals.len(),
{
    if removals.len() == 0 {
        bytes
    } else {
        remove_all(
            splice(bytes, removals.last().start as int, removals.last().end(), Seq::empty()),
            removals.drop_last(),
        )
    }
}

/// How many of the positions lie at or before `limit`.
pub open spec fn count_at_most(positions: Seq<int>, limit: int) -> nat
    decreases positions.len(),
{
    if positions.len() == 0 {
        0
    } else {
        count_at_most(positions.drop_last(), limit) + if positions.last() <= limit {
            1nat
        } else {
            0nat
        }
    }
}

/// What outdenting takes off the lines that begin at the given positions. Lines without
/// indentation are left out.
pub open spec fn outdent_removals(bytes: Seq<u8>, starts: Seq<int>) -> Seq<Removal>
    decreases starts.len(),
{
    if starts.len() == 0 {
        Seq::empty()
    } else {
        let before = outdent_removals(bytes, starts.drop_last());
        let len = outdent_len(bytes, starts.last());
        if len > 0 {
            before.push(Removal { start: starts.last() as usize, len: len as usize })
        } else {
            before
        }
    }
}

pub proof fn lemma_line_starts_after(chars: Seq<char>, first: int, last: int)
    requires
        0 <= first,
        last <= bytes_of(chars).len(),
    ensures
        increasing(line_starts_after(bytes_of(chars), first, last)),
        forall|i: int|
            #![trigger line_starts_after(bytes_of(chars), first, last)[i]]
            0 <= i < line_starts_after(bytes_of(chars), first, last).len() ==> {
                let at = line_starts_after(bytes_of(chars), first, last)[i];
                first < at <= last && bytes_of(chars)[at - 1] == NEWLINE && is_boundary(
                    bytes_of(chars),
                    at,
                )
            },
        line_starts_after(bytes_of(chars), first, last).len() <= if last <= first {
            0
        } else {
            last - first
        },
    decreases last,
{
    if last <= first || last <= 0 {
    } else {
        lemma_line_starts_after(chars, first, last - 1);
        if bytes_of(chars)[last - 1] == NEWLINE {
            lemma_newline_boundary(chars, last - 1);
        }
    }
}

/// The touched line starts are increasing boundaries, each at the front of a line.
pub proof fn lemma_touched_lines(chars: Seq<char>, selection: Option<ByteRange>, cursor: int)
    requires
        cursor >= 0,
    ensures
        increasing(touched_lines(bytes_of(chars), selection, cursor)),
        touched_lines(bytes_of(chars), selection, cursor).len() >= 1,
        touched_lines(bytes_of(chars), selection, cursor)[0] == touched_line_bounds(
            bytes_of(chars),
            selection,
            cursor,
        ).0,
        forall|i: int|
            #![trigger touched_lines(bytes_of(chars), selection, cursor)[i]]
            0 <= i < touched_lines(bytes_of(chars), selection, cursor).len() ==> {
                let at = touched_lines(bytes_of(chars), selection, cursor)[i];
                &&& 0 <= at <= bytes_of(chars).len()
                &&& is_boundary(bytes_of(chars), at)
                &&& at > 0 ==> bytes_of(chars)[at - 1] == NEWLINE
            },
{
    let bytes = bytes_of(chars);
    encode_utf8_valid_utf8(chars);
    let (first, last) = touched_line_bounds(bytes, selection, cursor);
    match selection {
        Some(range) => {
            lemma_floor_boundary(bytes, range.start as int);
            lemma_floor_boundary(bytes, range.end as int);
            let start = floor_boundary(bytes, range.start as int);
            let end = floor_boundary(bytes, range.end as int);
            let at = if end > start && bytes[end - 1] == NEWLINE {
                end - 1
            } else {
                end
            };
            lemma_floor_boundary(bytes, at);
            lemma_line_start(chars, start);
            lemma_line_start(chars, floor_boundary(bytes, at));
        },
        None => {
            lemma_floor_boundary(bytes, cursor);
            lemma_line_start(chars, floor_boundary(bytes, cursor));
        },
    }
    lemma_line_starts_after(chars, first, last);
    let rest = line_starts_after(bytes, first, last);
    let all = touched_lines(bytes, selection, cursor);
    assert forall|i: int, j: int| 0 <= i < j < all.len() implies all[i] < all[j] by {
        assert(all[j] == rest[j - 1]);
        if i > 0 {
            assert(all[i] == rest[i - 1]);
        }
    }
    assert forall|i: int| 0 <= i < all.len() implies {
        let at = #[trigger] all[i];
        &&& 0 <= at <= bytes.len()
        &&& is_boundary(bytes, at)
        &&& at > 0 ==> bytes[at - 1] == NEWLINE
    } by {
        if i > 0 {
            assert(all[i] == rest[i - 1]);
        }
    }
}

/// A boundary at or before a splice stays a boundary.
pub proof fn lemma_splice_boundary(
    bytes: Seq<u8>,
    start: int,
    end: int,
    insertion: Seq<u8>,
    at: int,
)
    requires
        start <= end,
        is_boundary(bytes, start),
        is_boundary(bytes, end),
        is_boundary(bytes, at),
        at <= start,
        at < start || insertion.len() == 0,
    ensures
        is_boundary(splice(bytes, start, end, insertion), at),
{
    let after = splice(bytes, start, end, insertion);
    if at < start {
        assert(after[at] == bytes[at]);
    } else if at < after.len() {
        assert(after[at] == bytes[end]);
    }
}

pub proof fn lemma_insert_all_len(bytes: Seq<u8>, positions: Seq<int>, insertion: Seq<u8>)
    requires
        increasing(positions),
        forall|i: int| 0 <= i < positions.len() ==> 0 <= #[trigger] positions[i] <= bytes.len(),
    ensures
        insert_all(bytes, positions, insertion).len() == bytes.len() + positions.len()
            * insertion.len(),
    decreases positions.len(),
{
    if positions.len() > 0 {
        let next = splice(bytes, positions.last(), positions.last(), insertion);
        assert(next.len() == bytes.len() + insertion.len());
        lemma_insert_all_len(next, positions.drop_last(), insertion);
        assert(positions.len() * insertion.len() == (positions.len() - 1) * insertion.len()
            + insertion.len()) by (nonlinear_arith);
    }
}

pub proof fn lemma_count_at_most(positions: Seq<int>, limit: int)
    ensures
        count_at_most(positions, limit) <= positions.len(),
    decreases positions.len(),
{
    if positions.len() > 0 {
        lemma_count_at_most(positions.drop_last(), limit);
    }
}

/// Inserts the same text at each of the given positions.
pub fn insert_at_each(text: &str, positions: &Vec<usize>, insertion: &str) -> (result: String)
    requires
        increasing(offsets(positions@)),
        forall|i: int|
            0 <= i < positions@.len() ==> is_boundary(
                bytes_of(text@),
                (#[trigger] positions@[i]) as int,
            ),
    ensures
        bytes_of(result@) == insert_all(
            bytes_of(text@),
            offsets(positions@),
            bytes_of(insertion@),
        ),
{
    let mut result = text.to_owned();
    let mut left: usize = positions.len();
    assert(offsets(positions@).take(left as int) =~= offsets(positions@));
    while left > 0
        invariant
            left <= positions@.len(),
            increasing(offsets(positions@)),
            forall|i: int|
                0 <= i < left ==> is_boundary(
                    bytes_of(result@),
                    (#[trigger] positions@[i]) as int,
                ),
            insert_all(
                bytes_of(result@),
                offsets(positions@).take(left as int),
                bytes_of(insertion@),
            ) == insert_all(bytes_of(text@), offsets(positions@), bytes_of(insertion@)),
        decreases left,
    {
        let at = positions[left - 1];
        let ghost before = bytes_of(result@);
        let ghost taken = offsets(positions@).take(left as int);
        result = replace_text(result.as_str(), ByteRange { start: at, end: at }, insertion);
        proof {
            assert(taken.last() == at);
            assert(taken.drop_last() =~= offsets(positions@).take(left - 1));
            assert forall|i: int| 0 <= i < left - 1 implies is_boundary(
                bytes_of(result@),
                (#[trigger] positions@[i]) as int,
            ) by {
                assert(offsets(positions@)[i] < offsets(positions@)[left - 1]);
                lemma_splice_boundary(
                    before,
                    at as int,
                    at as int,
                    bytes_of(insertion@),
                    positions@[i] as int,
                );
            }
        }
        left = left - 1;
    }
    assert(offsets(positions@).take(0) =~= Seq::<int>::empty());
    result
}

/// The stretches lie in order inside the text, none overlapping the next, all cut at boundaries.
pub open spec fn removable(bytes: Seq<u8>, removals: Seq<Removal>) -> bool {
    &&& forall|i: int|
        #![trigger removals[i]]
        0 <= i < removals.len() ==> {
            &&& is_boundary(bytes, removals[i].start as int)
            &&& is_boundary(bytes, removals[i].end())
        }
    &&& forall|i: int, j: int|
        0 <= i < j < removals.len() ==> (#[trigger] removals[i]).end() <= (#[trigger] removals[j]).start
}

/// Takes the given stretches out of a text.
pub fn remove_each(text: &str, removals: &Vec<Removal>) -> (result: String)
    requires
        removable(bytes_of(text@), removals@),
    ensures
        bytes_of(result@) == remove_all(bytes_of(text@), removals@),
{
    let mut result = text.to_owned();
    let mut left: usize = removals.len();
    assert(removals@.take(left as int) =~= removals@);
    while left > 0
        invariant
            left <= removals@.len(),
            removable(bytes_of(result@), removals@.take(left as int)),
            remove_all(bytes_of(result@), removals@.take(left as int)) == remove_all(
                bytes_of(text@),
                removals@,
            ),
        decreases left,
    {
        let removal = removals[left - 1];
        let ghost before = bytes_of(result@);
        let ghost taken = removals@.take(left as int);
        assert(taken[left - 1] == removal);
        let len = byte_len(result.as_str());
        let range = ByteRange { start: removal.start, end: removal.start + removal.len };
        result = replace_text(result.as_str(), range, "");
        proof {
            reveal_strlit("");
            assert(bytes_of(""@) =~= Seq::<u8>::empty());
            let rest = removals@.take(left - 1);
            assert(taken.drop_last() =~= rest);
            assert forall|i: int| 0 <= i < rest.len() implies {
                &&& is_boundary(bytes_of(result@), (#[trigger] rest[i]).start as int)
                &&& is_boundary(bytes_of(result@), rest[i].end())
            } by {
                assert(rest[i] == taken[i]);
                assert(taken[i].end() <= taken[left - 1].start);
                lemma_splice_boundary(
                    before,
                    removal.start as int,
                    removal.end(),
                    Seq::empty(),
                    rest[i].start as int,
                );
                lemma_splice_boundary(
                    before,
                    removal.start as int,
                    removal.end(),
                    Seq::empty(),
                    rest[i].end(),
                );
            }
            assert forall|i: int, j: int| 0 <= i < j < rest.len() implies (
            #[trigger] rest[i]).end() <= (#[trigger] rest[j]).start by {
                assert(rest[i] == taken[i]);
                assert(rest[j] == taken[j]);
            }
        }
        left = left - 1;
    }
    assert(removals@.take(0) =~= Seq::<Removal>::empty());
    result
}

/// What outdenting takes off distinct lines never overlaps.
pub proof fn lemma_outdent_removals(chars: Seq<char>, starts: Seq<int>)
    requires
        increasing(starts),
        forall|i: int|
            #![trigger starts[i]]
            0 <= i < starts.len() ==> {
                &&& 0 <= starts[i] <= bytes_of(chars).len()
                &&& is_boundary(bytes_of(chars), starts[i])
                &&& starts[i] > 0 ==> bytes_of(chars)[starts[i] - 1] == NEWLINE
            },
        bytes_of(chars).len() <= usize::MAX,
    ensures
        removable(bytes_of(chars), outdent_removals(bytes_of(chars), starts)),
        forall|i: int|
            #![trigger outdent_removals(bytes_of(chars), starts)[i]]
            0 <= i < outdent_removals(bytes_of(chars), starts).len() ==> {
                let removal = outdent_removals(bytes_of(chars), starts)[i];
                &&& removal.len > 0
                &&& exists|k: int|
                    0 <= k < starts.len() && #[trigger] starts[k] == removal.start
                &&& forall|at: int|
                    removal.start <= at < removal.end() ==> bytes_of(chars)[at] != NEWLINE
            },
    decreases starts.len(),
{
    let bytes = bytes_of(chars);
    let removals = outdent_removals(bytes, starts);
    if starts.len() > 0 {
        let shorter = starts.drop_last();
        lemma_outdent_removals(chars, shorter);
        let before = outdent_removals(bytes, shorter);
        let start = starts.last();
        assert(starts[starts.len() - 1] == start);
        let len = outdent_len(bytes, start);
        lemma_leading_spaces(bytes, start, INDENT_WIDTH as nat);
        if len > 0 {
            lemma_ascii_run_boundary(chars, start, start + len);
            let last = removals.last();
            assert(last.start == start && last.end() == start + len);
            assert forall|i: int, j: int| 0 <= i < j < removals.len() implies (
            #[trigger] removals[i]).end() <= (#[trigger] removals[j]).start by {
                if j == removals.len() - 1 {
                    let earlier = before[i];
                    assert(removals[i] == earlier);
                    let k = choose|k: int|
                        0 <= k < shorter.len() && #[trigger] shorter[k] == earlier.start;
                    assert(shorter[k] == starts[k]);
                    assert(starts[k] < starts[starts.len() - 1]);
                    if earlier.end() > start {
                        assert(bytes[start - 1] == NEWLINE);
                        assert(earlier.start <= start - 1 < earlier.end());
                        assert(false);
                    }
                } else {
                    assert(removals[i] == before[i]);
                    assert(removals[j] == before[j]);
                }
            }
        }
        assert forall|i: int| 0 <= i < removals.len() implies {
            let removal = #[trigger] removals[i];
            &&& is_boundary(bytes, removal.start as int)
            &&& is_boundary(bytes, removal.end())
            &&& removal.len > 0
            &&& exists|k: int| 0 <= k < starts.len() && #[trigger] starts[k] == removal.start
            &&& forall|at: int| removal.start <= at < removal.end() ==> bytes[at] != NEWLINE
        } by {
            if i < before.len() {
                assert(removals[i] == before[i]);
                let k = choose|k: int|
                    0 <= k < shorter.len() && #[trigger] shorter[k] == before[i].start;
                assert(starts[k] == shorter[k]);
            }
        }
    }
}

/// A run of ASCII bytes from a boundary on ends at a boundary.
pub proof fn lemma_ascii_run_boundary(chars: Seq<char>, start: int, end: int)
    requires
        0 <= start <= end <= bytes_of(chars).len(),
        is_boundary(bytes_of(chars), start),
        forall|i: int| start <= i < end ==> bytes_of(chars)[i] < 0x80,
    ensures
        is_boundary(bytes_of(chars), end),
{
    if start < end {
        lemma_ascii_boundary(chars, end - 1);
    }
}

/// The line of an offset is the number of line feeds among the bytes before it.
pub proof fn line_feeds_are_counted(bytes: Seq<u8>, end: int)
    requires
        0 <= end <= bytes.len(),
    ensures
        newline_count(bytes, end) == bytes.take(end).filter(|byte: u8| byte == 10).len(),
    decreases end,
{
    reveal(Seq::filter);
    if end > 0 {
        line_feeds_are_counted(bytes, end - 1);
        assert(bytes.take(end).drop_last() =~= bytes.take(end - 1));
        assert(bytes.take(end).last() == bytes[end - 1]);
    }
}

/// A character further, a text is longer by the bytes of that character, and behind the last
/// character is the end of the text.
pub proof fn characters_lie_end_to_end(chars: Seq<char>, index: int)
    requires
        0 <= index < chars.len(),
    ensures
        char_offset(chars, 0) == 0,
        char_offset(chars, index + 1) == char_offset(chars, index) + bytes_of(
            seq![chars[index]],
        ).len(),
        char_offset(chars, chars.len() as int) == bytes_of(chars).len(),
        bytes_of(chars).subrange(
            char_offset(chars, index) as int,
            char_offset(chars, index + 1) as int,
        ) == bytes_of(seq![chars[index]]),
{
    let head = chars.take(index);
    let one = seq![chars[index]];
    let tail = chars.skip(index + 1);
    assert(chars.take(0) =~= Seq::<char>::empty());
    assert(bytes_of(Seq::<char>::empty()) =~= Seq::<u8>::empty());
    assert(chars.take(index + 1) =~= head + one);
    assert(chars.take(chars.len() as int) =~= chars);
    assert(chars =~= (head + one) + tail);
    lemma_bytes_concat(head, one);
    lemma_bytes_concat(head + one, tail);
    assert(bytes_of(chars).subrange(
        char_offset(chars, index) as int,
        char_offset(chars, index + 1) as int,
    ) =~= bytes_of(one));
}

/// The hash of a text that is longer by one byte is the hash of the shorter one multiplied by the
/// prime of this kind of hash and combined with the byte.
pub proof fn hash_takes_in_every_byte(bytes: Seq<u8>, byte: u8)
    ensures
        hash_prefix(Seq::empty(), 0) == 14695981039346656037u64,
        hash_prefix(bytes.push(byte), bytes.len() as int + 1) == (vstd::wrapping::u64_specs::wrapping_mul(
            hash_prefix(bytes, bytes.len() as int),
            1099511628211u64,
        ) ^ (byte as u64)),
{
    lemma_hash_front(bytes, bytes.push(byte), bytes.len() as int);
}

proof fn lemma_hash_front(a: Seq<u8>, b: Seq<u8>, len: int)
    requires
        len <= a.len(),
        len <= b.len(),
        forall|i: int| 0 <= i < len ==> #[trigger] a[i] == b[i],
    ensures
        hash_prefix(a, len) == hash_prefix(b, len),
    decreases len,
{
    if len > 0 {
        assert(a[len - 1] == b[len - 1]);
        lemma_hash_front(a, b, len - 1);
    }
}

/// The common beginning of two texts is the longest one: both begin with it, and no longer stretch
/// begins both.
pub proof fn common_beginning_is_the_longest(old: &[u8], new: &[u8], len: usize, longer: int)
    requires
        call_ensures(common_prefix_len, (old, new), len),
        0 <= longer <= old@.len(),
        longer <= new@.len(),
        old@.take(longer) == new@.take(longer),
    ensures
        longer <= len <= old@.len(),
        len <= new@.len(),
        old@.take(len as int) == new@.take(len as int),
{
    if len < longer {
        assert(old@.take(longer)[len as int] == old@[len as int]);
        assert(new@.take(longer)[len as int] == new@[len as int]);
    }
    assert(old@.take(len as int) =~= new@.take(len as int));
}

/// The common end of two texts behind their common beginning is the longest one: both end with it, and
/// no longer stretch that spares the beginning ends both.
pub proof fn common_end_is_the_longest(
    old: &[u8],
    new: &[u8],
    prefix: usize,
    len: usize,
    longer: int,
)
    requires
        call_ensures(common_suffix_len, (old, new, prefix), len),
        prefix <= old@.len(),
        prefix <= new@.len(),
        0 <= longer <= old@.len() - prefix,
        longer <= new@.len() - prefix,
        old@.skip(old@.len() - longer) == new@.skip(new@.len() - longer),
    ensures
        longer <= len <= old@.len() - prefix,
        len <= new@.len() - prefix,
        old@.skip(old@.len() - len) == new@.skip(new@.len() - len),
{
    if len < longer {
        let at = longer - len - 1;
        assert(old@.skip(old@.len() - longer)[at] == old@[old@.len() - len - 1]);
        assert(new@.skip(new@.len() - longer)[at] == new@[new@.len() - len - 1]);
    }
    assert forall|i: int| 0 <= i < len implies #[trigger] old@.skip(old@.len() - len)[i]
        == new@.skip(new@.len() - len)[i] by {
        let k = len - i;
        assert(old@[old@.len() - k] == new@[new@.len() - k]);
    }
    assert(old@.skip(old@.len() - len) =~= new@.skip(new@.len() - len));
}

/// A removal behind an offset leaves the offset alone; one that ends at the offset or before it moves
/// the offset back by its length.
pub proof fn removals_before_an_offset_move_it_back(
    removals: Seq<Removal>,
    removal: Removal,
    offset: int,
)
    requires
        swallowed_to(removals, offset) is None,
        removed_before(removals.push(removal), offset) <= offset,
    ensures
        removal.start >= offset && removal.len > 0 ==> adjusted_offset(
            removals.push(removal),
            offset,
        ) == adjusted_offset(removals, offset),
        removal.end() <= offset ==> adjusted_offset(removals.push(removal), offset)
            == adjusted_offset(removals, offset) - removal.len,
        removals.len() == 0 ==> adjusted_offset(removals, offset) == offset,
{
    if !removal.swallows(offset) {
        lemma_swallowed_push(removals, removal, offset);
    }
    assert(removals.push(removal).drop_last() =~= removals);
}

proof fn lemma_swallowed_push(removals: Seq<Removal>, removal: Removal, offset: int)
    requires
        swallowed_to(removals, offset) is None,
        !removal.swallows(offset),
    ensures
        swallowed_to(removals.push(removal), offset) is None,
    decreases removals.len(),
{
    let all = removals.push(removal);
    if removals.len() > 0 {
        lemma_swallowed_push(removals.drop_first(), removal, offset);
        assert(all.drop_first() =~= removals.drop_first().push(removal));
        assert(all[0] == removals[0]);
    } else {
        assert(all.drop_first() =~= Seq::<Removal>::empty());
        assert(swallowed_to(all.drop_first(), offset) is None);
    }
}

} // verus!
