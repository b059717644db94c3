//! Building, splitting, trimming and formatting strings.
//!
//! The model of a string is the sequence of its characters.

use crate::text;
use vstd::prelude::*;
use vstd::string::*;

verus! {

/// `String::push` of std appends one character at the end.
pub assume_specification[ String::push ](s: &mut String, ch: char)
    ensures
        final(s)@ == old(s)@.push(ch),
;

/// Whether two texts are equal.
pub fn same_text(a: &str, b: &str) -> (same: bool)
    ensures
        same == (a@ == b@),
{
    let x = a.as_bytes();
    let y = b.as_bytes();
    if x.len() != y.len() {
        return false;
    }
    let mut i: usize = 0;
    while i < x.len()
        invariant
            x@ == text::bytes_of(a@),
            y@ == text::bytes_of(b@),
            x@.len() == y@.len(),
            i <= x@.len(),
            forall|j: int| 0 <= j < i ==> x@[j] == y@[j],
        decreases x@.len() - i,
    {
        if x[i] != y[i] {
            assert(x@[i as int] != y@[i as int]);
            return false;
        }
        i = i + 1;
    }
    proof {
        assert(x@ =~= y@);
        text::lemma_bytes_injective(a@, b@);
    }
    true
}

/// The characters of an optional string.
pub open spec fn optional_view(value: Option<String>) -> Option<Seq<char>> {
    match value {
        Some(text) => Some(text@),
        None => None,
    }
}

/// The characters of each string of a list.
pub open spec fn views(values: Seq<String>) -> Seq<Seq<char>> {
    values.map_values(|value: String| value@)
}

/// Whether a text begins with a prefix.
pub fn starts_with(text: &str, prefix: &str) -> (starts: bool)
    ensures
        starts == prefix@.is_prefix_of(text@),
{
    let len = prefix.unicode_len();
    if len > text.unicode_len() {
        return false;
    }
    let head = text.substring_char(0, len);
    let same = same_text(head, prefix);
    proof {
        if same {
            assert forall|i: int| 0 <= i < prefix@.len() implies prefix@[i] == text@[i] by {
                assert(head@[i] == text@[i]);
            }
        } else if prefix@.is_prefix_of(text@) {
            assert(head@ =~= prefix@);
        }
    }
    same
}

/// The index of the first occurrence of a character, or the length where there is none.
pub open spec fn index_of_char(chars: Seq<char>, ch: char) -> int
    decreases chars.len(),
{
    if chars.len() == 0 {
        0
    } else if chars[0] == ch {
        0
    } else {
        1 + index_of_char(chars.drop_first(), ch)
    }
}

pub proof fn lemma_index_of_char(chars: Seq<char>, ch: char)
    ensures
        0 <= index_of_char(chars, ch) <= chars.len(),
        index_of_char(chars, ch) < chars.len() ==> chars[index_of_char(chars, ch)] == ch,
        forall|i: int| 0 <= i < index_of_char(chars, ch) ==> chars[i] != ch,
    decreases chars.len(),
{
    if chars.len() > 0 && chars[0] != ch {
        let rest = chars.drop_first();
        lemma_index_of_char(rest, ch);
        assert forall|i: int| 0 <= i < index_of_char(chars, ch) implies chars[i] != ch by {
            if i > 0 {
                assert(chars[i] == rest[i - 1]);
            }
        }
    }
}

/// The characters that Unicode calls white space.
pub open spec fn is_space(ch: char) -> bool {
    let code = ch as u32;
    ||| 0x9 <= code <= 0xd
    ||| code == 0x20
    ||| code == 0x85
    ||| code == 0xa0
    ||| code == 0x1680
    ||| 0x2000 <= code <= 0x200a
    ||| code == 0x2028
    ||| code == 0x2029
    ||| code == 0x202f
    ||| code == 0x205f
    ||| code == 0x3000
}

/// Whether a character is white space.
pub fn is_whitespace(ch: char) -> (space: bool)
    ensures
        space == is_space(ch),
{
    let code: u32 = ch as u32;
    (code >= 0x9 && code <= 0xd) || code == 0x20 || code == 0x85 || code == 0xa0 || code == 0x1680
        || (code >= 0x2000 && code <= 0x200a) || code == 0x2028 || code == 0x2029 || code == 0x202f
        || code == 0x205f || code == 0x3000
}

/// A text without the white space at its front.
pub open spec fn trimmed_start(chars: Seq<char>) -> Seq<char>
    decreases chars.len(),
{
    if chars.len() > 0 && is_space(chars[0]) {
        trimmed_start(chars.drop_first())
    } else {
        chars
    }
}

/// A text without the white space at its end.
pub open spec fn trimmed_end(chars: Seq<char>) -> Seq<char>
    decreases chars.len(),
{
    if chars.len() > 0 && is_space(chars.last()) {
        trimmed_end(chars.drop_last())
    } else {
        chars
    }
}

/// A text without the white space around it.
pub open spec fn trimmed(chars: Seq<char>) -> Seq<char> {
    trimmed_end(trimmed_start(chars))
}

/// The text without the white space around it.
pub fn trim<'a>(text: &'a str) -> (result: &'a str)
    ensures
        result@ == trimmed(text@),
{
    let chars = collect_chars(text);
    let len = chars.len();
    let mut start: usize = 0;
    assert(chars@.skip(0) =~= chars@);
    while start < len && is_whitespace(chars[start])
        invariant
            len == chars@.len(),
            start <= len,
            trimmed_start(chars@.skip(start as int)) == trimmed_start(chars@),
        decreases len - start,
    {
        assert(chars@.skip(start as int).drop_first() =~= chars@.skip(start + 1));
        start = start + 1;
    }
    let mut end: usize = len;
    assert(chars@.subrange(start as int, end as int) =~= chars@.skip(start as int));
    while end > start && is_whitespace(chars[end - 1])
        invariant
            len == chars@.len(),
            start <= end <= len,
            trimmed_end(chars@.subrange(start as int, end as int)) == trimmed(chars@),
        decreases end,
    {
        assert(chars@.subrange(start as int, end as int).drop_last() =~= chars@.subrange(
            start as int,
            end - 1,
        ));
        end = end - 1;
    }
    text.substring_char(start, end)
}

/// The characters of a text.
pub fn collect_chars(text: &str) -> (chars: Vec<char>)
    ensures
        chars@ == text@,
{
    let mut chars: Vec<char> = Vec::new();
    for ch in iter: text.chars()
        invariant
            iter.seq() == text@,
            chars@ == text@.take(iter.index() as int),
    {
        chars.push(ch);
        assert(chars@ =~= text@.take(iter.index() + 1));
    }
    assert(chars@ =~= text@);
    chars
}

/// The parts of a text between the occurrences of a separator.
pub open spec fn split(chars: Seq<char>, separator: char) -> Seq<Seq<char>>
    decreases chars.len(),
{
    if chars.len() == 0 {
        seq![Seq::empty()]
    } else {
        let parts = split(chars.drop_last(), separator);
        if chars.last() == separator {
            parts.push(Seq::empty())
        } else {
            parts.drop_last().push(parts.last().push(chars.last()))
        }
    }
}

/// Splits a text at each occurrence of a separator.
pub fn split_on(text: &str, separator: char) -> (parts: Vec<String>)
    ensures
        views(parts@) == split(text@, separator),
{
    let chars = collect_chars(text);
    let mut parts: Vec<String> = Vec::new();
    let mut current = String::new();
    let mut i: usize = 0;
    assert(views(parts@).push(current@) =~= split(chars@.take(0), separator));
    while i < chars.len()
        invariant
            i <= chars@.len(),
            views(parts@).push(current@) == split(chars@.take(i as int), separator),
        decreases chars@.len() - i,
    {
        let ghost before = views(parts@);
        let ghost last = current@;
        let ch = chars[i];
        if ch == separator {
            parts.push(current);
            current = String::new();
            assert(views(parts@) =~= before.push(last));
        } else {
            current.push(ch);
        }
        proof {
            assert(chars@.take(i + 1).drop_last() =~= chars@.take(i as int));
            assert(before.push(last).drop_last() =~= before);
        }
        i = i + 1;
    }
    let ghost before = views(parts@);
    let ghost last = current@;
    parts.push(current);
    assert(chars@.take(i as int) =~= text@);
    assert(views(parts@) =~= before.push(last));
    parts
}

/// Texts joined with a separator between them.
pub open spec fn joined(parts: Seq<Seq<char>>, separator: Seq<char>) -> Seq<char>
    decreases parts.len(),
{
    if parts.len() == 0 {
        Seq::empty()
    } else if parts.len() == 1 {
        parts[0]
    } else {
        joined(parts.drop_last(), separator) + separator + parts.last()
    }
}

/// Joins texts with a separator between them.
pub fn join(parts: &Vec<String>, separator: &str) -> (result: String)
    ensures
        result@ == joined(views(parts@), separator@),
{
    let mut result = String::new();
    let mut i: usize = 0;
    assert(result@ =~= joined(views(parts@).take(0), separator@));
    while i < parts.len()
        invariant
            i <= parts@.len(),
            result@ == joined(views(parts@).take(i as int), separator@),
        decreases parts@.len() - i,
    {
        let ghost before = result@;
        if i > 0 {
            result.append(separator);
        }
        result.append(parts[i].as_str());
        proof {
            let shorter = views(parts@).take(i as int);
            let longer = views(parts@).take(i + 1);
            assert(longer.drop_last() =~= shorter);
            assert(longer.last() == parts@[i as int]@);
            if i == 0 {
                assert(before + parts@[0]@ =~= parts@[0]@);
            }
        }
        i = i + 1;
    }
    assert(views(parts@).take(i as int) =~= views(parts@));
    result
}

/// The digit character of a number below ten.
pub open spec fn digit_char(digit: int) -> char {
    (48 + digit) as u8 as char
}

/// A number in decimal notation.
pub open spec fn decimal(n: nat) -> Seq<char>
    decreases n,
{
    if n < 10 {
        seq![digit_char(n as int)]
    } else {
        decimal(n / 10).push(digit_char((n % 10) as int))
    }
}

/// Appends a number in decimal notation.
pub fn push_decimal(out: &mut String, n: u64)
    ensures
        final(out)@ == old(out)@ + decimal(n as nat),
    decreases n,
{
    if n >= 10 {
        push_decimal(out, n / 10);
    }
    let digit: u8 = (48 + n % 10) as u8;
    out.push(digit as char);
    assert(out@ =~= old(out)@ + decimal(n as nat));
}

/// A number in decimal notation.
pub fn format_decimal(n: u64) -> (result: String)
    ensures
        result@ == decimal(n as nat),
{
    let mut result = String::new();
    push_decimal(&mut result, n);
    assert(result@ =~= decimal(n as nat));
    result
}

/// A text with a suffix.
pub fn concat_text(head: &str, tail: &str) -> (result: String)
    ensures
        result@ == head@ + tail@,
{
    let mut result = head.to_owned();
    result.append(tail);
    result
}

/// A copy of a list of strings.
pub fn copy_strings(values: &Vec<String>) -> (result: Vec<String>)
    ensures
        result@ == values@,
{
    let mut result: Vec<String> = Vec::new();
    let mut i: usize = 0;
    while i < values.len()
        invariant
            i <= values@.len(),
            result@ == values@.take(i as int),
        decreases values@.len() - i,
    {
        result.push(values[i].clone());
        i = i + 1;
        assert(result@ =~= values@.take(i as int));
    }
    assert(values@.take(i as int) =~= values@);
    result
}

/// Text without the separator lands in the last part.
proof fn lemma_split_tail(chars: Seq<char>, part: Seq<char>, separator: char)
    requires
        !part.contains(separator),
    ensures
        split(chars.push(separator) + part, separator) == split(chars, separator).push(part),
    decreases part.len(),
{
    let whole = chars.push(separator) + part;
    if part.len() == 0 {
        assert(whole =~= chars.push(separator));
        assert(chars.push(separator).drop_last() =~= chars);
        assert(part =~= Seq::<char>::empty());
    } else {
        let rest = part.drop_last();
        assert(!rest.contains(separator)) by {
            if rest.contains(separator) {
                let k = choose|k: int| 0 <= k < rest.len() && rest[k] == separator;
                assert(part[k] == separator);
            }
        }
        lemma_split_tail(chars, rest, separator);
        assert(whole.drop_last() =~= chars.push(separator) + rest);
        assert(part.contains(part[part.len() - 1]));
        assert(whole.last() == part.last());
        let parts = split(chars, separator).push(rest);
        assert(parts.drop_last() =~= split(chars, separator));
        assert(rest.push(part.last()) =~= part);
    }
}

proof fn lemma_split_single(part: Seq<char>, separator: char)
    requires
        !part.contains(separator),
    ensures
        split(part, separator) == seq![part],
    decreases part.len(),
{
    if part.len() == 0 {
        assert(part =~= Seq::<char>::empty());
    } else {
        let rest = part.drop_last();
        assert(!rest.contains(separator)) by {
            if rest.contains(separator) {
                let k = choose|k: int| 0 <= k < rest.len() && rest[k] == separator;
                assert(part[k] == separator);
            }
        }
        lemma_split_single(rest, separator);
        assert(part.contains(part[part.len() - 1]));
        assert(rest.push(part.last()) =~= part);
        assert(seq![rest].drop_last().push(part) =~= seq![part]);
    }
}

/// Splitting at a separator takes back joining with it, where no part holds the separator.
pub proof fn splitting_takes_back_joining(parts: Seq<Seq<char>>, separator: char)
    requires
        parts.len() > 0,
        forall|i: int| 0 <= i < parts.len() ==> !(#[trigger] parts[i]).contains(separator),
    ensures
        split(joined(parts, seq![separator]), separator) == parts,
    decreases parts.len(),
{
    if parts.len() == 1 {
        lemma_split_single(parts[0], separator);
        assert(parts =~= seq![parts[0]]);
    } else {
        let rest = parts.drop_last();
        assert forall|i: int| 0 <= i < rest.len() implies !(#[trigger] rest[i]).contains(
            separator,
        ) by {
            assert(rest[i] == parts[i]);
        }
        splitting_takes_back_joining(rest, separator);
        let head = joined(rest, seq![separator]);
        let last = parts[parts.len() - 1];
        lemma_split_tail(head, last, separator);
        assert(head + seq![separator] + last =~= head.push(separator) + last);
        assert(rest.push(last) =~= parts);
    }
}

/// Joining with a separator takes back splitting at it, no part holds the separator, and there is
/// one part more than the text has separators.
pub proof fn joining_takes_back_splitting(chars: Seq<char>, separator: char)
    ensures
        joined(split(chars, separator), seq![separator]) == chars,
        split(chars, separator).len() == chars.filter(|ch: char| ch == separator).len() + 1,
        forall|i: int|
            0 <= i < split(chars, separator).len() ==> !(#[trigger] split(chars, separator)[i]).contains(
                separator,
            ),
    decreases chars.len(),
{
    let is_separator = |ch: char| ch == separator;
    reveal(Seq::filter);
    let all = split(chars, separator);
    if chars.len() == 0 {
        assert(chars =~= Seq::<char>::empty());
    } else {
        let rest = chars.drop_last();
        let parts = split(rest, separator);
        joining_takes_back_splitting(rest, separator);
        assert(rest.push(chars.last()) =~= chars);
        rest.lemma_filter_push(chars.last(), is_separator);
        if chars.last() == separator {
            assert(all.drop_last() =~= parts);
            assert(all.len() > 1);
            assert(joined(all, seq![separator]) =~= chars);
        } else {
            let last = parts.last().push(chars.last());
            assert(parts[parts.len() - 1] == parts.last());
            assert(all[all.len() - 1] == last);
            assert(!last.contains(separator)) by {
                if last.contains(separator) {
                    let k = choose|k: int| 0 <= k < last.len() && last[k] == separator;
                    assert(parts.last()[k] == separator);
                    assert(parts[parts.len() - 1].contains(separator));
                }
            }
            if parts.len() == 1 {
                assert(all =~= seq![last]);
                assert(joined(all, seq![separator]) =~= chars);
            } else {
                assert(all.drop_last() =~= parts.drop_last());
                assert(joined(all, seq![separator]) =~= joined(parts, seq![separator]).push(
                    chars.last(),
                ));
            }
        }
        assert forall|i: int| 0 <= i < all.len() implies !(#[trigger] all[i]).contains(
            separator,
        ) by {
            if i < all.len() - 1 {
                assert(all[i] == parts[i]);
            }
        }
    }
}

/// Blanks, tabs and line ends are white space, and no visible character of ASCII is.
pub proof fn visible_characters_are_no_space(ch: char)
    ensures
        ch == ' ' || ch == '\t' || ch == '\n' || ch == '\r' ==> is_space(ch),
        '!' <= ch <= '~' ==> !is_space(ch),
{
}

/// Trimming cuts white space off both ends, as much as there is, and nothing else.
pub proof fn trimming_cuts_only_white_space(chars: Seq<char>) -> (cut: (int, int))
    ensures
        0 <= cut.0 <= cut.1 <= chars.len(),
        trimmed(chars) == chars.subrange(cut.0, cut.1),
        forall|i: int|
            0 <= i < cut.0 || cut.1 <= i < chars.len() ==> is_space(#[trigger] chars[i]),
        cut.0 < cut.1 ==> !is_space(chars[cut.0]) && !is_space(chars[cut.1 - 1]),
{
    let start = lemma_trimmed_start(chars);
    let rest = chars.skip(start);
    let end = lemma_trimmed_end(rest);
    assert(rest.take(end) =~= chars.subrange(start, start + end));
    assert forall|i: int| 0 <= i < start || start + end <= i < chars.len() implies is_space(
        #[trigger] chars[i],
    ) by {
        if i >= start + end {
            assert(rest[i - start] == chars[i]);
        }
    }
    if end > 0 {
        assert(rest[0] == chars[start]);
        assert(rest[end - 1] == chars[start + end - 1]);
    }
    (start, start + end)
}

proof fn lemma_trimmed_start(chars: Seq<char>) -> (start: int)
    ensures
        0 <= start <= chars.len(),
        trimmed_start(chars) == chars.skip(start),
        forall|i: int| 0 <= i < start ==> is_space(#[trigger] chars[i]),
        start < chars.len() ==> !is_space(chars[start]),
    decreases chars.len(),
{
    if chars.len() > 0 && is_space(chars[0]) {
        let rest = chars.drop_first();
        let start = lemma_trimmed_start(rest);
        assert(rest.skip(start) =~= chars.skip(start + 1));
        assert forall|i: int| 0 <= i < start + 1 implies is_space(#[trigger] chars[i]) by {
            if i > 0 {
                assert(rest[i - 1] == chars[i]);
            }
        }
        start + 1
    } else {
        assert(chars.skip(0) =~= chars);
        0
    }
}

proof fn lemma_trimmed_end(chars: Seq<char>) -> (end: int)
    ensures
        0 <= end <= chars.len(),
        trimmed_end(chars) == chars.take(end),
        forall|i: int| end <= i < chars.len() ==> is_space(#[trigger] chars[i]),
        end > 0 ==> !is_space(chars[end - 1]),
    decreases chars.len(),
{
    if chars.len() > 0 && is_space(chars.last()) {
        let rest = chars.drop_last();
        let end = lemma_trimmed_end(rest);
        assert(rest.take(end) =~= chars.take(end));
        assert forall|i: int| end <= i < chars.len() implies is_space(#[trigger] chars[i]) by {
            if i < rest.len() {
                assert(rest[i] == chars[i]);
            }
        }
        end
    } else {
        assert(chars.take(chars.len() as int) =~= chars);
        chars.len() as int
    }
}

/// The number that decimal digits stand for, the last one for the ones.
pub open spec fn number_of(digits: Seq<char>) -> int
    decreases digits.len(),
{
    if digits.len() == 0 {
        0
    } else {
        10 * number_of(digits.drop_last()) + (digits.last() as int - '0' as int)
    }
}

/// A number in decimal notation stands for that number, in digits and without a zero in front.
pub proof fn decimal_notation_reads_back(n: nat)
    ensures
        number_of(decimal(n)) == n,
        decimal(n).len() > 0,
        forall|i: int| 0 <= i < decimal(n).len() ==> '0' <= #[trigger] decimal(n)[i] <= '9',
        decimal(n).len() > 1 ==> decimal(n)[0] != '0',
    decreases n,
{
    reveal_with_fuel(number_of, 2);
    if n < 10 {
        assert(decimal(n).drop_last() =~= Seq::<char>::empty());
    } else {
        let front = decimal(n / 10);
        decimal_notation_reads_back(n / 10);
        assert(decimal(n).drop_last() =~= front);
        if front.len() == 1 {
            assert(front.drop_last() =~= Seq::<char>::empty());
            assert(number_of(front) == front[0] as int - '0' as int);
        }
    }
}

} // verus!
