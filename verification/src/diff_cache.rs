//! What is kept of a diff tab between frames.

use crate::conflict_document::ConflictEditorDocument;
use crate::conflict_highlight;
use crate::conflict_highlight::{CachedConflictLines, LineHighlighter};
use crate::conflict_lines::ConflictRenderLine;
use crate::diff_state;
use crate::diff_state::{
    ConflictDocumentEntry, ConflictDocumentState, DiffRenderSnapshot, DiffTabViewMode,
    FileDiffDocument, FileDiffHunk, StashFileDiffDocument, StashFileSelection,
};
use crate::diff_text;
use crate::diff_text::{DiffPosition, DiffSelection};
use crate::model::{
    DiffLineKind, DiffLineView, DiffSectionKind, DiffSelectionKey, HighlightedSpan, RelativePath,
};
use crate::strings;
use crate::theme::ThemeId;
use crate::tree;
use crate::tree::DiffTreeNode;
use std::collections::HashMap;
use vstd::prelude::*;
use vstd::std_specs::hash::*;
use vstd::string::*;

verus! {

/// The lines of a diff that are shown: all but the file headers.
pub open spec fn shown_lines(lines: Seq<DiffLineView>) -> Seq<DiffLineView> {
    lines.filter(|line: DiffLineView| line.kind != DiffLineKind::FileHeader)
}

/// The lines show the same, one by one.
pub open spec fn same_lines(lines: Seq<DiffLineView>, others: Seq<DiffLineView>) -> bool {
    &&& lines.len() == others.len()
    &&& forall|i: int|
        #![trigger lines[i]]
        #![trigger others[i]]
        0 <= i < lines.len() ==> lines[i].same_line(others[i])
}

/// The number of characters of the longest line.
pub open spec fn longest_line(lines: Seq<DiffLineView>) -> int
    decreases lines.len(),
{
    if lines.len() == 0 {
        0
    } else {
        let rest = longest_line(lines.drop_last());
        let last = diff_text::plain_chars(lines.last().text@, lines.last().highlights).len() as int;
        if last > rest {
            last
        } else {
            rest
        }
    }
}

/// Copies the lines that are shown and measures the longest of them.
pub fn filter_lines(lines: &Vec<DiffLineView>) -> (result: (Vec<DiffLineView>, usize))
    ensures
        same_lines(result.0@, shown_lines(lines@)),
        result.1 == longest_line(shown_lines(lines@)),
{
    let ghost shows = |line: DiffLineView| line.kind != DiffLineKind::FileHeader;
    let mut shown: Vec<DiffLineView> = Vec::new();
    let mut longest: usize = 0;
    let mut i: usize = 0;
    proof {
        reveal(Seq::filter);
        assert(lines@.take(0) =~= Seq::<DiffLineView>::empty());
    }
    while i < lines.len()
        invariant
            i <= lines@.len(),
            shows == (|line: DiffLineView| line.kind != DiffLineKind::FileHeader),
            same_lines(shown@, lines@.take(i as int).filter(shows)),
            longest == longest_line(lines@.take(i as int).filter(shows)),
        decreases lines@.len() - i,
    {
        let ghost before = lines@.take(i as int).filter(shows);
        proof {
            assert(lines@.take(i + 1) =~= lines@.take(i as int).push(lines@[i as int]));
            lines@.take(i as int).lemma_filter_push(lines@[i as int], shows);
        }
        if lines[i].kind != DiffLineKind::FileHeader {
            let len = diff_text::plain_text_len(lines[i].text.as_str(), &lines[i].highlights);
            if len > longest {
                longest = len;
            }
            shown.push(lines[i].clone());
            assert(before.push(lines@[i as int]).drop_last() =~= before);
        }
        i = i + 1;
    }
    assert(lines@.take(i as int) =~= lines@);
    (shown, longest)
}

/// The shown line at an index.
pub fn filtered_line<'a>(lines: &'a Vec<DiffLineView>, index: usize) -> (line: Option<
    &'a DiffLineView,
>)
    ensures
        match line {
            Some(line) => index < shown_lines(lines@).len() && *line == shown_lines(
                lines@,
            )[index as int],
            None => index >= shown_lines(lines@).len(),
        },
{
    let ghost shows = |line: DiffLineView| line.kind != DiffLineKind::FileHeader;
    let mut seen: usize = 0;
    let mut i: usize = 0;
    proof {
        reveal(Seq::filter);
        assert(lines@.take(0) =~= Seq::<DiffLineView>::empty());
    }
    while i < lines.len()
        invariant
            i <= lines@.len(),
            seen <= i,
            seen <= index,
            shows == (|line: DiffLineView| line.kind != DiffLineKind::FileHeader),
            seen == lines@.take(i as int).filter(shows).len(),
        decreases lines@.len() - i,
    {
        proof {
            assert(lines@.take(i + 1) =~= lines@.take(i as int).push(lines@[i as int]));
            lines@.take(i as int).lemma_filter_push(lines@[i as int], shows);
        }
        if lines[i].kind != DiffLineKind::FileHeader {
            if seen == index {
                proof {
                    let rest = lines@.skip(i + 1);
                    assert(lines@ =~= lines@.take(i + 1) + rest);
                    Seq::filter_distributes_over_add(lines@.take(i + 1), rest, shows);
                }
                return Some(&lines[i]);
            }
            seen = seen + 1;
        }
        i = i + 1;
    }
    assert(lines@.take(i as int) =~= lines@);
    None
}

/// Lines that show the same have the same text for the clipboard.
proof fn lemma_same_selected_text(
    lines: Seq<DiffLineView>,
    others: Seq<DiffLineView>,
    start: DiffPosition,
    end: DiffPosition,
    upto: int,
)
    requires
        same_lines(lines, others),
        upto <= lines.len(),
    ensures
        diff_text::selected_text(lines, start, end, upto) == diff_text::selected_text(
            others,
            start,
            end,
            upto,
        ),
    decreases upto,
{
    if !(upto <= start.line || upto <= 0) {
        lemma_same_selected_text(lines, others, start, end, upto - 1);
        assert(lines[upto - 1].same_line(others[upto - 1]));
        lemma_same_plain_chars(lines[upto - 1], others[upto - 1]);
    }
}

/// Lines that show the same have the same plain text.
proof fn lemma_same_plain_chars(line: DiffLineView, other: DiffLineView)
    requires
        line.same_line(other),
    ensures
        diff_text::plain_chars(line.text@, line.highlights) == diff_text::plain_chars(
            other.text@,
            other.highlights,
        ),
        diff_text::clipboard_chars(line.text@, line.highlights) == diff_text::clipboard_chars(
            other.text@,
            other.highlights,
        ),
{
}

/// The selected text of a file's diff, ready for the clipboard.
pub fn copy_selection(selection: Option<DiffSelection>, document: Option<&FileDiffDocument>) -> (
copied: Option<String>)
    ensures
        selection is None || document is None ==> copied is None,
        selection is Some && document is Some ==> {
            let (start, end) = selection->0.ordered();
            let lines = shown_lines(document->0.lines@);
            let all = diff_text::selected_text(
                lines,
                start,
                end,
                diff_text::selection_stop(lines, end),
            );
            &&& copied is Some == (all.len() > 0)
            &&& copied is Some ==> copied->0@ == all
        },
{
    match (selection, document) {
        (Some(selection), Some(document)) => {
            let (start, end) = selection.normalized();
            let (lines, _longest) = filter_lines(&document.lines);
            proof {
                let shown = shown_lines(document.lines@);
                let stop = diff_text::selection_stop(lines@, end);
                lemma_same_selected_text(lines@, shown, start, end, stop);
            }
            diff_text::extract_selected_text(&lines, start, end)
        },
        _ => None,
    }
}

/// The number of characters of the shown line at an index.
pub fn line_length(lines: &Vec<DiffLineView>, index: usize) -> (len: Option<usize>)
    ensures
        match len {
            Some(len) => index < shown_lines(lines@).len() && len == diff_text::plain_chars(
                shown_lines(lines@)[index as int].text@,
                shown_lines(lines@)[index as int].highlights,
            ).len(),
            None => index >= shown_lines(lines@).len(),
        },
{
    match filtered_line(lines, index) {
        Some(line) => Some(diff_text::plain_text_len(line.text.as_str(), &line.highlights)),
        None => None,
    }
}

/// Whether a character is a letter or a number.
pub uninterp spec fn is_letter_or_number(ch: char) -> bool;

/// `char::is_alphanumeric`: whether a character has one of Unicode's properties Alphabetic, Nd, Nl
/// and No. What characters those are is not stated, only that the answer depends on the
/// character alone.
pub assume_specification[ char::is_alphanumeric ](ch: char) -> (result: bool)
    ensures
        result == is_letter_or_number(ch),
;

/// The character belongs to a word.
pub open spec fn in_word(ch: char) -> bool {
    is_letter_or_number(ch) || ch == '_'
}

fn is_word_char(ch: char) -> (word: bool)
    ensures
        word == in_word(ch),
{
    ch.is_alphanumeric() || ch == '_'
}

/// The range is the word around a column, or the one character there where it belongs to no word.
/// A column behind the text counts as its last character.
pub open spec fn is_word_around(chars: Seq<char>, col: int, start: int, end: int) -> bool {
    let col = if col < chars.len() {
        col
    } else {
        chars.len() - 1
    };
    if chars.len() == 0 {
        start == 0 && end == 0
    } else if !in_word(chars[col]) {
        start == col && end == col + 1
    } else {
        &&& 0 <= start <= col < end <= chars.len()
        &&& forall|i: int| start <= i < end ==> in_word(#[trigger] chars[i])
        &&& start > 0 ==> !in_word(chars[start - 1])
        &&& end < chars.len() ==> !in_word(chars[end])
    }
}

/// The word around a column of a text.
pub fn word_around(chars: &Vec<char>, col: usize) -> (bounds: (usize, usize))
    ensures
        is_word_around(chars@, col as int, bounds.0 as int, bounds.1 as int),
{
    if chars.len() == 0 {
        return (0, 0);
    }
    let col: usize = if col < chars.len() {
        col
    } else {
        chars.len() - 1
    };
    if !is_word_char(chars[col]) {
        return (col, col + 1);
    }
    let mut start: usize = col;
    while start > 0 && is_word_char(chars[start - 1])
        invariant
            start <= col < chars@.len(),
            forall|i: int| start <= i <= col ==> in_word(#[trigger] chars@[i]),
        ensures
            start <= col < chars@.len(),
            forall|i: int| start <= i <= col ==> in_word(#[trigger] chars@[i]),
            start > 0 ==> !in_word(chars@[start - 1]),
        decreases start,
    {
        start = start - 1;
    }
    let mut end: usize = col + 1;
    while end < chars.len() && is_word_char(chars[end])
        invariant
            col < end <= chars@.len(),
            in_word(chars@[col as int]),
            forall|i: int| col < i < end ==> in_word(#[trigger] chars@[i]),
        ensures
            col < end <= chars@.len(),
            forall|i: int| col < i < end ==> in_word(#[trigger] chars@[i]),
            end < chars@.len() ==> !in_word(chars@[end as int]),
        decreases chars@.len() - end,
    {
        end = end + 1;
    }
    (start, end)
}

/// The word around a column of the shown line at an index.
pub fn word_bounds_at(lines: &Vec<DiffLineView>, index: usize, col: usize) -> (bounds: Option<
    (usize, usize),
>)
    ensures
        match bounds {
            Some(bounds) => index < shown_lines(lines@).len() && is_word_around(
                diff_text::plain_chars(
                    shown_lines(lines@)[index as int].text@,
                    shown_lines(lines@)[index as int].highlights,
                ),
                col as int,
                bounds.0 as int,
                bounds.1 as int,
            ),
            None => index >= shown_lines(lines@).len(),
        },
{
    match filtered_line(lines, index) {
        Some(line) => {
            let plain = diff_text::plain_text_for_line(line.text.as_str(), &line.highlights);
            let chars = strings::collect_chars(plain.as_str());
            Some(word_around(&chars, col))
        },
        None => None,
    }
}

/// The selection is from one column of a line to another.
pub open spec fn spans_columns(
    selection: DiffSelection,
    line: usize,
    start: int,
    end: int,
    is_selecting: bool,
) -> bool {
    &&& selection.start.line == line
    &&& selection.end.line == line
    &&& selection.start.col == start
    &&& selection.end.col == end
    &&& selection.is_selecting == is_selecting
}

/// What a click in a diff selects: nothing yet on a single click, from where a drag goes on; a
/// word on a double click; and the line on a triple click. Without a line at that place, a double
/// or triple click selects nothing.
pub fn click_selection(lines: &Vec<DiffLineView>, line: usize, col: usize, clicks: usize) -> (
selection: Option<DiffSelection>)
    ensures
        ({
            let shown = shown_lines(lines@);
            let chars = diff_text::plain_chars(
                shown[line as int].text@,
                shown[line as int].highlights,
            );
            if clicks < 2 {
                selection is Some && spans_columns(
                    selection->0,
                    line,
                    col as int,
                    col as int,
                    true,
                )
            } else if line >= shown.len() {
                selection is None
            } else if clicks == 2 {
                selection is Some && is_word_around(
                    chars,
                    col as int,
                    selection->0.start.col as int,
                    selection->0.end.col as int,
                ) && spans_columns(
                    selection->0,
                    line,
                    selection->0.start.col as int,
                    selection->0.end.col as int,
                    false,
                )
            } else {
                selection is Some && spans_columns(
                    selection->0,
                    line,
                    0,
                    chars.len() as int,
                    false,
                )
            }
        }),
{
    let (start, end, is_selecting): (usize, usize, bool) = if clicks >= 3 {
        match line_length(lines, line) {
            Some(len) => (0, len, false),
            None => {
                return None;
            },
        }
    } else if clicks == 2 {
        match word_bounds_at(lines, line, col) {
            Some((start, end)) => (start, end, false),
            None => {
                return None;
            },
        }
    } else {
        (col, col, true)
    };
    Some(
        DiffSelection {
            start: DiffPosition { line, col: start },
            end: DiffPosition { line, col: end },
            is_selecting,
        },
    )
}

/// The lines of a file's diff that are shown.
#[derive(Debug)]
pub struct CachedDiffLines {
    pub selection: DiffSelectionKey,
    pub generation: u64,
    pub lines: Vec<DiffLineView>,
    pub hunk_headers: HashMap<usize, FileDiffHunk>,
    pub max_line_chars: usize,
}

/// The hunk headed by each line. Of several hunks headed by one line it is the last.
pub open spec fn hunks_by_line(hunks: Seq<FileDiffHunk>) -> Map<usize, FileDiffHunk>
    decreases hunks.len(),
{
    if hunks.len() == 0 {
        Map::empty()
    } else {
        hunks_by_line(hunks.drop_last()).insert(hunks.last().line_start, hunks.last())
    }
}

impl CachedDiffLines {
    /// The cache holds the lines of the diff.
    pub open spec fn holds(self, document: FileDiffDocument) -> bool {
        &&& self.selection@ == document.selection@
        &&& self.generation == document.generation
        &&& same_lines(self.lines@, shown_lines(document.lines@))
        &&& self.hunk_headers@ == hunks_by_line(document.hunks@)
        &&& self.max_line_chars == longest_line(shown_lines(document.lines@))
    }
}

/// Whether kept lines are those of a selection at a generation of the repository.
pub fn line_cache_matches(
    cached_selection: &DiffSelectionKey,
    cached_generation: u64,
    selection: &DiffSelectionKey,
    generation: u64,
) -> (matches: bool)
    ensures
        matches == (cached_generation == generation && cached_selection@ == selection@),
{
    cached_generation == generation && cached_selection.same_key(selection)
}

fn collect_hunks(hunks: &Vec<FileDiffHunk>) -> (headers: HashMap<usize, FileDiffHunk>)
    ensures
        headers@ == hunks_by_line(hunks@),
{
    broadcast use group_hash_axioms;

    let mut headers: HashMap<usize, FileDiffHunk> = HashMap::new();
    let mut i: usize = 0;
    assert(hunks@.take(0) =~= Seq::<FileDiffHunk>::empty());
    while i < hunks.len()
        invariant
            i <= hunks@.len(),
            headers@ == hunks_by_line(hunks@.take(i as int)),
        decreases hunks@.len() - i,
    {
        headers.insert(hunks[i].line_start, hunks[i]);
        assert(hunks@.take(i + 1).drop_last() =~= hunks@.take(i as int));
        i = i + 1;
    }
    assert(hunks@.take(i as int) =~= hunks@);
    headers
}

/// The hunk that a line heads.
pub fn hunk_at_line(headers: &HashMap<usize, FileDiffHunk>, line: usize) -> (hunk: Option<
    FileDiffHunk,
>)
    ensures
        hunk == if headers@.contains_key(line) {
            Some(headers@[line])
        } else {
            None
        },
{
    broadcast use group_hash_axioms;

    match headers.get(&line) {
        Some(hunk) => Some(*hunk),
        None => None,
    }
}

/// The kept lines are those of the tab's diff.
pub open spec fn lines_kept(cache: Option<CachedDiffLines>, snap: DiffRenderSnapshot) -> bool {
    &&& cache is Some
    &&& snap.tab.file.document is Some
    &&& cache->0.generation == snap.tab.file.document->0.generation
    &&& cache->0.selection@ == snap.tab.file.document->0.selection@
}

/// The tab shows a diff whose lines are not the kept ones.
pub open spec fn lines_restart(cache: Option<CachedDiffLines>, snap: DiffRenderSnapshot) -> bool {
    snap.tab.view_mode == DiffTabViewMode::WorkingTree && snap.tab.file.document is Some
        && !lines_kept(cache, snap)
}

/// The kept lines are those of the tab's diff. Lines of the same selection and generation are kept
/// as they are; without a diff, or where the stashes are shown, none are.
pub open spec fn lines_follow(
    before: Option<CachedDiffLines>,
    snap: DiffRenderSnapshot,
    after: Option<CachedDiffLines>,
) -> bool {
    if snap.tab.view_mode != DiffTabViewMode::WorkingTree || snap.tab.file.document is None {
        after is None
    } else if lines_kept(before, snap) {
        after == before
    } else {
        after is Some && after->0.holds(snap.tab.file.document->0)
    }
}

/// Brings the kept lines up to date and says whether the selection and the horizontal scroll
/// position start anew.
pub fn update_line_cache(cache: &mut Option<CachedDiffLines>, snap: &DiffRenderSnapshot) -> (reset:
    bool)
    ensures
        reset == lines_restart(*old(cache), *snap),
        lines_follow(*old(cache), *snap, *final(cache)),
{
    if snap.tab.view_mode != DiffTabViewMode::WorkingTree {
        *cache = None;
        return false;
    }
    let document = match &snap.tab.file.document {
        Some(document) => document,
        None => {
            *cache = None;
            return false;
        },
    };
    let hit = match &*cache {
        Some(cached) => line_cache_matches(
            &cached.selection,
            cached.generation,
            &document.selection,
            document.generation,
        ),
        None => false,
    };
    if hit {
        return false;
    }
    let (lines, max_line_chars) = filter_lines(&document.lines);
    *cache =
    Some(
        CachedDiffLines {
            selection: document.selection.clone(),
            generation: document.generation,
            lines,
            hunk_headers: collect_hunks(&document.hunks),
            max_line_chars,
        },
    );
    true
}

/// The lines of a stash file's diff that are shown.
#[derive(Debug)]
pub struct CachedStashDiffLines {
    pub selection: StashFileSelection,
    pub theme_id: ThemeId,
    pub lines: Vec<DiffLineView>,
    pub max_line_chars: usize,
    pub is_oversize: bool,
}

impl CachedStashDiffLines {
    /// The cache holds the lines of the diff in a theme.
    pub open spec fn holds(
        self,
        document: StashFileDiffDocument,
        theme_id: ThemeId,
        oversize_message: Seq<char>,
    ) -> bool {
        &&& self.selection@ == document.selection@
        &&& self.theme_id == theme_id
        &&& same_lines(self.lines@, shown_lines(document.lines@))
        &&& self.max_line_chars == longest_line(shown_lines(document.lines@))
        &&& self.is_oversize == diff_state::oversize_lines(
            shown_lines(document.lines@),
            oversize_message,
        )
    }
}

/// The lines of a stash file's diff that are shown, how long the longest is, and whether they say
/// that the diff is too large.
pub fn build_stash_line_cache(
    document: &StashFileDiffDocument,
    theme_id: ThemeId,
    oversize_message: &str,
) -> (cache: CachedStashDiffLines)
    ensures
        cache.holds(*document, theme_id, oversize_message@),
{
    let (lines, max_line_chars) = filter_lines(&document.lines);
    let is_oversize = lines.len() == 1 && lines[0].kind == DiffLineKind::BinaryNotice
        && strings::same_text(lines[0].text.as_str(), oversize_message);
    proof {
        if lines@.len() == 1 {
            assert(lines@[0].same_line(shown_lines(document.lines@)[0]));
        }
    }
    CachedStashDiffLines {
        selection: document.selection.clone(),
        theme_id,
        lines,
        max_line_chars,
        is_oversize,
    }
}

/// The stash file whose lines are kept: the selected one while the stashes are shown.
pub fn stash_line_cache_key(view_mode: DiffTabViewMode, selection: &Option<StashFileSelection>) -> (
key: Option<StashFileSelection>)
    ensures
        match (view_mode, *selection) {
            (DiffTabViewMode::Stashes, Some(selection)) => key is Some && key->0@ == selection@,
            _ => key is None,
        },
{
    if view_mode != DiffTabViewMode::Stashes {
        return None;
    }
    match selection {
        Some(selection) => Some(selection.clone()),
        None => None,
    }
}

/// Whether kept lines are those of a stash file in a theme.
pub fn stash_line_cache_matches(
    cached_selection: &StashFileSelection,
    cached_theme_id: ThemeId,
    selection: &StashFileSelection,
    theme_id: ThemeId,
) -> (matches: bool)
    ensures
        matches == (cached_theme_id == theme_id && cached_selection@ == selection@),
{
    cached_theme_id == theme_id && cached_selection.same_selection(selection)
}

/// The kept lines are those of the selected stash file in a theme.
pub open spec fn stash_lines_kept(
    cache: Option<CachedStashDiffLines>,
    snap: DiffRenderSnapshot,
    theme_id: ThemeId,
) -> bool {
    &&& cache is Some
    &&& snap.tab.stash.selected_file is Some
    &&& cache->0.theme_id == theme_id
    &&& cache->0.selection@ == snap.tab.stash.selected_file->0@
}

/// The tab shows a stash file whose lines are not the kept ones.
pub open spec fn stash_lines_restart(
    cache: Option<CachedStashDiffLines>,
    snap: DiffRenderSnapshot,
    theme_id: ThemeId,
) -> bool {
    snap.tab.view_mode == DiffTabViewMode::Stashes && snap.tab.stash.selected_file is Some
        && !stash_lines_kept(cache, snap, theme_id)
}

/// The kept lines are those of the selected stash file. Without the diff of that very file none
/// are kept.
pub open spec fn stash_lines_follow(
    before: Option<CachedStashDiffLines>,
    snap: DiffRenderSnapshot,
    theme_id: ThemeId,
    oversize_message: Seq<char>,
    after: Option<CachedStashDiffLines>,
) -> bool {
    let stash = snap.tab.stash;
    if snap.tab.view_mode != DiffTabViewMode::Stashes || stash.selected_file is None {
        after is None
    } else if stash_lines_kept(before, snap, theme_id) {
        after == before
    } else if stash.file_diff.document is Some && stash.file_diff.document->0.selection@
        == stash.selected_file->0@ {
        after is Some && after->0.holds(stash.file_diff.document->0, theme_id, oversize_message)
    } else {
        after is None
    }
}

/// Brings the kept lines of the selected stash file up to date and says whether the selection and
/// the horizontal scroll position start anew.
pub fn update_stash_line_cache(
    cache: &mut Option<CachedStashDiffLines>,
    snap: &DiffRenderSnapshot,
    theme_id: ThemeId,
    oversize_message: &str,
) -> (reset: bool)
    ensures
        reset == stash_lines_restart(*old(cache), *snap, theme_id),
        stash_lines_follow(*old(cache), *snap, theme_id, oversize_message@, *final(cache)),
{
    let selection = match stash_line_cache_key(
        snap.tab.view_mode,
        &snap.tab.stash.selected_file,
    ) {
        Some(selection) => selection,
        None => {
            *cache = None;
            return false;
        },
    };
    let hit = match &*cache {
        Some(cached) => stash_line_cache_matches(
            &cached.selection,
            cached.theme_id,
            &selection,
            theme_id,
        ),
        None => false,
    };
    if hit {
        return false;
    }
    if let Some(document) = &snap.tab.stash.file_diff.document {
        if document.selection.same_selection(&selection) {
            *cache = Some(build_stash_line_cache(document, theme_id, oversize_message));
            return true;
        }
    }
    *cache = None;
    true
}

/// The conflicted file with the given path in the editor.
pub open spec fn conflict_entry(
    entries: Seq<ConflictDocumentEntry>,
    path: Seq<Seq<char>>,
) -> Option<int>
    decreases entries.len(),
{
    if entries.len() == 0 {
        None
    } else {
        match conflict_entry(entries.drop_last(), path) {
            Some(index) => Some(index),
            None => if entries.last().relative_path@ == path {
                Some(entries.len() - 1)
            } else {
                None
            },
        }
    }
}

proof fn lemma_conflict_entry_prefix(
    entries: Seq<ConflictDocumentEntry>,
    path: Seq<Seq<char>>,
    count: int,
)
    requires
        0 <= count <= entries.len(),
        conflict_entry(entries.take(count), path) is Some,
    ensures
        conflict_entry(entries, path) == conflict_entry(entries.take(count), path),
    decreases entries.len(),
{
    if count < entries.len() {
        assert(entries.drop_last().take(count) =~= entries.take(count));
        lemma_conflict_entry_prefix(entries.drop_last(), path, count);
    } else {
        assert(entries.take(count) =~= entries);
    }
}

/// Finds the conflicted file with the given path in the editor.
pub fn find_conflict_entry(entries: &Vec<ConflictDocumentEntry>, path: &RelativePath) -> (index:
    Option<usize>)
    ensures
        match index {
            Some(index) => index < entries@.len() && conflict_entry(entries@, path@) == Some(
                index as int,
            ),
            None => conflict_entry(entries@, path@) is None,
        },
{
    let mut i: usize = 0;
    assert(entries@.take(0) =~= Seq::<ConflictDocumentEntry>::empty());
    while i < entries.len()
        invariant
            i <= entries@.len(),
            conflict_entry(entries@.take(i as int), path@) is None,
        decreases entries@.len() - i,
    {
        assert(entries@.take(i + 1).drop_last() =~= entries@.take(i as int));
        if entries[i].relative_path.same_path(path) {
            proof {
                assert(conflict_entry(entries@.take(i + 1), path@) == Some(i as int));
                lemma_conflict_entry_prefix(entries@, path@, i + 1);
            }
            return Some(i);
        }
        i = i + 1;
    }
    assert(entries@.take(i as int) =~= entries@);
    None
}

/// The conflict document that a tab shows.
pub open spec fn shown_conflict(snap: DiffRenderSnapshot) -> Option<ConflictEditorDocument> {
    if snap.tab.view_mode == DiffTabViewMode::WorkingTree && snap.tab.selected_file is Some
        && snap.tab.selected_file->0.section == DiffSectionKind::Conflicted {
        match conflict_entry(
            snap.tab.conflict_documents@,
            snap.tab.selected_file->0.relative_path@,
        ) {
            Some(index) => match snap.tab.conflict_documents@[index].state {
                ConflictDocumentState::Loaded(document) => Some(document),
                _ => None,
            },
            None => None,
        }
    } else {
        None
    }
}

/// The conflict document that a tab shows.
pub fn selected_conflict_document<'a>(snap: &DiffRenderSnapshot<'a>) -> (document: Option<
    &'a ConflictEditorDocument,
>)
    ensures
        match document {
            Some(document) => shown_conflict(*snap) == Some(*document),
            None => shown_conflict(*snap) is None,
        },
        document is Some ==> snap.tab.selected_file is Some,
{
    if snap.tab.view_mode != DiffTabViewMode::WorkingTree {
        return None;
    }
    let tab = snap.tab;
    let selection = match &tab.selected_file {
        Some(selection) => selection,
        None => {
            return None;
        },
    };
    if selection.section != DiffSectionKind::Conflicted {
        return None;
    }
    match find_conflict_entry(&tab.conflict_documents, &selection.relative_path) {
        Some(index) => match &tab.conflict_documents[index].state {
            ConflictDocumentState::Loaded(document) => Some(document),
            _ => None,
        },
        None => None,
    }
}

/// The number of characters of the longest line of a conflict document.
pub open spec fn longest_conflict_line(lines: Seq<ConflictRenderLine>) -> int
    decreases lines.len(),
{
    if lines.len() == 0 {
        0
    } else {
        let rest = longest_conflict_line(lines.drop_last());
        let last = diff_text::plain_chars(
            lines.last().raw_text@,
            lines.last().highlights,
        ).len() as int;
        if last > rest {
            last
        } else {
            rest
        }
    }
}

fn measure_conflict_lines(lines: &Vec<ConflictRenderLine>) -> (longest: usize)
    ensures
        longest == longest_conflict_line(lines@),
{
    let mut longest: usize = 0;
    let mut i: usize = 0;
    assert(lines@.take(0) =~= Seq::<ConflictRenderLine>::empty());
    while i < lines.len()
        invariant
            i <= lines@.len(),
            longest == longest_conflict_line(lines@.take(i as int)),
        decreases lines@.len() - i,
    {
        let len = diff_text::plain_text_len(lines[i].raw_text.as_str(), &lines[i].highlights);
        if len > longest {
            longest = len;
        }
        assert(lines@.take(i + 1).drop_last() =~= lines@.take(i as int));
        i = i + 1;
    }
    assert(lines@.take(i as int) =~= lines@);
    longest
}

/// The kept lines are of the same file, generation and theme.
pub open spec fn conflict_cache_usable(
    cache: Option<CachedConflictLines>,
    selection: DiffSelectionKey,
    document: ConflictEditorDocument,
    theme_id: ThemeId,
) -> bool {
    &&& cache is Some
    &&& cache->0.selection@ == selection@
    &&& cache->0.generation == document.generation
    &&& cache->0.theme_id == theme_id
}

/// The kept lines are those of the conflict document as it stands.
pub open spec fn conflict_cache_hit(
    cache: Option<CachedConflictLines>,
    selection: DiffSelectionKey,
    document: ConflictEditorDocument,
    theme_id: ThemeId,
) -> bool {
    conflict_cache_usable(cache, selection, document, theme_id) && cache->0.version
        == document.version
}

/// The kept lines of the conflict editor are those of its text. Lines of the same version are kept
/// as they are, and others are what the highlighter makes of the text.
pub open spec fn conflict_lines_follow<
    S: Fn(u64, &str) -> (u64, Vec<HighlightedSpan>),
    T: Fn(&str) -> Option<Vec<HighlightedSpan>>,
>(
    before: Option<CachedConflictLines>,
    snap: DiffRenderSnapshot,
    theme_id: ThemeId,
    highlighter: LineHighlighter<S, T>,
    after: Option<CachedConflictLines>,
) -> bool {
    match shown_conflict(snap) {
        None => after is None,
        Some(document) => if conflict_cache_hit(
            before,
            snap.tab.selected_file->0,
            document,
            theme_id,
        ) {
            after == before
        } else {
            &&& conflict_cache_hit(after, snap.tab.selected_file->0, document, theme_id)
            &&& after->0.raw_text@ == document.raw_text@
            &&& after->0.max_line_chars == longest_conflict_line(after->0.lines@)
            &&& after->0.built_by(highlighter)
        },
    }
}

/// Brings the kept lines of the conflict editor up to date. Lines of another version of the same
/// file are where the new ones are highlighted from. Lines that are kept under a file, generation
/// and theme are what the highlighter makes of them.
pub fn update_conflict_cache<
    S: Fn(u64, &str) -> (u64, Vec<HighlightedSpan>),
    T: Fn(&str) -> Option<Vec<HighlightedSpan>>,
>(
    cache: &mut Option<CachedConflictLines>,
    snap: &DiffRenderSnapshot,
    theme_id: ThemeId,
    highlighter: &LineHighlighter<S, T>,
)
    requires
        highlighter.sound(),
        shown_conflict(*snap) is Some && conflict_cache_usable(
            *old(cache),
            snap.tab.selected_file->0,
            shown_conflict(*snap)->0,
            theme_id,
        ) ==> (*old(cache))->0.built_by(*highlighter),
    ensures
        conflict_lines_follow(*old(cache), *snap, theme_id, *highlighter, *final(cache)),
{
    let document = match selected_conflict_document(snap) {
        Some(document) => document,
        None => {
            *cache = None;
            return;
        },
    };
    let selection = match &snap.tab.selected_file {
        Some(selection) => selection,
        None => {
            *cache = None;
            return;
        },
    };
    let usable = match &*cache {
        Some(cached) => cached.selection.same_key(selection) && cached.generation
            == document.generation && cached.theme_id == theme_id,
        None => false,
    };
    if usable {
        let current = match &*cache {
            Some(cached) => cached.version == document.version,
            None => false,
        };
        if current {
            return;
        }
    }
    let prior: Option<&CachedConflictLines> = if usable {
        match &*cache {
            Some(cached) => Some(cached),
            None => None,
        }
    } else {
        None
    };
    let (lines, anchors) = conflict_highlight::build_conflict_render_lines_with_cache(
        document.raw_text.as_str(),
        highlighter,
        prior,
    );
    let max_line_chars = measure_conflict_lines(&lines);
    *cache =
    Some(
        CachedConflictLines {
            selection: selection.clone(),
            generation: document.generation,
            version: document.version,
            theme_id,
            raw_text: document.raw_text.clone(),
            lines,
            anchors,
            max_line_chars,
        },
    );
}

/// The trees of the changed files, and the files in the order in which they are seen.
#[derive(Debug)]
pub struct CachedIndexTree {
    pub generation: Option<u64>,
    pub conflicted_tree: Vec<DiffTreeNode>,
    pub staged_tree: Vec<DiffTreeNode>,
    pub unstaged_tree: Vec<DiffTreeNode>,
    pub visible_file_order: Vec<DiffSelectionKey>,
}

/// The files of a section as a tree. Without an index there are none.
pub open spec fn section_tree(snap: DiffRenderSnapshot, section: DiffSectionKind) -> Seq<
    tree::NodeView,
> {
    match snap.tab.index.document {
        Some(document) => tree::diff_tree(
            tree::file_views(diff_state::section_files(document, section)),
        ),
        None => Seq::empty(),
    }
}

impl CachedIndexTree {
    /// The cache holds the trees of the tab: conflicted files are seen first, then the staged,
    /// then the unstaged ones.
    pub open spec fn holds(self, snap: DiffRenderSnapshot) -> bool {
        let conflicted = section_tree(snap, DiffSectionKind::Conflicted);
        let staged = section_tree(snap, DiffSectionKind::Staged);
        let unstaged = section_tree(snap, DiffSectionKind::Unstaged);
        &&& self.generation == snap.index_generation
        &&& tree::tree_view(self.conflicted_tree@) == conflicted
        &&& tree::tree_view(self.staged_tree@) == staged
        &&& tree::tree_view(self.unstaged_tree@) == unstaged
        &&& tree::key_views(self.visible_file_order@) == tree::file_keys(
            conflicted,
            DiffSectionKind::Conflicted,
        ) + tree::file_keys(staged, DiffSectionKind::Staged) + tree::file_keys(
            unstaged,
            DiffSectionKind::Unstaged,
        )
    }
}

/// The kept trees are those of the tab. Trees of the same generation are kept as they are; where
/// the stashes are shown, none are.
pub open spec fn tree_follows(
    before: Option<CachedIndexTree>,
    snap: DiffRenderSnapshot,
    after: Option<CachedIndexTree>,
) -> bool {
    if snap.tab.view_mode != DiffTabViewMode::WorkingTree {
        after is None
    } else if before is Some && before->0.generation == snap.index_generation {
        after == before
    } else {
        after is Some && after->0.holds(snap)
    }
}

/// Brings the kept trees up to date.
pub fn update_tree_cache(cache: &mut Option<CachedIndexTree>, snap: &DiffRenderSnapshot)
    ensures
        tree_follows(*old(cache), *snap, *final(cache)),
{
    if snap.tab.view_mode != DiffTabViewMode::WorkingTree {
        *cache = None;
        return;
    }
    let hit = match &*cache {
        Some(cached) => same_generation(cached.generation, snap.index_generation),
        None => false,
    };
    if hit {
        return;
    }
    let (conflicted_tree, staged_tree, unstaged_tree) = match &snap.tab.index.document {
        Some(document) => (
            tree::build_diff_tree(&document.conflicted_files),
            tree::build_diff_tree(&document.staged_files),
            tree::build_diff_tree(&document.unstaged_files),
        ),
        None => (Vec::new(), Vec::new(), Vec::new()),
    };
    let mut visible_file_order: Vec<DiffSelectionKey> = Vec::new();
    assert(tree::key_views(visible_file_order@) =~= Seq::empty());
    tree::collect_file_keys(
        &conflicted_tree,
        DiffSectionKind::Conflicted,
        &mut visible_file_order,
    );
    tree::collect_file_keys(&staged_tree, DiffSectionKind::Staged, &mut visible_file_order);
    tree::collect_file_keys(&unstaged_tree, DiffSectionKind::Unstaged, &mut visible_file_order);
    *cache =
    Some(
        CachedIndexTree {
            generation: snap.index_generation,
            conflicted_tree,
            staged_tree,
            unstaged_tree,
            visible_file_order,
        },
    );
}

fn same_generation(a: Option<u64>, b: Option<u64>) -> (same: bool)
    ensures
        same == (a == b),
{
    match (a, b) {
        (Some(a), Some(b)) => a == b,
        (None, None) => true,
        _ => false,
    }
}

/// A line is kept as the head of a hunk exactly where a hunk begins there, and it then heads the
/// last of the hunks that begin there: that very hunk, not another of the file.
pub proof fn kept_hunk_begins_at_its_line(hunks: Seq<FileDiffHunk>, line: usize)
    ensures
        hunks_by_line(hunks).contains_key(line) == exists|k: int|
            0 <= k < hunks.len() && (#[trigger] hunks[k]).line_start == line,
        hunks_by_line(hunks).contains_key(line) ==> exists|k: int|
            0 <= k < hunks.len() && #[trigger] hunks[k] == hunks_by_line(hunks)[line]
                && hunks[k].line_start == line && forall|j: int|
                k < j < hunks.len() ==> (#[trigger] hunks[j]).line_start != line,
    decreases hunks.len(),
{
    if hunks.len() > 0 {
        let rest = hunks.drop_last();
        let last = hunks[hunks.len() - 1];
        kept_hunk_begins_at_its_line(rest, line);
        if last.line_start == line {
            assert(hunks[hunks.len() - 1] == hunks_by_line(hunks)[line]);
        } else {
            if exists|k: int| 0 <= k < hunks.len() && (#[trigger] hunks[k]).line_start == line {
                let k = choose|k: int|
                    0 <= k < hunks.len() && (#[trigger] hunks[k]).line_start == line;
                assert(rest[k].line_start == line);
            }
            if hunks_by_line(rest).contains_key(line) {
                let k = choose|k: int|
                    0 <= k < rest.len() && #[trigger] rest[k] == hunks_by_line(rest)[line]
                        && rest[k].line_start == line && forall|j: int|
                        k < j < rest.len() ==> (#[trigger] rest[j]).line_start != line;
                assert(hunks[k] == rest[k]);
                assert forall|j: int| k < j < hunks.len() implies (
                #[trigger] hunks[j]).line_start != line by {
                    if j < rest.len() {
                        assert(rest[j] == hunks[j]);
                    }
                }
                assert(hunks[k] == hunks_by_line(hunks)[line]);
            }
        }
    }
}

/// Where no two hunks begin at the same line, each hunk is found under the line that it begins at.
pub proof fn every_hunk_is_found_at_its_line(hunks: Seq<FileDiffHunk>, index: int)
    requires
        0 <= index < hunks.len(),
        forall|i: int, j: int|
            0 <= i < j < hunks.len() ==> (#[trigger] hunks[i]).line_start != (
            #[trigger] hunks[j]).line_start,
    ensures
        hunks_by_line(hunks).contains_key(hunks[index].line_start),
        hunks_by_line(hunks)[hunks[index].line_start] == hunks[index],
{
    let line = hunks[index].line_start;
    kept_hunk_begins_at_its_line(hunks, line);
    let k = choose|k: int|
        0 <= k < hunks.len() && #[trigger] hunks[k] == hunks_by_line(hunks)[line]
            && hunks[k].line_start == line;
    if k < index {
        assert(hunks[k].line_start != hunks[index].line_start);
    } else if index < k {
        assert(hunks[index].line_start != hunks[k].line_start);
    }
}

/// The shown lines of a diff are those that are no file header, each of them as often as it stands
/// in the diff and in the same order: the shown line `i` is the line of the diff before which `i`
/// lines are shown.
pub proof fn every_line_but_headers_is_shown(lines: Seq<DiffLineView>, at: int)
    requires
        0 <= at < lines.len(),
    ensures
        lines[at].kind != DiffLineKind::FileHeader ==> {
            let before = shown_lines(lines.take(at)).len() as int;
            before < shown_lines(lines).len() && shown_lines(lines)[before] == lines[at]
        },
        shown_lines(lines.take(at + 1)).len() == shown_lines(lines.take(at)).len()
            + if lines[at].kind == DiffLineKind::FileHeader {
            0int
        } else {
            1int
        },
        shown_lines(lines.take(0)).len() == 0,
{
    let shows = |line: DiffLineView| line.kind != DiffLineKind::FileHeader;
    reveal(Seq::filter);
    assert(lines.take(0) =~= Seq::<DiffLineView>::empty());
    assert(lines.take(at + 1) =~= lines.take(at).push(lines[at]));
    lines.take(at).lemma_filter_push(lines[at], shows);
    let rest = lines.skip(at + 1);
    assert(lines =~= lines.take(at + 1) + rest);
    Seq::filter_distributes_over_add(lines.take(at + 1), rest, shows);
}

/// The longest line is as long as one of the lines and no line is longer.
pub proof fn longest_line_is_the_maximum(lines: Seq<DiffLineView>)
    ensures
        forall|i: int|
            0 <= i < lines.len() ==> diff_text::plain_chars(
                (#[trigger] lines[i]).text@,
                lines[i].highlights,
            ).len() <= longest_line(lines),
        lines.len() > 0 ==> exists|i: int|
            0 <= i < lines.len() && diff_text::plain_chars(
                (#[trigger] lines[i]).text@,
                lines[i].highlights,
            ).len() == longest_line(lines),
        lines.len() == 0 ==> longest_line(lines) == 0,
    decreases lines.len(),
{
    if lines.len() > 0 {
        let rest = lines.drop_last();
        longest_line_is_the_maximum(rest);
        let last = lines[lines.len() - 1];
        assert forall|i: int| 0 <= i < lines.len() implies diff_text::plain_chars(
            (#[trigger] lines[i]).text@,
            lines[i].highlights,
        ).len() <= longest_line(lines) by {
            if i < rest.len() {
                assert(rest[i] == lines[i]);
            }
        }
        if diff_text::plain_chars(last.text@, last.highlights).len() == longest_line(lines) {
            assert(diff_text::plain_chars(
                lines[lines.len() - 1].text@,
                lines[lines.len() - 1].highlights,
            ).len() == longest_line(lines));
        } else {
            if rest.len() == 0 {
                assert(longest_line(rest) == 0);
            } else {
                let i = choose|i: int|
                    0 <= i < rest.len() && diff_text::plain_chars(
                        (#[trigger] rest[i]).text@,
                        rest[i].highlights,
                    ).len() == longest_line(rest);
                assert(lines[i] == rest[i]);
            }
        }
    }
}

/// A path finds the first conflicted file that has it, and none only where no file has it.
pub proof fn path_finds_its_conflict(entries: Seq<ConflictDocumentEntry>, path: Seq<Seq<char>>)
    ensures
        match conflict_entry(entries, path) {
            Some(index) => {
                &&& 0 <= index < entries.len()
                &&& entries[index].relative_path@ == path
                &&& forall|i: int| 0 <= i < index ==> (#[trigger] entries[i]).relative_path@ != path
            },
            None => forall|i: int| 0 <= i < entries.len() ==> (#[trigger] entries[i]).relative_path@
                != path,
        },
    decreases entries.len(),
{
    if entries.len() > 0 {
        let rest = entries.drop_last();
        path_finds_its_conflict(rest, path);
        assert forall|i: int| 0 <= i < rest.len() implies rest[i] == #[trigger] entries[i] by {}
    }
}

/// The conflict document that is shown is that of the selected file, which is a conflicted one.
pub proof fn shown_conflict_is_that_of_the_selected_file(snap: DiffRenderSnapshot) -> (index: int)
    requires
        shown_conflict(snap) is Some,
    ensures
        snap.tab.view_mode is WorkingTree,
        snap.tab.selected_file is Some,
        snap.tab.selected_file->0.section is Conflicted,
        0 <= index < snap.tab.conflict_documents@.len(),
        snap.tab.conflict_documents@[index].relative_path@
            == snap.tab.selected_file->0.relative_path@,
        snap.tab.conflict_documents@[index].state == ConflictDocumentState::Loaded(
            shown_conflict(snap)->0,
        ),
{
    let path = snap.tab.selected_file->0.relative_path@;
    path_finds_its_conflict(snap.tab.conflict_documents@, path);
    conflict_entry(snap.tab.conflict_documents@, path)->0
}

/// The width of the conflict editor is that of its longest line: no line is longer, and one is as
/// long.
pub proof fn longest_conflict_line_is_the_maximum(lines: Seq<ConflictRenderLine>, index: int) -> (at:
    int)
    requires
        lines.len() > 0,
    ensures
        0 <= index < lines.len() ==> diff_text::plain_chars(
            lines[index].raw_text@,
            lines[index].highlights,
        ).len() <= longest_conflict_line(lines),
        0 <= at < lines.len(),
        longest_conflict_line(lines) == diff_text::plain_chars(
            lines[at].raw_text@,
            lines[at].highlights,
        ).len(),
    decreases lines.len(),
{
    let rest = lines.drop_last();
    let last = lines.len() - 1;
    if rest.len() == 0 {
        last
    } else {
        let at = longest_conflict_line_is_the_maximum(rest, index);
        if diff_text::plain_chars(lines.last().raw_text@, lines.last().highlights).len()
            > longest_conflict_line(rest) {
            last
        } else {
            at
        }
    }
}

/// The lines that are kept are those of the diff that is loaded: lines of another file or of another
/// generation are never shown in its place.
pub proof fn kept_lines_are_of_the_loaded_diff(
    before: Option<CachedDiffLines>,
    snap: DiffRenderSnapshot,
    after: Option<CachedDiffLines>,
)
    requires
        lines_follow(before, snap, after),
    ensures
        after is Some ==> {
            &&& snap.tab.view_mode is WorkingTree
            &&& snap.tab.file.document is Some
            &&& after->0.generation == snap.tab.file.document->0.generation
            &&& after->0.selection@ == snap.tab.file.document->0.selection@
        },
        snap.tab.view_mode is WorkingTree && snap.tab.file.document is Some ==> after is Some,
        lines_restart(before, snap) ==> after is Some && same_lines(
            after->0.lines@,
            shown_lines(snap.tab.file.document->0.lines@),
        ),
        before is Some && lines_restart(before, snap) ==> after != before,
{
}

/// The lines that are kept of a stash are those of the selected file in the current theme.
pub proof fn kept_stash_lines_are_of_the_selected_file(
    before: Option<CachedStashDiffLines>,
    snap: DiffRenderSnapshot,
    theme_id: ThemeId,
    oversize_message: Seq<char>,
    after: Option<CachedStashDiffLines>,
)
    requires
        stash_lines_follow(before, snap, theme_id, oversize_message, after),
    ensures
        after is Some ==> {
            &&& snap.tab.view_mode is Stashes
            &&& snap.tab.stash.selected_file is Some
            &&& after->0.selection@ == snap.tab.stash.selected_file->0@
            &&& after->0.theme_id == theme_id
        },
        stash_lines_restart(before, snap, theme_id) ==> before is None || after != before,
{
}

/// The kept trees are of the generation of the index, and are kept only while the working tree is
/// shown. New trees hold every section's own files.
pub proof fn kept_trees_are_of_the_current_index(
    before: Option<CachedIndexTree>,
    snap: DiffRenderSnapshot,
    after: Option<CachedIndexTree>,
)
    requires
        tree_follows(before, snap, after),
    ensures
        after is Some == snap.tab.view_mode is WorkingTree,
        after is Some ==> after->0.generation == snap.index_generation,
        after is Some && before is None && snap.tab.index.document is Some ==> {
            let document = snap.tab.index.document->0;
            &&& tree::tree_view(after->0.staged_tree@) == tree::diff_tree(
                tree::file_views(document.staged_files@),
            )
            &&& tree::tree_view(after->0.unstaged_tree@) == tree::diff_tree(
                tree::file_views(document.unstaged_files@),
            )
            &&& tree::tree_view(after->0.conflicted_tree@) == tree::diff_tree(
                tree::file_views(document.conflicted_files@),
            )
        },
{
}

/// Lines of the conflict editor are kept only for the same file, generation, theme and version.
pub proof fn conflict_lines_are_kept_for_the_same_text(
    cache: Option<CachedConflictLines>,
    selection: DiffSelectionKey,
    document: ConflictEditorDocument,
    theme_id: ThemeId,
)
    requires
        conflict_cache_hit(cache, selection, document, theme_id),
    ensures
        cache is Some,
        cache->0.selection@ == selection@,
        cache->0.generation == document.generation,
        cache->0.version == document.version,
        cache->0.theme_id == theme_id,
{
}

/// The word around a column is the longest stretch of letters, numbers and underscores that holds it:
/// two stretches that are words around a column are the same.
pub proof fn words_have_definite_bounds(
    chars: Seq<char>,
    col: int,
    start: int,
    end: int,
    other_start: int,
    other_end: int,
)
    requires
        0 <= col,
        is_word_around(chars, col, start, end),
        is_word_around(chars, col, other_start, other_end),
    ensures
        start == other_start,
        end == other_end,
        col < chars.len() ==> start <= col < end,
        0 <= start <= end <= chars.len(),
        col < chars.len() && chars[col] == '_' ==> forall|i: int|
            start <= i < end ==> (#[trigger] chars[i]) == '_' || is_letter_or_number(chars[i]),
{
    if chars.len() > 0 {
        let at = if col < chars.len() {
            col
        } else {
            chars.len() - 1
        };
        if in_word(chars[at]) {
            if start < other_start {
                assert(in_word(chars[other_start - 1]));
            }
            if other_start < start {
                assert(in_word(chars[start - 1]));
            }
            if end < other_end {
                assert(in_word(chars[end]));
            }
            if other_end < end {
                assert(in_word(chars[other_end]));
            }
        }
    }
}

/// Where the lines are made anew, every hunk of the loaded diff is found at the line where it begins,
/// and nothing is found at other lines. Where they are not, they stay as they are.
pub proof fn collected_hunks_begin_at_their_lines(
    cache: &mut Option<CachedDiffLines>,
    snap: &DiffRenderSnapshot,
    reset: bool,
    line: usize,
)
    requires
        call_ensures(update_line_cache, (cache, snap), reset),
    ensures
        reset ==> {
            let hunks = snap.tab.file.document->0.hunks@;
            let headers = (*final(cache))->0.hunk_headers@;
            &&& *final(cache) is Some
            &&& snap.tab.file.document is Some
            &&& headers.contains_key(line) == exists|k: int|
                0 <= k < hunks.len() && (#[trigger] hunks[k]).line_start == line
            &&& headers.contains_key(line) ==> headers[line].line_start == line && hunks.contains(
                headers[line],
            )
        },
        !reset ==> *final(cache) == *old(cache) || *final(cache) is None,
{
    if reset {
        kept_hunk_begins_at_its_line(snap.tab.file.document->0.hunks@, line);
    }
}

} // verus!
