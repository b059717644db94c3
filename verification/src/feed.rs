//! The feed of changes and the detail of one of its entries.

use crate::diff_cache;
use crate::diff_cache::CachedDiffLines;
use crate::diff_rows;
use crate::diff_rows::{FileHeader, FileHeaderView, RowMarks};
use crate::diff_state;
use crate::diff_state::{FileDiffDocument, FileDiffHunk};
use crate::diff_text;
use crate::diff_text::{DiffPosition, DiffSelection};
use crate::keys;
use crate::keys::Modifiers;
use crate::model;
use crate::model::{
    ChangedFile, ChangedFileView, DiffSectionKind, DiffSelectionKey, DiffSelectionKeyView,
    RelativePath,
};
use crate::strings;
use crate::theme::{OrcaTheme, Tint};
use crate::tree;
use crate::tree::DiffTreeNode;
use crate::widgets;
use crate::widgets::{ColoredText, PanelMessage, PanelText};
use std::collections::HashMap;
use vstd::prelude::*;
use vstd::std_specs::hash::*;

verus! {

/// What part of a project an entry of the feed is about.
#[derive(Clone, Copy, Debug, PartialEq, Eq, Structural)]
pub enum FeedScopeKind {
    ProjectRoot,
    ManagedWorktree,
}

/// Whether an entry of the feed shows the state when watching began, or a change since.
#[derive(Clone, Copy, Debug, PartialEq, Eq, Structural)]
pub enum FeedEntryOrigin {
    BootstrapSnapshot,
    LiveDelta,
}

/// The diff of a file as it was captured.
#[derive(Debug)]
pub struct CapturedDiffFile {
    pub selection: DiffSelectionKey,
    pub file: ChangedFile,
    pub document: FileDiffDocument,
}

/// A file whose diff could not be captured.
#[derive(Debug)]
pub struct CapturedDiffFailure {
    pub selection: DiffSelectionKey,
    pub relative_path: RelativePath,
}

/// What was captured for an entry of the feed.
#[derive(Debug)]
pub struct CapturedDiff {
    pub files: Vec<CapturedDiffFile>,
    pub failed_files: Vec<CapturedDiffFailure>,
}

/// How far an entry of the feed is captured.
#[derive(Debug)]
pub enum FeedCaptureState {
    Pending,
    Ready(CapturedDiff),
    Truncated(CapturedDiff),
    Failed { message: String },
}

/// An entry of the feed.
#[derive(Debug)]
pub struct ChangeFeedEntry {
    pub id: u64,
    pub scope_root: String,
    pub scope_kind: FeedScopeKind,
    pub worktree_name: Option<String>,
    pub branch_name: String,
    pub source_terminal_id: Option<String>,
    pub generation: u64,
    pub origin: FeedEntryOrigin,
    pub changed_file_count: usize,
    pub insertions: usize,
    pub deletions: usize,
    pub files: Vec<ChangedFile>,
    pub capture_state: FeedCaptureState,
}

/// The captured files of an entry.
pub open spec fn captured_files_of(entry: ChangeFeedEntry) -> Seq<CapturedDiffFile> {
    match entry.capture_state {
        FeedCaptureState::Ready(captured) => captured.files@,
        FeedCaptureState::Truncated(captured) => captured.files@,
        _ => Seq::empty(),
    }
}

/// The files of an entry that could not be captured.
pub open spec fn captured_failures_of(entry: ChangeFeedEntry) -> Seq<CapturedDiffFailure> {
    match entry.capture_state {
        FeedCaptureState::Ready(captured) => captured.failed_files@,
        FeedCaptureState::Truncated(captured) => captured.failed_files@,
        _ => Seq::empty(),
    }
}

/// What was captured for an entry, where anything was.
pub fn captured_diff(entry: &ChangeFeedEntry) -> (captured: Option<&CapturedDiff>)
    ensures
        match captured {
            Some(captured) => captured.files@ == captured_files_of(*entry)
                && captured.failed_files@ == captured_failures_of(*entry) && (
            entry.capture_state is Ready || entry.capture_state is Truncated),
            None => captured_files_of(*entry).len() == 0 && captured_failures_of(*entry).len() == 0
                && (entry.capture_state is Pending || entry.capture_state is Failed),
        },
{
    match &entry.capture_state {
        FeedCaptureState::Ready(captured) => Some(captured),
        FeedCaptureState::Truncated(captured) => Some(captured),
        _ => None,
    }
}

/// The captured files of a section.
pub open spec fn files_in_section(
    files: Seq<CapturedDiffFile>,
    section: DiffSectionKind,
) -> Seq<ChangedFileView>
    decreases files.len(),
{
    if files.len() == 0 {
        Seq::empty()
    } else {
        let rest = files_in_section(files.drop_last(), section);
        if files.last().selection.section == section {
            rest.push(files.last().file@)
        } else {
            rest
        }
    }
}

/// The trees of the captured files, and the files in the order in which they are seen.
#[derive(Debug)]
pub struct CapturedTreeCache {
    pub staged_tree: Vec<DiffTreeNode>,
    pub unstaged_tree: Vec<DiffTreeNode>,
    pub visible_file_order: Vec<DiffSelectionKey>,
    pub staged_count: usize,
    pub unstaged_count: usize,
}

/// The files of an entry in the order in which they are seen: the staged ones first.
pub open spec fn visible_order(entry: ChangeFeedEntry) -> Seq<DiffSelectionKeyView> {
    let files = captured_files_of(entry);
    tree::file_keys(
        tree::diff_tree(files_in_section(files, DiffSectionKind::Staged)),
        DiffSectionKind::Staged,
    ) + tree::file_keys(
        tree::diff_tree(files_in_section(files, DiffSectionKind::Unstaged)),
        DiffSectionKind::Unstaged,
    )
}

impl CapturedTreeCache {
    /// The cache holds the trees of an entry.
    pub open spec fn holds(self, entry: ChangeFeedEntry) -> bool {
        let files = captured_files_of(entry);
        let staged = files_in_section(files, DiffSectionKind::Staged);
        let unstaged = files_in_section(files, DiffSectionKind::Unstaged);
        &&& tree::tree_view(self.staged_tree@) == tree::diff_tree(staged)
        &&& tree::tree_view(self.unstaged_tree@) == tree::diff_tree(unstaged)
        &&& tree::key_views(self.visible_file_order@) == visible_order(entry)
        &&& self.staged_count == staged.len()
        &&& self.unstaged_count == unstaged.len()
    }
}

fn collect_section(files: &Vec<CapturedDiffFile>, section: DiffSectionKind) -> (chosen: Vec<
    ChangedFile,
>)
    ensures
        tree::file_views(chosen@) == files_in_section(files@, section),
{
    let mut chosen: Vec<ChangedFile> = Vec::new();
    let mut i: usize = 0;
    assert(files@.take(0) =~= Seq::<CapturedDiffFile>::empty());
    assert(tree::file_views(chosen@) =~= files_in_section(files@.take(0), section));
    while i < files.len()
        invariant
            i <= files@.len(),
            tree::file_views(chosen@) == files_in_section(files@.take(i as int), section),
        decreases files@.len() - i,
    {
        let ghost before = tree::file_views(chosen@);
        assert(files@.take(i + 1).drop_last() =~= files@.take(i as int));
        if files[i].selection.section == section {
            let file = files[i].file.clone();
            chosen.push(file);
            assert(tree::file_views(chosen@) =~= before.push(file@));
        }
        i = i + 1;
    }
    assert(files@.take(i as int) =~= files@);
    chosen
}

/// The trees of the captured files of an entry.
pub fn build_captured_tree_cache(entry: &ChangeFeedEntry) -> (cache: CapturedTreeCache)
    ensures
        cache.holds(*entry),
{
    let none: Vec<CapturedDiffFile> = Vec::new();
    let files = match captured_diff(entry) {
        Some(captured) => &captured.files,
        None => &none,
    };
    assert(files@ =~= captured_files_of(*entry));
    let staged = collect_section(files, DiffSectionKind::Staged);
    let unstaged = collect_section(files, DiffSectionKind::Unstaged);
    let staged_tree = tree::build_diff_tree(&staged);
    let unstaged_tree = tree::build_diff_tree(&unstaged);
    let mut visible_file_order: Vec<DiffSelectionKey> = Vec::new();
    assert(tree::key_views(visible_file_order@) =~= Seq::empty());
    tree::collect_file_keys(&staged_tree, DiffSectionKind::Staged, &mut visible_file_order);
    tree::collect_file_keys(&unstaged_tree, DiffSectionKind::Unstaged, &mut visible_file_order);
    proof {
        assert(tree::file_views(staged@).len() == staged@.len());
        assert(tree::file_views(unstaged@).len() == unstaged@.len());
    }
    CapturedTreeCache {
        staged_tree,
        unstaged_tree,
        visible_file_order,
        staged_count: staged.len(),
        unstaged_count: unstaged.len(),
    }
}

/// The first captured file that the key names.
pub open spec fn captured_at(files: Seq<CapturedDiffFile>, key: DiffSelectionKeyView) -> Option<int>
    decreases files.len(),
{
    if files.len() == 0 {
        None
    } else {
        match captured_at(files.drop_last(), key) {
            Some(index) => Some(index),
            None => if files.last().selection@ == key {
                Some(files.len() - 1)
            } else {
                None
            },
        }
    }
}

proof fn lemma_captured_prefix(files: Seq<CapturedDiffFile>, key: DiffSelectionKeyView, count: int)
    requires
        0 <= count <= files.len(),
        captured_at(files.take(count), key) is Some,
    ensures
        captured_at(files, key) == captured_at(files.take(count), key),
    decreases files.len(),
{
    if count < files.len() {
        assert(files.drop_last().take(count) =~= files.take(count));
        lemma_captured_prefix(files.drop_last(), key, count);
    } else {
        assert(files.take(count) =~= files);
    }
}

/// Finds the first captured file that a key names.
pub fn captured_file_for_selection<'a>(entry: &'a ChangeFeedEntry, key: &DiffSelectionKey) -> (file:
    Option<&'a CapturedDiffFile>)
    ensures
        match file {
            Some(file) => captured_at(captured_files_of(*entry), key@) is Some && *file
                == captured_files_of(*entry)[captured_at(captured_files_of(*entry), key@)->0],
            None => captured_at(captured_files_of(*entry), key@) is None,
        },
{
    let files = match captured_diff(entry) {
        Some(captured) => &captured.files,
        None => {
            assert(captured_files_of(*entry) =~= Seq::empty());
            return None;
        },
    };
    let mut i: usize = 0;
    assert(files@.take(0) =~= Seq::<CapturedDiffFile>::empty());
    while i < files.len()
        invariant
            i <= files@.len(),
            files@ == captured_files_of(*entry),
            captured_at(files@.take(i as int), key@) is None,
        decreases files@.len() - i,
    {
        assert(files@.take(i + 1).drop_last() =~= files@.take(i as int));
        if files[i].selection.same_key(key) {
            proof {
                assert(captured_at(files@.take(i + 1), key@) == Some(i as int));
                lemma_captured_prefix(files@, key@, i + 1);
            }
            return Some(&files[i]);
        }
        i = i + 1;
    }
    assert(files@.take(i as int) =~= files@);
    None
}

/// The detail of an entry of the feed.
#[derive(Debug)]
pub struct FeedDetailView {
    pub entry: ChangeFeedEntry,
    pub tree_cache: CapturedTreeCache,
    pub selected_file: Option<DiffSelectionKey>,
    pub selection: Option<DiffSelection>,
    pub line_cache: Option<CachedDiffLines>,
}

/// The lines are those of a captured file.
pub open spec fn captured_lines_hold(cache: CachedDiffLines, file: CapturedDiffFile) -> bool {
    &&& cache.selection@ == file.selection@
    &&& cache.generation == file.document.generation
    &&& diff_cache::same_lines(cache.lines@, diff_cache::shown_lines(file.document.lines@))
    &&& cache.hunk_headers@ == Map::<usize, FileDiffHunk>::empty()
    &&& cache.max_line_chars == diff_cache::longest_line(
        diff_cache::shown_lines(file.document.lines@),
    )
}

/// The captured file that is selected.
pub open spec fn selected_capture(
    entry: ChangeFeedEntry,
    selected: Option<DiffSelectionKey>,
) -> Option<CapturedDiffFile> {
    match selected {
        Some(key) => match captured_at(captured_files_of(entry), key@) {
            Some(index) => Some(captured_files_of(entry)[index]),
            None => None,
        },
        None => None,
    }
}

/// The first file that is seen.
pub open spec fn first_visible(entry: ChangeFeedEntry) -> Option<DiffSelectionKeyView> {
    if visible_order(entry).len() > 0 {
        Some(visible_order(entry)[0])
    } else {
        None
    }
}

/// What a key names, where there is one.
pub open spec fn optional_key(key: Option<DiffSelectionKey>) -> Option<DiffSelectionKeyView> {
    match key {
        Some(key) => Some(key@),
        None => None,
    }
}

fn first_key(keys: &Vec<DiffSelectionKey>) -> (first: Option<DiffSelectionKey>)
    ensures
        optional_key(first) == if keys@.len() > 0 {
            Some(keys@[0]@)
        } else {
            None
        },
{
    if keys.len() > 0 {
        Some(keys[0].clone())
    } else {
        None
    }
}

impl FeedDetailView {
    /// The trees are those of the entry, and the kept lines those of the selected file.
    pub open spec fn wf(self) -> bool {
        &&& self.tree_cache.holds(self.entry)
        &&& match selected_capture(self.entry, self.selected_file) {
            Some(file) => self.line_cache is Some && captured_lines_hold(
                self.line_cache->0,
                file,
            ),
            None => self.line_cache is None,
        }
    }

    /// Shows an entry. The first file that is seen is selected.
    pub fn new(entry: ChangeFeedEntry) -> (view: Self)
        ensures
            view.wf(),
            view.entry == entry,
            optional_key(view.selected_file) == first_visible(entry),
            view.selection is None,
    {
        let tree_cache = build_captured_tree_cache(&entry);
        let selected_file = first_key(&tree_cache.visible_file_order);
        proof {
            if tree_cache.visible_file_order@.len() > 0 {
                assert(tree::key_views(tree_cache.visible_file_order@)[0]
                    == tree_cache.visible_file_order@[0]@);
            }
        }
        let mut view = FeedDetailView {
            entry,
            tree_cache,
            selected_file,
            selection: None,
            line_cache: None,
        };
        view.rebuild_line_cache();
        view
    }

    /// Makes the kept lines anew.
    fn rebuild_line_cache(&mut self)
        requires
            old(self).tree_cache.holds(old(self).entry),
        ensures
            final(self).wf(),
            final(self).entry == old(self).entry,
            final(self).tree_cache == old(self).tree_cache,
            final(self).selected_file == old(self).selected_file,
            final(self).selection == old(self).selection,
    {
        broadcast use group_hash_axioms;

        let mut cache: Option<CachedDiffLines> = None;
        if let Some(key) = &self.selected_file {
            if let Some(file) = captured_file_for_selection(&self.entry, key) {
                let (lines, max_line_chars) = diff_cache::filter_lines(&file.document.lines);
                let hunk_headers: HashMap<usize, FileDiffHunk> = HashMap::new();
                proof {
                    lemma_captured_key(captured_files_of(self.entry), key@);
                }
                cache =
                Some(
                    CachedDiffLines {
                        selection: key.clone(),
                        generation: file.document.generation,
                        lines,
                        hunk_headers,
                        max_line_chars,
                    },
                );
            }
        }
        self.line_cache = cache;
    }

    /// Makes the kept lines anew for another theme.
    pub fn invalidate_theme_cache(&mut self)
        requires
            old(self).wf(),
        ensures
            final(self).wf(),
            final(self).entry == old(self).entry,
            final(self).selected_file == old(self).selected_file,
            final(self).selection == old(self).selection,
    {
        self.rebuild_line_cache();
    }

    /// Shows the entry as it stands now, and says whether the scroll position starts anew. A
    /// selected file that is still there stays selected; otherwise the first one is.
    pub fn update_entry(&mut self, entry: ChangeFeedEntry) -> (reset: bool)
        requires
            old(self).wf(),
        ensures
            final(self).wf(),
            final(self).entry == entry,
            reset == !(old(self).selected_file is Some && visible_order(entry).contains(
                old(self).selected_file->0@,
            )),
            reset ==> optional_key(final(self).selected_file) == first_visible(entry) && final(
                self).selection is None,
            !reset ==> final(self).selected_file == old(self).selected_file && final(self).selection
                == old(self).selection,
    {
        let tree_cache = build_captured_tree_cache(&entry);
        let still_visible = match &self.selected_file {
            Some(key) => diff_rows::key_listed(&tree_cache.visible_file_order, key),
            None => false,
        };
        self.entry = entry;
        self.tree_cache = tree_cache;
        if !still_visible {
            self.selected_file = first_key(&self.tree_cache.visible_file_order);
            self.selection = None;
            proof {
                if self.tree_cache.visible_file_order@.len() > 0 {
                    assert(tree::key_views(self.tree_cache.visible_file_order@)[0]
                        == self.tree_cache.visible_file_order@[0]@);
                }
            }
        }
        self.rebuild_line_cache();
        !still_visible
    }

    /// Selects a file, and says whether the scroll position starts anew. The selected file can be
    /// selected again without effect.
    pub fn select_file(&mut self, key: DiffSelectionKey) -> (reset: bool)
        requires
            old(self).wf(),
        ensures
            final(self).wf(),
            final(self).entry == old(self).entry,
            reset == (optional_key(old(self).selected_file) != Some(key@)),
            !reset ==> *final(self) == *old(self),
            reset ==> final(self).selected_file == Some(key) && final(self).selection is None,
    {
        let same = match &self.selected_file {
            Some(selected) => selected.same_key(&key),
            None => false,
        };
        if same {
            return false;
        }
        self.selected_file = Some(key);
        self.selection = None;
        self.rebuild_line_cache();
        true
    }

    /// How the row of a captured file stands to the selection.
    pub fn row_marks(&self, key: &DiffSelectionKey) -> (marks: RowMarks)
        ensures
            marks.is_primary == (optional_key(self.selected_file) == Some(key@)),
            !marks.is_multi,
    {
        RowMarks {
            is_primary: match &self.selected_file {
                Some(selected) => selected.same_key(key),
                None => false,
            },
            is_multi: false,
        }
    }

    /// The selected text, ready for the clipboard.
    pub fn copy_selection(&self) -> (copied: Option<String>)
        ensures
            match (self.selection, selected_capture(self.entry, self.selected_file)) {
                (Some(selection), Some(file)) => {
                    let (start, end) = selection.ordered();
                    let lines = diff_cache::shown_lines(file.document.lines@);
                    let all = diff_text::selected_text(
                        lines,
                        start,
                        end,
                        diff_text::selection_stop(lines, end),
                    );
                    copied is Some == (all.len() > 0) && (copied is Some ==> copied->0@ == all)
                },
                _ => copied is None,
            },
    {
        match &self.selected_file {
            Some(key) => match captured_file_for_selection(&self.entry, key) {
                Some(file) => diff_cache::copy_selection(self.selection, Some(&file.document)),
                None => None,
            },
            None => None,
        }
    }

    /// Moves the end of a selection that is being dragged, and says whether there is one.
    pub fn drag_selection(&mut self, position: DiffPosition) -> (dragged: bool)
        requires
            old(self).wf(),
        ensures
            final(self).wf(),
            final(self).entry == old(self).entry,
            final(self).selected_file == old(self).selected_file,
            dragged == (old(self).selection is Some && old(self).selection->0.is_selecting),
            final(self).selection == if dragged {
                Some(
                    DiffSelection {
                        start: old(self).selection->0.start,
                        end: position,
                        is_selecting: true,
                    },
                )
            } else {
                old(self).selection
            },
    {
        if let Some(selection) = self.selection {
            if selection.is_selecting {
                self.selection =
                Some(DiffSelection { start: selection.start, end: position, is_selecting: true });
                return true;
            }
        }
        false
    }

    /// Ends a selection that is being dragged, and says whether there was one.
    pub fn release_drag(&mut self) -> (released: bool)
        requires
            old(self).wf(),
        ensures
            final(self).wf(),
            final(self).entry == old(self).entry,
            final(self).selected_file == old(self).selected_file,
            released == (old(self).selection is Some && old(self).selection->0.is_selecting),
            final(self).selection == match old(self).selection {
                Some(selection) => Some(DiffSelection { is_selecting: false, ..selection }),
                None => None,
            },
    {
        if let Some(selection) = self.selection {
            self.selection =
            Some(
                DiffSelection {
                    start: selection.start,
                    end: selection.end,
                    is_selecting: false,
                },
            );
            return selection.is_selecting;
        }
        false
    }

    /// Selects by a click, as in any diff. Without a captured file a single click alone does.
    pub fn click(&mut self, line: usize, col: usize, clicks: usize)
        requires
            old(self).wf(),
        ensures
            final(self).wf(),
            final(self).entry == old(self).entry,
            final(self).selected_file == old(self).selected_file,
            clicks < 2 ==> final(self).selection is Some && diff_cache::spans_columns(
                final(self).selection->0,
                line,
                col as int,
                col as int,
                true,
            ),
            clicks >= 2 ==> match selected_capture(old(self).entry, old(self).selected_file) {
                None => final(self).selection is None,
                Some(file) => {
                    let shown = diff_cache::shown_lines(file.document.lines@);
                    let chars = diff_text::plain_chars(
                        shown[line as int].text@,
                        shown[line as int].highlights,
                    );
                    if line >= shown.len() {
                        final(self).selection is None
                    } else if clicks == 2 {
                        final(self).selection is Some && diff_cache::is_word_around(
                            chars,
                            col as int,
                            final(self).selection->0.start.col as int,
                            final(self).selection->0.end.col as int,
                        ) && diff_cache::spans_columns(
                            final(self).selection->0,
                            line,
                            final(self).selection->0.start.col as int,
                            final(self).selection->0.end.col as int,
                            false,
                        )
                    } else {
                        final(self).selection is Some && diff_cache::spans_columns(
                            final(self).selection->0,
                            line,
                            0,
                            chars.len() as int,
                            false,
                        )
                    }
                },
            },
    {
        let selection = match &self.selected_file {
            Some(key) => match captured_file_for_selection(&self.entry, key) {
                Some(file) => diff_cache::click_selection(
                    &file.document.lines,
                    line,
                    col,
                    clicks,
                ),
                None => click_nowhere(line, col, clicks),
            },
            None => click_nowhere(line, col, clicks),
        };
        self.selection = selection;
    }
}

fn click_nowhere(line: usize, col: usize, clicks: usize) -> (selection: Option<DiffSelection>)
    ensures
        if clicks < 2 {
            selection is Some && diff_cache::spans_columns(
                selection->0,
                line,
                col as int,
                col as int,
                true,
            )
        } else {
            selection is None
        },
{
    if clicks < 2 {
        let at = DiffPosition { line, col };
        Some(DiffSelection { start: at, end: at, is_selecting: true })
    } else {
        None
    }
}

proof fn lemma_captured_key(files: Seq<CapturedDiffFile>, key: DiffSelectionKeyView)
    ensures
        captured_at(files, key) matches Some(index) ==> 0 <= index < files.len()
            && files[index].selection@ == key,
    decreases files.len(),
{
    if files.len() > 0 {
        lemma_captured_key(files.drop_last(), key);
    }
}

/// An entry of the pane of captured files.
#[derive(Clone, Copy, Debug, PartialEq, Eq, Structural)]
pub enum FeedTreeEntry {
    /// The heading and the tree of a section.
    Section(DiffSectionKind),
    /// A note that the capture was cut off.
    Truncated,
    /// A file that could not be captured.
    Failure { index: usize },
}

/// The pane of captured files.
#[derive(Debug)]
pub enum FeedTreePane {
    Message(PanelMessage),
    Entries(Vec<FeedTreeEntry>),
}

/// What the pane of captured files shows.
pub enum FeedTreePaneView {
    Message(PanelText),
    Entries(Seq<FeedTreeEntry>),
}

impl View for FeedTreePane {
    type V = FeedTreePaneView;

    open spec fn view(&self) -> FeedTreePaneView {
        match self {
            FeedTreePane::Message(message) => FeedTreePaneView::Message(message@),
            FeedTreePane::Entries(entries) => FeedTreePaneView::Entries(entries@),
        }
    }
}

/// What the pane of captured files shows.
pub open spec fn feed_tree_pane(view: FeedDetailView) -> FeedTreePaneView {
    if view.tree_cache.visible_file_order@.len() == 0 {
        FeedTreePaneView::Message(
            widgets::panel_text(
                "No files captured"@,
                "This event has no captured file diffs."@,
            ),
        )
    } else {
        FeedTreePaneView::Entries(
            (if view.tree_cache.staged_count > 0 {
                seq![FeedTreeEntry::Section(DiffSectionKind::Staged)]
            } else {
                Seq::empty()
            }) + seq![FeedTreeEntry::Section(DiffSectionKind::Unstaged)] + (
            if view.entry.capture_state is Truncated {
                seq![FeedTreeEntry::Truncated]
            } else {
                Seq::empty()
            }) + Seq::new(
                captured_failures_of(view.entry).len(),
                |i: int| FeedTreeEntry::Failure { index: i as usize },
            ),
        )
    }
}

/// The pane of captured files: the staged ones, where there are any, and the others; a note where
/// the capture was cut off; and the files that could not be captured.
pub fn render_feed_tree_pane(view: &FeedDetailView) -> (pane: FeedTreePane)
    ensures
        pane@ == feed_tree_pane(*view),
{
    if view.tree_cache.visible_file_order.len() == 0 {
        return FeedTreePane::Message(
            widgets::panel_message(
                "No files captured",
                "This event has no captured file diffs.",
            ),
        );
    }
    let mut entries: Vec<FeedTreeEntry> = Vec::new();
    if view.tree_cache.staged_count > 0 {
        entries.push(FeedTreeEntry::Section(DiffSectionKind::Staged));
    }
    entries.push(FeedTreeEntry::Section(DiffSectionKind::Unstaged));
    let truncated = match &view.entry.capture_state {
        FeedCaptureState::Truncated(_) => true,
        _ => false,
    };
    if truncated {
        entries.push(FeedTreeEntry::Truncated);
    }
    let failures: usize = match captured_diff(&view.entry) {
        Some(captured) => captured.failed_files.len(),
        None => 0,
    };
    let ghost before = entries@;
    let mut i: usize = 0;
    assert(entries@ =~= before + Seq::new(0, |k: int| FeedTreeEntry::Failure { index: k as usize }));
    while i < failures
        invariant
            i <= failures,
            entries@ == before + Seq::new(
                i as nat,
                |k: int| FeedTreeEntry::Failure { index: k as usize },
            ),
        decreases failures - i,
    {
        entries.push(FeedTreeEntry::Failure { index: i });
        i = i + 1;
        assert(entries@ =~= before + Seq::new(
            i as nat,
            |k: int| FeedTreeEntry::Failure { index: k as usize },
        ));
    }
    assert(entries@ =~= feed_tree_pane(*view)->Entries_0);
    FeedTreePane::Entries(entries)
}

/// A note below the captured files.
#[derive(Debug)]
pub struct FeedNote {
    pub text: ColoredText,
    pub detail: Option<ColoredText>,
    pub border: u32,
    pub fill: Tint,
}

/// What the note of an entry of the pane says: that the capture was cut off, or the path of a file
/// that could not be captured and that it is unavailable. Sections, and failures that the view does
/// not have, have none.
pub open spec fn note_texts(view: FeedDetailView, entry: FeedTreeEntry) -> Option<
    (Seq<char>, Option<Seq<char>>),
> {
    match entry {
        FeedTreeEntry::Section(_) => None,
        FeedTreeEntry::Truncated => Some(("Capture truncated at limit"@, None)),
        FeedTreeEntry::Failure { index } => if index < captured_failures_of(view.entry).len() {
            Some(
                (
                    model::path_text(
                        captured_failures_of(view.entry)[index as int].relative_path@,
                    ),
                    Some("unavailable"@),
                ),
            )
        } else {
            None
        },
    }
}

/// The note says this.
pub open spec fn shows_note(
    note: FeedNote,
    palette: OrcaTheme,
    text: Seq<char>,
    detail: Option<Seq<char>>,
) -> bool {
    &&& widgets::says(note.text, text, palette.STATUS_AMBER)
    &&& match (note.detail, detail) {
        (Some(shown), Some(detail)) => widgets::says(shown, detail, palette.FOG),
        (None, None) => true,
        _ => false,
    }
    &&& note.border == palette.STATUS_AMBER
    &&& note.fill == (Tint { color: palette.STATUS_AMBER, alpha: 0x12 })
}

/// The note of an entry of the pane, where it has one.
pub fn render_feed_note(palette: &OrcaTheme, view: &FeedDetailView, entry: FeedTreeEntry) -> (note:
    Option<FeedNote>)
    ensures
        match (note, note_texts(*view, entry)) {
            (Some(note), Some(texts)) => shows_note(note, *palette, texts.0, texts.1),
            (None, None) => true,
            _ => false,
        },
{
    let (text, detail) = match entry {
        FeedTreeEntry::Section(_) => {
            return None;
        },
        FeedTreeEntry::Truncated => (
            widgets::colored_text("Capture truncated at limit", palette.STATUS_AMBER),
            None,
        ),
        FeedTreeEntry::Failure { index } => {
            let captured = match captured_diff(&view.entry) {
                Some(captured) => captured,
                None => {
                    return None;
                },
            };
            if index >= captured.failed_files.len() {
                return None;
            }
            let path = captured.failed_files[index].relative_path.display();
            (
                ColoredText { text: path, color: palette.STATUS_AMBER },
                Some(widgets::colored_text("unavailable", palette.FOG)),
            )
        },
    };
    Some(
        FeedNote {
            text,
            detail,
            border: palette.STATUS_AMBER,
            fill: Tint { color: palette.STATUS_AMBER, alpha: 0x12 },
        },
    )
}

/// The heading of a section of captured files.
pub fn feed_section_heading(view: &FeedDetailView, section: DiffSectionKind) -> (heading: String)
    ensures
        heading@ == match section {
            DiffSectionKind::Staged => "STAGED CHANGES"@ + " ("@ + strings::decimal(
                view.tree_cache.staged_count as nat,
            ) + ")"@,
            _ => "CHANGES"@ + " ("@ + strings::decimal(view.tree_cache.unstaged_count as nat)
                + ")"@,
        },
{
    match section {
        DiffSectionKind::Staged => widgets::section_header(
            "STAGED CHANGES",
            view.tree_cache.staged_count,
        ),
        _ => widgets::section_header("CHANGES", view.tree_cache.unstaged_count),
    }
}

/// The pane of the selected captured file.
#[derive(Debug)]
pub enum FeedDiffPane {
    Message(PanelMessage),
    /// The path and the counts of a file whose diff is too large, and the message that says so.
    Oversize { header: FileHeader, message: PanelMessage },
    /// The lines of a diff, under the path and the counts of its file.
    Lines { header: FileHeader },
}

/// What the pane of the selected captured file shows.
pub enum FeedDiffPaneView {
    Message(PanelText),
    Oversize { header: FileHeaderView, message: PanelText },
    Lines { header: FileHeaderView },
}

impl View for FeedDiffPane {
    type V = FeedDiffPaneView;

    open spec fn view(&self) -> FeedDiffPaneView {
        match *self {
            FeedDiffPane::Message(message) => FeedDiffPaneView::Message(message@),
            FeedDiffPane::Oversize { header, message } => FeedDiffPaneView::Oversize {
                header: header@,
                message: message@,
            },
            FeedDiffPane::Lines { header } => FeedDiffPaneView::Lines { header: header@ },
        }
    }
}

/// The pane of the selected captured file: its lines under its path and counts, or why there are
/// none.
pub fn render_feed_diff_pane(view: &FeedDetailView, oversize_message: &str) -> (pane: FeedDiffPane)
    requires
        view.wf(),
    ensures
        pane@ == match (view.selected_file, selected_capture(view.entry, view.selected_file)) {
            (None, _) => FeedDiffPaneView::Message(
                widgets::panel_text("Select a file"@, "Pick a changed file from the left pane."@),
            ),
            (Some(_), None) => FeedDiffPaneView::Message(
                PanelText { title: "File no longer available"@, detail: None },
            ),
            (Some(_), Some(file)) => if diff_state::oversize_lines(
                file.document.lines@,
                oversize_message@,
            ) {
                FeedDiffPaneView::Oversize {
                    header: diff_rows::file_header(file.file, None),
                    message: widgets::panel_text(
                        "Diff too large"@,
                        "Open the file in another tool if you need the full patch."@,
                    ),
                }
            } else {
                FeedDiffPaneView::Lines { header: diff_rows::file_header(file.file, None) }
            },
        },
{
    let key = match &view.selected_file {
        Some(key) => key,
        None => {
            return FeedDiffPane::Message(
                widgets::panel_message("Select a file", "Pick a changed file from the left pane."),
            );
        },
    };
    let file = match captured_file_for_selection(&view.entry, key) {
        Some(file) => file,
        None => {
            return FeedDiffPane::Message(PanelMessage::new("File no longer available", None));
        },
    };
    let header = diff_rows::diff_file_header(&file.file, None);
    if diff_state::is_oversize_document(&file.document, oversize_message) {
        return FeedDiffPane::Oversize {
            header,
            message: widgets::panel_message(
                "Diff too large",
                "Open the file in another tool if you need the full patch.",
            ),
        };
    }
    FeedDiffPane::Lines { header }
}

/// Whether a key copies the selected text.
pub fn detail_key_copies(key: &str, modifiers: &Modifiers) -> (copies: bool)
    ensures
        copies == (key@ == "c"@ && (modifiers.platform || modifiers.control)),
{
    keys::is_copy_keystroke(key, modifiers)
}

/// A key finds the first captured file that it names, and none only where none has that key.
pub proof fn key_finds_its_capture(files: Seq<CapturedDiffFile>, key: DiffSelectionKeyView)
    ensures
        match captured_at(files, key) {
            Some(index) => {
                &&& 0 <= index < files.len()
                &&& files[index].selection@ == key
                &&& forall|i: int| 0 <= i < index ==> (#[trigger] files[i]).selection@ != key
            },
            None => forall|i: int| 0 <= i < files.len() ==> (#[trigger] files[i]).selection@ != key,
        },
    decreases files.len(),
{
    if files.len() > 0 {
        let rest = files.drop_last();
        key_finds_its_capture(rest, key);
        assert forall|i: int| 0 <= i < rest.len() implies rest[i] == #[trigger] files[i] by {}
    }
}

/// A section holds the files that were captured in it, all of them and in their order.
pub proof fn section_holds_its_files(files: Seq<CapturedDiffFile>, section: DiffSectionKind)
    ensures
        files_in_section(files, section) == files.filter(
            |file: CapturedDiffFile| file.selection.section == section,
        ).map_values(|file: CapturedDiffFile| file.file@),
    decreases files.len(),
{
    let chosen = |file: CapturedDiffFile| file.selection.section == section;
    let shown = |file: CapturedDiffFile| file.file@;
    reveal(Seq::filter);
    if files.len() > 0 {
        let rest = files.drop_last();
        section_holds_its_files(rest, section);
        if chosen(files.last()) {
            assert(files.filter(chosen).map_values(shown) =~= rest.filter(chosen).map_values(
                shown,
            ).push(shown(files.last())));
        }
    }
    assert(files_in_section(files, section) =~= files.filter(chosen).map_values(shown));
}

proof fn lemma_in_section(files: Seq<CapturedDiffFile>, section: DiffSectionKind, index: int) -> (at:
    int)
    requires
        0 <= index < files.len(),
        files[index].selection.section == section,
    ensures
        0 <= at < files_in_section(files, section).len(),
        files_in_section(files, section)[at] == files[index].file@,
    decreases files.len(),
{
    let rest = files.drop_last();
    if index == files.len() - 1 {
        files_in_section(rest, section).len() as int
    } else {
        assert(rest[index] == files[index]);
        lemma_in_section(rest, section, index)
    }
}

proof fn lemma_section_paths(files: Seq<CapturedDiffFile>, section: DiffSectionKind)
    requires
        forall|i: int| 0 <= i < files.len() ==> (#[trigger] files[i]).file@.relative_path.len() > 0,
    ensures
        forall|i: int|
            0 <= i < files_in_section(files, section).len() ==> (#[trigger] files_in_section(
                files,
                section,
            )[i]).relative_path.len() > 0,
    decreases files.len(),
{
    if files.len() > 0 {
        let rest = files.drop_last();
        assert forall|i: int| 0 <= i < rest.len() implies (#[trigger] rest[i]).file@.relative_path.len()
            > 0 by {
            assert(rest[i] == files[i]);
        }
        lemma_section_paths(rest, section);
        assert(files[files.len() - 1].file@.relative_path.len() > 0);
    }
}

/// Every captured file, staged or not, is seen: the files of an entry in the order in which they are seen hold the
/// key of each.
pub proof fn every_capture_is_seen(entry: ChangeFeedEntry, index: int)
    requires
        0 <= index < captured_files_of(entry).len(),
        captured_files_of(entry)[index].selection.section is Staged || captured_files_of(
            entry,
        )[index].selection.section is Unstaged,
        forall|i: int|
            0 <= i < captured_files_of(entry).len() ==> (#[trigger] captured_files_of(
                entry,
            )[i]).file@.relative_path.len() > 0,
    ensures
        ({
            let file = captured_files_of(entry)[index];
            visible_order(entry).contains(
                DiffSelectionKeyView {
                    section: file.selection.section,
                    relative_path: file.file@.relative_path,
                },
            )
        }),
        first_visible(entry) is Some,
        first_visible(entry)->0 == visible_order(entry)[0],
{
    let files = captured_files_of(entry);
    let section = files[index].selection.section;
    let key = tree::key_of(files[index].file@, section);
    let chosen = files_in_section(files, section);
    let at = lemma_in_section(files, section, index);
    lemma_section_paths(files, section);
    tree::tree_lists_every_file_once(chosen, section, key);
    assert(tree::keys_of(chosen, section)[at] == key);
    tree::lemma_occurs_contains(tree::keys_of(chosen, section), key);
    let keys = tree::file_keys(tree::diff_tree(chosen), section);
    tree::lemma_occurs_contains(keys, key);
    let k = choose|k: int| 0 <= k < keys.len() && keys[k] == key;
    let staged = tree::file_keys(
        tree::diff_tree(files_in_section(files, DiffSectionKind::Staged)),
        DiffSectionKind::Staged,
    );
    if section == DiffSectionKind::Staged {
        assert(visible_order(entry)[k] == key);
    } else {
        assert(visible_order(entry)[staged.len() + k] == key);
    }
}

/// The pane of captured files has a note for every file that could not be captured, one where the
/// capture was cut off, and the staged files before the others where there are any.
pub proof fn pane_tells_what_is_missing(view: FeedDetailView, index: int)
    requires
        view.tree_cache.visible_file_order@.len() > 0,
        captured_failures_of(view.entry).len() <= usize::MAX,
    ensures
        feed_tree_pane(view) is Entries,
        ({
            let entries = feed_tree_pane(view)->Entries_0;
            let has_staged = view.tree_cache.staged_count > 0;
            &&& has_staged ==> entries[0] == FeedTreeEntry::Section(DiffSectionKind::Staged)
                && entries[1] == FeedTreeEntry::Section(DiffSectionKind::Unstaged)
            &&& !has_staged ==> entries[0] == FeedTreeEntry::Section(DiffSectionKind::Unstaged)
                && !entries.contains(FeedTreeEntry::Section(DiffSectionKind::Staged))
            &&& entries.contains(FeedTreeEntry::Truncated) == view.entry.capture_state is Truncated
            &&& 0 <= index < captured_failures_of(view.entry).len() ==> entries.contains(
                FeedTreeEntry::Failure { index: index as usize },
            )
        }),
{
    let entries = feed_tree_pane(view)->Entries_0;
    let failures = captured_failures_of(view.entry).len();
    if view.entry.capture_state is Truncated {
        assert(entries[entries.len() - failures - 1] == FeedTreeEntry::Truncated);
    }
    if 0 <= index < failures {
        assert(entries[entries.len() - failures + index] == (FeedTreeEntry::Failure {
            index: index as usize,
        }));
    }
}

/// A selection that is being dragged reaches from where it began to the pointer. Once the drag is
/// released, the selection stays and the pointer no longer moves it.
pub proof fn released_feed_selection_stays(
    dragging: &mut FeedDetailView,
    releasing: &mut FeedDetailView,
    later: &mut FeedDetailView,
    position: DiffPosition,
    other: DiffPosition,
    dragged: bool,
    released: bool,
    again: bool,
)
    requires
        old(dragging).selection is Some,
        old(dragging).selection->0.is_selecting,
        call_ensures(FeedDetailView::drag_selection, (dragging, position), dragged),
        call_ensures(FeedDetailView::release_drag, (releasing,), released),
        call_ensures(FeedDetailView::drag_selection, (later, other), again),
    ensures
        dragged,
        final(dragging).selection is Some,
        final(dragging).selection->0.start == old(dragging).selection->0.start,
        final(dragging).selection->0.end == position,
        *old(releasing) == *final(dragging) ==> {
            &&& released
            &&& final(releasing).selection is Some
            &&& final(releasing).selection->0.start == old(dragging).selection->0.start
            &&& final(releasing).selection->0.end == position
            &&& *old(later) == *final(releasing) ==> !again && final(later).selection == final(releasing).selection
        },
{
}

/// A single click begins a selection at the pointer, a double click selects the word there and a
/// triple click the line.
pub proof fn clicks_select_more_and_more(
    view: &mut FeedDetailView,
    line: usize,
    col: usize,
    clicks: usize,
)
    requires
        call_ensures(FeedDetailView::click, (view, line, col, clicks), ()),
    ensures
        clicks < 2 ==> {
            &&& final(view).selection is Some
            &&& final(view).selection->0.is_selecting
            &&& final(view).selection->0.start == (DiffPosition { line, col })
            &&& final(view).selection->0.end == (DiffPosition { line, col })
        },
        clicks >= 2 && final(view).selection is Some ==> {
            &&& !final(view).selection->0.is_selecting
            &&& final(view).selection->0.start.line == line
            &&& final(view).selection->0.end.line == line
        },
        clicks >= 3 && final(view).selection is Some ==> final(view).selection->0.start.col == 0,
{
}

} // verus!
