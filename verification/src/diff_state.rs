//! The state of a diff tab and what is kept of it between frames.

use crate::conflict_document::ConflictEditorDocument;
use crate::diff_text;
use crate::model::{
    ChangedFile, DiffLineKind, DiffLineView, DiffSectionKind, DiffSelectionKey, RelativePath,
};
use crate::repository_graph::Oid;
use crate::strings;
use crate::widgets::ActionBanner;
use vstd::prelude::*;

verus! {

/// What a diff tab shows.
#[derive(Clone, Copy, Debug, PartialEq, Eq, Structural)]
pub enum DiffTabViewMode {
    WorkingTree,
    Stashes,
}

/// What is known of a repository at one moment.
#[derive(Debug)]
pub struct GitSnapshotSummary {
    pub repo_root: String,
    pub scope_root: String,
    pub generation: u64,
    pub content_fingerprint: u64,
    pub branch_name: String,
    pub remotes: Vec<String>,
    pub is_worktree: bool,
    pub worktree_name: Option<String>,
    pub changed_files: usize,
    pub insertions: usize,
    pub deletions: usize,
}

/// How a branch stands to its upstream.
#[derive(Debug)]
pub struct GitTrackingStatus {
    pub upstream_ref: Option<String>,
    pub ahead: usize,
    pub behind: usize,
}

/// A merge that is under way.
#[derive(Clone, Copy, Debug, PartialEq, Eq, Structural)]
pub struct MergeState {
    pub can_complete: bool,
    pub can_abort: bool,
    pub conflicted_file_count: usize,
}

/// The changed files of a repository.
#[derive(Debug)]
pub struct DiffDocument {
    pub snapshot: GitSnapshotSummary,
    pub tracking: GitTrackingStatus,
    pub merge_state: Option<MergeState>,
    pub repo_state_warning: Option<String>,
    pub conflicted_files: Vec<ChangedFile>,
    pub staged_files: Vec<ChangedFile>,
    pub unstaged_files: Vec<ChangedFile>,
}

/// A hunk of a file's diff and the line that heads it.
#[derive(Clone, Copy, Debug, PartialEq, Eq, Structural)]
pub struct FileDiffHunk {
    pub hunk_index: usize,
    pub line_start: usize,
}

/// The diff of one file.
#[derive(Debug)]
pub struct FileDiffDocument {
    pub generation: u64,
    pub selection: DiffSelectionKey,
    pub file: ChangedFile,
    pub lines: Vec<DiffLineView>,
    pub hunks: Vec<FileDiffHunk>,
}

/// The changed files of a tab, as far as they are loaded.
#[derive(Debug)]
pub struct DiffIndexState {
    pub document: Option<DiffDocument>,
    pub error: Option<String>,
    pub loading: bool,
    pub requested_generation: Option<u64>,
}

/// The file diff of a tab, as far as it is loaded.
#[derive(Debug)]
pub struct DiffFileState {
    pub document: Option<FileDiffDocument>,
    pub error: Option<String>,
    pub loading: bool,
}

/// A stash in the list of stashes.
#[derive(Debug)]
pub struct StashEntrySummary {
    pub stash_oid: Oid,
    pub label: String,
    pub message: String,
    pub committed_at_unix: i64,
    pub includes_untracked: bool,
}

/// The contents of a stash.
#[derive(Debug)]
pub struct StashDetailDocument {
    pub stash_oid: Oid,
    pub message: String,
    pub files: Vec<ChangedFile>,
    pub includes_untracked: bool,
}

/// Names a file of a stash.
#[derive(Debug, PartialEq, Eq)]
pub struct StashFileSelection {
    pub stash_oid: Oid,
    pub relative_path: RelativePath,
}

impl View for StashFileSelection {
    type V = (Oid, Seq<Seq<char>>);

    open spec fn view(&self) -> (Oid, Seq<Seq<char>>) {
        (self.stash_oid, self.relative_path@)
    }
}

impl StashFileSelection {
    /// Whether both name the same file of the same stash.
    pub fn same_selection(&self, other: &StashFileSelection) -> (same: bool)
        ensures
            same == (self@ == other@),
    {
        self.stash_oid == other.stash_oid && self.relative_path.same_path(&other.relative_path)
    }
}

impl Clone for StashFileSelection {
    fn clone(&self) -> (result: Self)
        ensures
            result@ == self@,
    {
        StashFileSelection {
            stash_oid: self.stash_oid,
            relative_path: self.relative_path.clone(),
        }
    }
}

/// The diff of one file of a stash.
#[derive(Debug)]
pub struct StashFileDiffDocument {
    pub stash_oid: Oid,
    pub selection: StashFileSelection,
    pub file: ChangedFile,
    pub lines: Vec<DiffLineView>,
}

/// The list of stashes, as far as it is loaded.
#[derive(Debug)]
pub struct StashListState {
    pub document: Option<Vec<StashEntrySummary>>,
    pub error: Option<String>,
    pub loading: bool,
}

/// The contents of the selected stash, as far as they are loaded.
#[derive(Debug)]
pub struct StashDetailState {
    pub document: Option<StashDetailDocument>,
    pub error: Option<String>,
    pub loading: bool,
}

/// The diff of the selected stash file, as far as it is loaded.
#[derive(Debug)]
pub struct StashFileState {
    pub document: Option<StashFileDiffDocument>,
    pub error: Option<String>,
    pub loading: bool,
}

/// The stashes of a tab.
#[derive(Debug)]
pub struct DiffTabStashState {
    pub list: StashListState,
    pub detail: StashDetailState,
    pub file_diff: StashFileState,
    pub selected_stash: Option<Oid>,
    pub expanded_stash: Option<Oid>,
    pub selected_file: Option<StashFileSelection>,
}

/// A conflicted file of which the editor has the text, or why it has not.
#[derive(Debug)]
pub enum ConflictDocumentState {
    Loaded(ConflictEditorDocument),
    Unavailable { file: ChangedFile, message: String },
}

/// A conflicted file in the editor.
#[derive(Debug)]
pub struct ConflictDocumentEntry {
    pub relative_path: RelativePath,
    pub state: ConflictDocumentState,
}

/// A worktree that was made for a branch.
#[derive(Debug)]
pub struct ManagedWorktreeSummary {
    pub branch_name: String,
}

/// The open question whether a worktree is removed.
#[derive(Clone, Copy, Debug, PartialEq, Eq, Structural)]
pub struct RemoveWorktreeConfirm {
    pub delete_branch: bool,
}

/// A tab that shows the changes of a working tree.
#[derive(Debug)]
pub struct DiffTabState {
    pub scope_root: String,
    pub view_mode: DiffTabViewMode,
    pub index: DiffIndexState,
    pub selected_file: Option<DiffSelectionKey>,
    pub file: DiffFileState,
    pub stash: DiffTabStashState,
    pub conflict_documents: Vec<ConflictDocumentEntry>,
    pub multi_select: Vec<DiffSelectionKey>,
    pub commit_message: String,
    pub local_action_in_flight: bool,
    pub remote_op_in_flight: bool,
    pub last_action_banner: Option<ActionBanner>,
    pub remove_worktree_confirm: Option<RemoveWorktreeConfirm>,
    pub managed_worktree: Option<ManagedWorktreeSummary>,
}

/// The lines stand for a diff that is too large to show: they are one notice that says so.
pub open spec fn oversize_lines(lines: Seq<DiffLineView>, oversize_message: Seq<char>) -> bool {
    lines.len() == 1 && lines[0].kind == DiffLineKind::BinaryNotice && lines[0].text@
        == oversize_message
}

fn lines_are_oversize(lines: &Vec<DiffLineView>, oversize_message: &str) -> (oversize: bool)
    ensures
        oversize == oversize_lines(lines@, oversize_message@),
{
    lines.len() == 1 && lines[0].kind == DiffLineKind::BinaryNotice && strings::same_text(
        lines[0].text.as_str(),
        oversize_message,
    )
}

/// Whether a file's diff is too large to show.
pub fn is_oversize_document(document: &FileDiffDocument, oversize_message: &str) -> (oversize: bool)
    ensures
        oversize == oversize_lines(document.lines@, oversize_message@),
{
    lines_are_oversize(&document.lines, oversize_message)
}

/// The files of a section.
pub open spec fn section_files(document: DiffDocument, section: DiffSectionKind) -> Seq<
    ChangedFile,
> {
    match section {
        DiffSectionKind::Conflicted => document.conflicted_files@,
        DiffSectionKind::Staged => document.staged_files@,
        DiffSectionKind::Unstaged => document.unstaged_files@,
    }
}

/// The first file with the given path.
pub open spec fn file_at_path(files: Seq<ChangedFile>, path: Seq<Seq<char>>) -> Option<int>
    decreases files.len(),
{
    if files.len() == 0 {
        None
    } else {
        match file_at_path(files.drop_last(), path) {
            Some(index) => Some(index),
            None => if files.last().relative_path@ == path {
                Some(files.len() - 1)
            } else {
                None
            },
        }
    }
}

proof fn lemma_file_at_path_prefix(files: Seq<ChangedFile>, path: Seq<Seq<char>>, count: int)
    requires
        0 <= count <= files.len(),
        file_at_path(files.take(count), path) is Some,
    ensures
        file_at_path(files, path) == file_at_path(files.take(count), path),
    decreases files.len(),
{
    if count < files.len() {
        assert(files.drop_last().take(count) =~= files.take(count));
        lemma_file_at_path_prefix(files.drop_last(), path, count);
    } else {
        assert(files.take(count) =~= files);
    }
}

/// Finds the first file with the given path.
pub fn find_file(files: &Vec<ChangedFile>, path: &RelativePath) -> (index: Option<usize>)
    ensures
        match index {
            Some(index) => index < files@.len() && file_at_path(files@, path@) == Some(
                index as int,
            ),
            None => file_at_path(files@, path@) is None,
        },
{
    let mut i: usize = 0;
    assert(files@.take(0) =~= Seq::<ChangedFile>::empty());
    while i < files.len()
        invariant
            i <= files@.len(),
            file_at_path(files@.take(i as int), path@) is None,
        decreases files@.len() - i,
    {
        assert(files@.take(i + 1).drop_last() =~= files@.take(i as int));
        if files[i].relative_path.same_path(path) {
            proof {
                assert(file_at_path(files@.take(i + 1), path@) == Some(i as int));
                lemma_file_at_path_prefix(files@, path@, i + 1);
            }
            return Some(i);
        }
        i = i + 1;
    }
    assert(files@.take(i as int) =~= files@);
    None
}

/// What a tab shows in one frame. The parts of the tab that are shown as they are stay where they
/// are.
#[derive(Debug)]
pub struct DiffRenderSnapshot<'a> {
    pub tab: &'a DiffTabState,
    pub has_index: bool,
    pub index_file_count: usize,
    pub conflicted_file_count: usize,
    pub staged_file_count: usize,
    pub unstaged_file_count: usize,
    pub index_branch: Option<String>,
    pub index_generation: Option<u64>,
    pub merge_state: Option<MergeState>,
    pub repo_state_warning: Option<String>,
    pub file_meta: Option<ChangedFile>,
    pub file_selection: Option<DiffSelectionKey>,
    pub file_generation: Option<u64>,
    pub is_oversize: bool,
    pub tracking_behind: usize,
    pub has_upstream: bool,
}

/// The number of changed files, or the largest number there is where they are more.
pub open spec fn changed_file_count(document: DiffDocument) -> int {
    diff_text::least(
        (document.conflicted_files@.len() + document.staged_files@.len()
            + document.unstaged_files@.len()) as int,
        usize::MAX as int,
    )
}

/// The file that the header of a diff names: that of the loaded diff, or else the selected one of
/// the index.
pub open spec fn shown_file(tab: DiffTabState) -> Option<ChangedFile> {
    match tab.file.document {
        Some(document) => Some(document.file),
        None => match (tab.index.document, tab.selected_file) {
            (Some(document), Some(selected)) => {
                let files = section_files(document, selected.section);
                match file_at_path(files, selected.relative_path@) {
                    Some(index) => Some(files[index]),
                    None => None,
                }
            },
            _ => None,
        },
    }
}

/// The file meta of a selected file in the index.
fn selected_file_meta(document: &DiffDocument, selected: &DiffSelectionKey) -> (meta: Option<
    ChangedFile,
>)
    ensures
        ({
            let files = section_files(*document, selected.section);
            match file_at_path(files, selected.relative_path@) {
                Some(index) => meta is Some && meta->0@ == files[index]@,
                None => meta is None,
            }
        }),
{
    let files = match selected.section {
        DiffSectionKind::Conflicted => &document.conflicted_files,
        DiffSectionKind::Staged => &document.staged_files,
        DiffSectionKind::Unstaged => &document.unstaged_files,
    };
    match find_file(files, &selected.relative_path) {
        Some(index) => Some(files[index].clone()),
        None => None,
    }
}

impl<'a> DiffRenderSnapshot<'a> {
    /// The snapshot is that of its tab.
    pub open spec fn is_current(self, oversize_message: Seq<char>) -> bool {
        &&& match self.tab.index.document {
            Some(document) => {
                &&& self.has_index
                &&& self.index_file_count == changed_file_count(document)
                &&& self.conflicted_file_count == document.conflicted_files@.len()
                &&& self.staged_file_count == document.staged_files@.len()
                &&& self.unstaged_file_count == document.unstaged_files@.len()
                &&& strings::optional_view(self.index_branch) == Some(
                    document.snapshot.branch_name@,
                )
                &&& self.index_generation == Some(document.snapshot.generation)
                &&& self.merge_state == document.merge_state
                &&& strings::optional_view(self.repo_state_warning) == strings::optional_view(
                    document.repo_state_warning,
                )
                &&& self.tracking_behind == document.tracking.behind
                &&& self.has_upstream == document.tracking.upstream_ref is Some
            },
            None => {
                &&& !self.has_index
                &&& self.index_file_count == 0
                &&& self.conflicted_file_count == 0
                &&& self.staged_file_count == 0
                &&& self.unstaged_file_count == 0
                &&& self.index_branch is None
                &&& self.index_generation is None
                &&& self.merge_state is None
                &&& self.repo_state_warning is None
                &&& self.tracking_behind == 0
                &&& !self.has_upstream
            },
        }
        &&& match self.tab.file.document {
            Some(document) => {
                &&& self.file_selection is Some && self.file_selection->0@ == document.selection@
                &&& self.file_generation == Some(document.generation)
                &&& self.is_oversize == oversize_lines(document.lines@, oversize_message)
            },
            None => self.file_selection is None && self.file_generation is None
                && !self.is_oversize,
        }
        &&& match shown_file(*self.tab) {
            Some(file) => self.file_meta is Some && self.file_meta->0@ == file@,
            None => self.file_meta is None,
        }
    }

    /// Takes the snapshot of a tab.
    pub fn from_tab(tab: &'a DiffTabState, oversize_message: &str) -> (snapshot: Self)
        ensures
            snapshot.tab == tab,
            snapshot.is_current(oversize_message@),
    {
        let mut snapshot = DiffRenderSnapshot {
            tab,
            has_index: false,
            index_file_count: 0,
            conflicted_file_count: 0,
            staged_file_count: 0,
            unstaged_file_count: 0,
            index_branch: None,
            index_generation: None,
            merge_state: None,
            repo_state_warning: None,
            file_meta: None,
            file_selection: None,
            file_generation: None,
            is_oversize: false,
            tracking_behind: 0,
            has_upstream: false,
        };
        if let Some(document) = &tab.index.document {
            snapshot.has_index = true;
            snapshot.conflicted_file_count = document.conflicted_files.len();
            snapshot.staged_file_count = document.staged_files.len();
            snapshot.unstaged_file_count = document.unstaged_files.len();
            snapshot.index_file_count =
            document.conflicted_files.len().saturating_add(
                document.staged_files.len(),
            ).saturating_add(document.unstaged_files.len());
            snapshot.index_branch = Some(document.snapshot.branch_name.clone());
            snapshot.index_generation = Some(document.snapshot.generation);
            snapshot.merge_state = document.merge_state;
            snapshot.repo_state_warning = match &document.repo_state_warning {
                Some(warning) => Some(warning.clone()),
                None => None,
            };
            snapshot.tracking_behind = document.tracking.behind;
            snapshot.has_upstream = document.tracking.upstream_ref.is_some();
            if let Some(selected) = &tab.selected_file {
                snapshot.file_meta = selected_file_meta(document, selected);
            }
        }
        if let Some(document) = &tab.file.document {
            snapshot.file_meta = Some(document.file.clone());
            snapshot.file_selection = Some(document.selection.clone());
            snapshot.file_generation = Some(document.generation);
            snapshot.is_oversize = is_oversize_document(document, oversize_message);
        }
        snapshot
    }

    /// Whether an action of the tab has not come back yet.
    pub fn any_action_in_flight(&self) -> (in_flight: bool)
        ensures
            in_flight == self.in_flight(),
    {
        self.tab.local_action_in_flight || self.tab.remote_op_in_flight
    }

    /// An action of the tab has not come back yet.
    pub open spec fn in_flight(self) -> bool {
        self.tab.local_action_in_flight || self.tab.remote_op_in_flight
    }

    /// Whether there is a field for a commit message: not during a merge, not in a state of the
    /// repository that is not supported, and not without staged files.
    pub fn show_commit_input(&self) -> (shown: bool)
        ensures
            shown == (self.merge_state is None && self.repo_state_warning is None
                && self.staged_file_count > 0),
    {
        self.merge_state.is_none() && self.repo_state_warning.is_none() && self.staged_file_count
            > 0
    }

    /// Whether the staged files have a section.
    pub fn show_staged_section(&self) -> (shown: bool)
        ensures
            shown == (self.repo_state_warning is None && self.staged_file_count > 0),
    {
        self.repo_state_warning.is_none() && self.staged_file_count > 0
    }

    /// The repository is in a state that the tab has no actions for.
    pub open spec fn unsupported(self) -> bool {
        self.merge_state is None && self.repo_state_warning is Some
    }

    /// Whether the repository is in a state that the tab has no actions for.
    pub fn unsupported_repo_state(&self) -> (unsupported: bool)
        ensures
            unsupported == self.unsupported(),
    {
        self.merge_state.is_none() && self.repo_state_warning.is_some()
    }
}

/// Whether the shown file diff is older than the repository.
pub fn is_displayed_file_stale(displayed: Option<u64>, latest: Option<u64>) -> (stale: bool)
    ensures
        stale == (displayed is Some && latest is Some && displayed->0 < latest->0),
{
    match (displayed, latest) {
        (Some(displayed), Some(latest)) => displayed < latest,
        _ => false,
    }
}

/// A path finds the first file that has it, and none only where no file has it.
pub proof fn path_finds_its_file(files: Seq<ChangedFile>, path: Seq<Seq<char>>)
    ensures
        match file_at_path(files, path) {
            Some(index) => {
                &&& 0 <= index < files.len()
                &&& files[index].relative_path@ == path
                &&& forall|i: int| 0 <= i < index ==> (#[trigger] files[i]).relative_path@ != path
            },
            None => forall|i: int| 0 <= i < files.len() ==> (#[trigger] files[i]).relative_path@
                != path,
        },
    decreases files.len(),
{
    if files.len() > 0 {
        let rest = files.drop_last();
        path_finds_its_file(rest, path);
        assert forall|i: int| 0 <= i < rest.len() implies rest[i] == #[trigger] files[i] by {}
    }
}

/// The changed files are counted over all sections.
pub proof fn all_sections_are_counted(document: DiffDocument)
    requires
        document.conflicted_files@.len() + document.staged_files@.len()
            + document.unstaged_files@.len() <= usize::MAX,
    ensures
        changed_file_count(document) == section_files(document, DiffSectionKind::Conflicted).len()
            + section_files(document, DiffSectionKind::Staged).len() + section_files(
            document,
            DiffSectionKind::Unstaged,
        ).len(),
        section_files(document, DiffSectionKind::Conflicted) == document.conflicted_files@,
        section_files(document, DiffSectionKind::Staged) == document.staged_files@,
        section_files(document, DiffSectionKind::Unstaged) == document.unstaged_files@,
{
}

/// Until its diff is loaded, the file that is shown is the selected one of the index: it has the
/// selected path and is of the selected section.
pub proof fn shown_file_is_the_selected_one(tab: DiffTabState)
    requires
        tab.file.document is None,
        tab.index.document is Some,
        tab.selected_file is Some,
        shown_file(tab) is Some,
    ensures
        shown_file(tab)->0.relative_path@ == tab.selected_file->0.relative_path@,
        section_files(tab.index.document->0, tab.selected_file->0.section).contains(
            shown_file(tab)->0,
        ),
{
    let files = section_files(tab.index.document->0, tab.selected_file->0.section);
    path_finds_its_file(files, tab.selected_file->0.relative_path@);
}

} // verus!
