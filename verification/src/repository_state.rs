//! The state of a repository browser tab.

use crate::model::{DiffLineView, RelativePath};
use crate::repository_graph::{Oid, RepositoryGraphDocument};
use crate::strings;
use crate::widgets::ActionBanner;
use vstd::prelude::*;
use vstd::string::*;

verus! {

/// Names a branch.
#[derive(Debug, PartialEq, Eq)]
pub enum RepositoryBranchSelection {
    Local { name: String },
    Remote { full_ref: String },
}

/// A branch by its name, or by its full reference where it is a remote's.
pub enum BranchSelectionView {
    Local { name: Seq<char> },
    Remote { full_ref: Seq<char> },
}

impl View for RepositoryBranchSelection {
    type V = BranchSelectionView;

    open spec fn view(&self) -> BranchSelectionView {
        match self {
            RepositoryBranchSelection::Local { name } => BranchSelectionView::Local { name: name@ },
            RepositoryBranchSelection::Remote { full_ref } => BranchSelectionView::Remote {
                full_ref: full_ref@,
            },
        }
    }
}

impl RepositoryBranchSelection {
    /// Whether both name the same branch.
    pub fn same_branch(&self, other: &RepositoryBranchSelection) -> (same: bool)
        ensures
            same == (self@ == other@),
    {
        match (self, other) {
            (
                RepositoryBranchSelection::Local { name },
                RepositoryBranchSelection::Local { name: other },
            ) => strings::same_text(name.as_str(), other.as_str()),
            (
                RepositoryBranchSelection::Remote { full_ref },
                RepositoryBranchSelection::Remote { full_ref: other },
            ) => strings::same_text(full_ref.as_str(), other.as_str()),
            _ => false,
        }
    }
}

impl Clone for RepositoryBranchSelection {
    fn clone(&self) -> (result: Self)
        ensures
            result == *self,
    {
        match self {
            RepositoryBranchSelection::Local { name } => RepositoryBranchSelection::Local {
                name: name.clone(),
            },
            RepositoryBranchSelection::Remote { full_ref } => RepositoryBranchSelection::Remote {
                full_ref: full_ref.clone(),
            },
        }
    }
}

/// What is being done to a branch.
#[derive(Clone, Copy, Debug, PartialEq, Eq, Structural)]
pub enum RepositoryBranchAction {
    Checkout,
    Create,
    Delete,
}

/// Names a file of a commit.
#[derive(Debug, PartialEq, Eq)]
pub struct CommitFileSelection {
    pub commit_oid: Oid,
    pub relative_path: RelativePath,
}

impl View for CommitFileSelection {
    type V = (Oid, Seq<Seq<char>>);

    open spec fn view(&self) -> (Oid, Seq<Seq<char>>) {
        (self.commit_oid, self.relative_path@)
    }
}

impl CommitFileSelection {
    /// Whether both name the same file of the same commit.
    pub fn same_selection(&self, other: &CommitFileSelection) -> (same: bool)
        ensures
            same == (self@ == other@),
    {
        self.commit_oid == other.commit_oid && self.relative_path.same_path(&other.relative_path)
    }
}

/// What a commit did to a file.
#[derive(Clone, Copy, Debug, PartialEq, Eq, Structural)]
pub enum CommitFileStatus {
    Added,
    Modified,
    Deleted,
    Renamed,
    Typechange,
}

/// A file that a commit changed.
#[derive(Debug)]
pub struct CommitChangedFile {
    pub path: RelativePath,
    pub status: CommitFileStatus,
    pub additions: usize,
    pub deletions: usize,
}

/// What is known of a commit.
#[derive(Debug)]
pub struct CommitDetailDocument {
    pub oid: Oid,
    pub short_oid: String,
    pub summary: String,
    pub author_name: String,
    pub author_email: String,
    pub committed_at_unix: i64,
    pub message_body: String,
    pub changed_files: Vec<CommitChangedFile>,
}

/// The diff of one file of a commit.
#[derive(Debug)]
pub struct CommitFileDiffDocument {
    pub commit_oid: Oid,
    pub selection: CommitFileSelection,
    pub lines: Vec<DiffLineView>,
}

/// Something that is loaded in the background.
#[derive(Debug)]
pub struct AsyncDocumentState<T> {
    pub document: Option<T>,
    pub error: Option<String>,
    pub loading: bool,
}

impl<T> AsyncDocumentState<T> {
    /// Nothing is loaded, nothing went wrong and nothing is on its way.
    pub open spec fn is_idle(self) -> bool {
        self.document is None && self.error is None && !self.loading
    }
}

impl<T> Default for AsyncDocumentState<T> {
    fn default() -> (state: Self)
        ensures
            state.is_idle(),
    {
        AsyncDocumentState { document: None, error: None, loading: false }
    }
}

/// A tab that shows the branches and the history of a repository.
#[derive(Debug)]
pub struct RepositoryGraphTabState {
    pub project_id: String,
    pub scope_root: String,
    pub graph: AsyncDocumentState<RepositoryGraphDocument>,
    pub selected_branch: Option<RepositoryBranchSelection>,
    pub selected_commit: Option<Oid>,
    pub commit_detail: AsyncDocumentState<CommitDetailDocument>,
    pub selected_commit_file: Option<CommitFileSelection>,
    pub commit_file_diff: AsyncDocumentState<CommitFileDiffDocument>,
    pub fetch_in_flight: bool,
    pub pull_in_flight: bool,
    pub active_branch_action: Option<RepositoryBranchAction>,
    pub action_banner: Option<ActionBanner>,
    pub occupied_local_branches: Vec<String>,
    pub expanded_remote_groups: Vec<String>,
}

impl RepositoryGraphTabState {
    /// No branch is listed twice as occupied, and no remote twice as open.
    pub open spec fn wf(self) -> bool {
        &&& strings::views(self.occupied_local_branches@).no_duplicates()
        &&& strings::views(self.expanded_remote_groups@).no_duplicates()
    }

    /// Nothing is loaded, selected or under way.
    pub open spec fn is_fresh(self) -> bool {
        &&& self.graph.is_idle()
        &&& self.selected_branch is None
        &&& self.selected_commit is None
        &&& self.commit_detail.is_idle()
        &&& self.selected_commit_file is None
        &&& self.commit_file_diff.is_idle()
        &&& !self.fetch_in_flight
        &&& !self.pull_in_flight
        &&& self.active_branch_action is None
        &&& self.action_banner is None
        &&& self.occupied_local_branches@.len() == 0
        &&& self.expanded_remote_groups@.len() == 0
    }

    /// A tab that shows nothing yet.
    pub fn new(project_id: String, scope_root: String) -> (state: Self)
        ensures
            state.project_id == project_id,
            state.scope_root == scope_root,
            state.is_fresh(),
            state.wf(),
    {
        RepositoryGraphTabState {
            project_id,
            scope_root,
            graph: AsyncDocumentState { document: None, error: None, loading: false },
            selected_branch: None,
            selected_commit: None,
            commit_detail: AsyncDocumentState { document: None, error: None, loading: false },
            selected_commit_file: None,
            commit_file_diff: AsyncDocumentState { document: None, error: None, loading: false },
            fetch_in_flight: false,
            pull_in_flight: false,
            active_branch_action: None,
            action_banner: None,
            occupied_local_branches: Vec::new(),
            expanded_remote_groups: Vec::new(),
        }
    }
}

/// A tab of the project `project-1` in `/repo` that shows nothing yet.
pub fn tab_state() -> (state: RepositoryGraphTabState)
    ensures
        state.project_id@ == "project-1"@,
        state.scope_root@ == "/repo"@,
        state.is_fresh(),
        state.wf(),
{
    RepositoryGraphTabState::new("project-1".to_owned(), "/repo".to_owned())
}

/// The name is in the list.
pub open spec fn lists_name(names: Seq<String>, name: Seq<char>) -> bool {
    strings::views(names).contains(name)
}

/// Whether the name is in the list.
pub fn name_listed(names: &Vec<String>, name: &str) -> (listed: bool)
    ensures
        listed == lists_name(names@, name@),
{
    let mut i: usize = 0;
    while i < names.len()
        invariant
            i <= names@.len(),
            forall|k: int| 0 <= k < i ==> strings::views(names@)[k] != name@,
        decreases names@.len() - i,
    {
        if strings::same_text(names[i].as_str(), name) {
            assert(strings::views(names@)[i as int] == name@);
            return true;
        }
        i = i + 1;
    }
    false
}

} // verus!
