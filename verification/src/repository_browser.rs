//! The repository browser: what it keeps between frames and what its panes show.

use crate::branch_rail;
use crate::branch_rail::RailRow;
use crate::diff_cache;
use crate::diff_cache::CachedDiffLines;
use crate::diff_state::{FileDiffHunk, GitSnapshotSummary};
use crate::model::{DiffSectionKind, DiffSelectionKey, RelativePath};
use crate::repository_actions;
use crate::repository_actions::RepositoryHeader;
use crate::repository_graph;
use crate::repository_graph::{CommitGraphNode, Oid, RepositoryGraphDocument, StyledCommitRow};
use crate::repository_keys;
use crate::repository_keys::{BranchRailCacheKey, CommitRowsCacheKey};
use crate::repository_panes;
use crate::repository_panes::{BranchElement, CommitPane, CommitRow, DetailPane};
use crate::repository_state::{CommitFileDiffDocument, RepositoryGraphTabState};
use crate::theme::OrcaTheme;
use crate::widgets;
use crate::widgets::PanelMessage;
use std::collections::HashMap;
use vstd::prelude::*;
use vstd::std_specs::hash::*;

verus! {

/// Tells whether the kept lines of a commit's file are out of date.
#[derive(Debug)]
pub struct CommitFileCacheKey {
    pub commit_oid: Oid,
    pub path: RelativePath,
    pub line_count: usize,
}

impl CommitFileCacheKey {
    /// The key is that of a diff.
    pub open spec fn is_key_of(self, document: CommitFileDiffDocument) -> bool {
        &&& self.commit_oid == document.commit_oid
        &&& self.path@ == document.selection.relative_path@
        &&& self.line_count == document.lines@.len()
    }
}

/// The repository browser.
#[derive(Debug)]
pub struct RepositoryBrowserView {
    pub project_id: String,
    pub branch_cache_key: Option<BranchRailCacheKey>,
    pub commit_cache_key: Option<CommitRowsCacheKey>,
    pub branch_rows: Vec<RailRow>,
    pub commit_rows: Vec<StyledCommitRow>,
    pub commit_file_cache_key: Option<CommitFileCacheKey>,
    pub commit_file_line_cache: Option<CachedDiffLines>,
}

/// The rows are those of the commits of a graph.
pub open spec fn rows_show(rows: Seq<StyledCommitRow>, graph: RepositoryGraphDocument) -> bool {
    &&& rows.len() == graph.commits@.len()
    &&& forall|i: int|
        0 <= i < rows.len() ==> repository_graph::row_shows(
            #[trigger] rows[i],
            graph.commits@,
            graph.head,
            i,
        )
}

/// The kept lines are those of the diff of a commit's file.
pub open spec fn commit_lines_hold(
    cache: CachedDiffLines,
    document: CommitFileDiffDocument,
) -> bool {
    &&& cache.selection@.section == DiffSectionKind::Unstaged
    &&& cache.selection@.relative_path == document.selection.relative_path@
    &&& cache.generation == 0
    &&& diff_cache::same_lines(cache.lines@, diff_cache::shown_lines(document.lines@))
    &&& cache.hunk_headers@ == Map::<usize, FileDiffHunk>::empty()
    &&& cache.max_line_chars == diff_cache::longest_line(diff_cache::shown_lines(document.lines@))
}

fn same_branch_key(kept: Option<BranchRailCacheKey>, key: BranchRailCacheKey) -> (same: bool)
    ensures
        same == (kept == Some(key)),
{
    match kept {
        Some(kept) => kept == key,
        None => false,
    }
}

fn same_commit_key(kept: Option<CommitRowsCacheKey>, key: CommitRowsCacheKey) -> (same: bool)
    ensures
        same == (kept == Some(key)),
{
    match kept {
        Some(kept) => kept == key,
        None => false,
    }
}

/// The graph of a tab, once it is loaded.
pub open spec fn loaded_graph(state: Option<&RepositoryGraphTabState>) -> Option<
    RepositoryGraphDocument,
> {
    match state {
        Some(state) => state.graph.document,
        None => None,
    }
}

/// The diff of a commit's file of a tab, once it is loaded.
pub open spec fn loaded_file_diff(state: Option<&RepositoryGraphTabState>) -> Option<
    CommitFileDiffDocument,
> {
    match state {
        Some(state) => state.commit_file_diff.document,
        None => None,
    }
}

impl RepositoryBrowserView {
    /// Nothing is kept of a graph.
    pub open spec fn has_no_graph(self) -> bool {
        &&& self.branch_cache_key is None
        &&& self.commit_cache_key is None
        &&& self.branch_rows@.len() == 0
        &&& self.commit_rows@.len() == 0
    }

    /// The kept rows of commits can be drawn.
    pub open spec fn rows_fit(self) -> bool {
        forall|i: int|
            0 <= i < self.commit_rows@.len() ==> repository_graph::lanes_fit(
                #[trigger] self.commit_rows@[i],
            )
    }

    /// A browser that keeps nothing yet.
    pub fn new(project_id: String) -> (view: Self)
        ensures
            view.project_id == project_id,
            view.has_no_graph(),
            view.rows_fit(),
            view.commit_file_cache_key is None,
            view.commit_file_line_cache is None,
    {
        RepositoryBrowserView {
            project_id,
            branch_cache_key: None,
            commit_cache_key: None,
            branch_rows: Vec::new(),
            commit_rows: Vec::new(),
            commit_file_cache_key: None,
            commit_file_line_cache: None,
        }
    }

    /// Forgets what was kept of a graph.
    pub fn clear_graph_cache(&mut self)
        ensures
            final(self).has_no_graph(),
            final(self).project_id == old(self).project_id,
            final(self).commit_file_cache_key == old(self).commit_file_cache_key,
            final(self).commit_file_line_cache == old(self).commit_file_line_cache,
    {
        self.branch_cache_key = None;
        self.commit_cache_key = None;
        self.branch_rows = Vec::new();
        self.commit_rows = Vec::new();
    }

    /// The rows of branches and commits are brought up to date. Rows whose key has not changed are
    /// kept as they are; without a graph there are none.
    pub open spec fn rows_follow(
        self,
        before: Self,
        state: Option<&RepositoryGraphTabState>,
        layout_width_bucket: u16,
        inline_fits: Seq<bool>,
    ) -> bool {
        match loaded_graph(state) {
            None => self.has_no_graph(),
            Some(graph) => {
                let branch_key = repository_keys::branch_rail_key(
                    graph,
                    state->0.occupied_local_branches@,
                    state->0.expanded_remote_groups@,
                    layout_width_bucket,
                );
                let commit_key = repository_keys::commit_rows_key(graph);
                &&& self.branch_cache_key == Some(branch_key)
                &&& self.commit_cache_key == Some(commit_key)
                &&& if before.branch_cache_key == Some(branch_key) {
                    self.branch_rows == before.branch_rows
                } else {
                    self.branch_rows@ == branch_rail::rail_rows(
                        graph,
                        state->0.occupied_local_branches@,
                        Some(state->0.expanded_remote_groups@),
                        Some(inline_fits),
                    )
                }
                &&& if before.commit_cache_key == Some(commit_key) {
                    self.commit_rows == before.commit_rows
                } else {
                    rows_show(self.commit_rows@, graph)
                }
            },
        }
    }

    /// Brings the rows of branches and commits up to date. The pane's width, in whole pixels,
    /// decides which tracked branches fit into the rows.
    pub fn sync_graph_cache(
        &mut self,
        state: Option<&RepositoryGraphTabState>,
        layout_width_bucket: u16,
        inline_fits: &Vec<bool>,
    )
        ensures
            final(self).project_id == old(self).project_id,
            final(self).commit_file_cache_key == old(self).commit_file_cache_key,
            final(self).commit_file_line_cache == old(self).commit_file_line_cache,
            final(self).rows_follow(*old(self), state, layout_width_bucket, inline_fits@),
            old(self).rows_fit() ==> final(self).rows_fit(),
    {
        let state = match state {
            Some(state) => state,
            None => {
                self.clear_graph_cache();
                return;
            },
        };
        let graph = match &state.graph.document {
            Some(graph) => graph,
            None => {
                self.clear_graph_cache();
                return;
            },
        };
        let branch_key = repository_keys::branch_rail_cache_key(
            graph,
            &state.occupied_local_branches,
            &state.expanded_remote_groups,
            layout_width_bucket,
        );
        if !same_branch_key(self.branch_cache_key, branch_key) {
            self.branch_rows =
            branch_rail::layout_branch_rail(
                graph,
                &state.occupied_local_branches,
                Some(&state.expanded_remote_groups),
                Some(inline_fits),
            );
            self.branch_cache_key = Some(branch_key);
        }
        let commit_key = repository_keys::commit_rows_cache_key(graph);
        if !same_commit_key(self.commit_cache_key, commit_key) {
            self.commit_rows = repository_graph::style_commit_rows(graph);
            assert forall|i: int| 0 <= i < self.commit_rows@.len() implies repository_graph::lanes_fit(
                #[trigger] self.commit_rows@[i],
            ) by {
                repository_graph::lemma_row_lanes_fit(
                    self.commit_rows@[i],
                    graph.commits@,
                    graph.head,
                    i,
                );
            }
            self.commit_cache_key = Some(commit_key);
        }
    }

    /// Forgets the lines of a commit's file.
    pub fn clear_commit_file_cache(&mut self)
        ensures
            final(self).commit_file_cache_key is None,
            final(self).commit_file_line_cache is None,
            final(self).project_id == old(self).project_id,
            final(self).branch_cache_key == old(self).branch_cache_key,
            final(self).commit_cache_key == old(self).commit_cache_key,
            final(self).branch_rows == old(self).branch_rows,
            final(self).commit_rows == old(self).commit_rows,
    {
        self.commit_file_cache_key = None;
        self.commit_file_line_cache = None;
    }

    /// The kept lines are those of the diff of a commit's file that is loaded.
    pub open spec fn keeps_file_lines(self, state: Option<&RepositoryGraphTabState>) -> bool {
        &&& loaded_file_diff(state) is Some
        &&& self.commit_file_cache_key is Some
        &&& self.commit_file_cache_key->0.is_key_of(loaded_file_diff(state)->0)
    }

    /// The kept lines are brought up to date.
    pub open spec fn file_lines_follow(
        self,
        before: Self,
        state: Option<&RepositoryGraphTabState>,
    ) -> bool {
        match loaded_file_diff(state) {
            None => self.commit_file_cache_key is None && self.commit_file_line_cache is None,
            Some(document) => if before.keeps_file_lines(state) {
                self.commit_file_cache_key == before.commit_file_cache_key
                    && self.commit_file_line_cache == before.commit_file_line_cache
            } else {
                self.keeps_file_lines(state) && self.commit_file_line_cache is Some
                    && commit_lines_hold(self.commit_file_line_cache->0, document)
            },
        }
    }

    /// Brings the kept lines of the selected commit's file up to date, and says whether the
    /// horizontal scroll position starts anew.
    pub fn sync_commit_file_cache(&mut self, state: Option<&RepositoryGraphTabState>) -> (reset:
        bool)
        ensures
            final(self).project_id == old(self).project_id,
            final(self).branch_cache_key == old(self).branch_cache_key,
            final(self).commit_cache_key == old(self).commit_cache_key,
            final(self).branch_rows == old(self).branch_rows,
            final(self).commit_rows == old(self).commit_rows,
            reset == !old(self).keeps_file_lines(state),
            final(self).file_lines_follow(*old(self), state),
    {
        broadcast use group_hash_axioms;

        let document = match state {
            Some(state) => match &state.commit_file_diff.document {
                Some(document) => document,
                None => {
                    self.clear_commit_file_cache();
                    return true;
                },
            },
            None => {
                self.clear_commit_file_cache();
                return true;
            },
        };
        let hit = match &self.commit_file_cache_key {
            Some(key) => key.commit_oid == document.commit_oid && key.path.same_path(
                &document.selection.relative_path,
            ) && key.line_count == document.lines.len(),
            None => false,
        };
        if hit {
            return false;
        }
        let (lines, max_line_chars) = diff_cache::filter_lines(&document.lines);
        let hunk_headers: HashMap<usize, FileDiffHunk> = HashMap::new();
        self.commit_file_line_cache =
        Some(
            CachedDiffLines {
                selection: DiffSelectionKey {
                    section: DiffSectionKind::Unstaged,
                    relative_path: document.selection.relative_path.clone(),
                },
                generation: 0,
                lines,
                hunk_headers,
                max_line_chars,
            },
        );
        self.commit_file_cache_key =
        Some(
            CommitFileCacheKey {
                commit_oid: document.commit_oid,
                path: document.selection.relative_path.clone(),
                line_count: document.lines.len(),
            },
        );
        true
    }

    /// Makes the lines of the selected commit's file anew for another theme. The rows of branches
    /// and commits have no colours and stay.
    pub fn invalidate_theme_cache(&mut self, state: Option<&RepositoryGraphTabState>) -> (reset:
        bool)
        ensures
            reset,
            final(self).project_id == old(self).project_id,
            final(self).branch_cache_key == old(self).branch_cache_key,
            final(self).commit_cache_key == old(self).commit_cache_key,
            final(self).branch_rows == old(self).branch_rows,
            final(self).commit_rows == old(self).commit_rows,
            match loaded_file_diff(state) {
                None => final(self).commit_file_cache_key is None && final(
                    self).commit_file_line_cache is None,
                Some(document) => final(self).keeps_file_lines(state) && final(
                    self).commit_file_line_cache is Some && commit_lines_hold(
                    final(self).commit_file_line_cache->0,
                    document,
                ),
            },
    {
        self.commit_file_cache_key = None;
        self.sync_commit_file_cache(state)
    }
}

/// The commit of a row of the history, where the row is there and the graph holds its commit.
pub open spec fn shown_commit(
    rows: Seq<StyledCommitRow>,
    state: RepositoryGraphTabState,
    index: int,
) -> Option<CommitGraphNode> {
    match state.graph.document {
        Some(graph) => if 0 <= index < rows.len() && rows[index].commit_index
            < graph.commits@.len() {
            Some(graph.commits@[rows[index].commit_index as int])
        } else {
            None
        },
        None => None,
    }
}

/// A frame of the repository browser.
#[derive(Debug)]
pub struct BrowserFrame {
    /// The horizontal scroll position starts anew.
    pub reset: bool,
    pub header: RepositoryHeader,
    pub branches: Vec<BranchElement>,
    pub commits: CommitPane,
    pub detail: DetailPane,
}

/// What the repository browser shows.
#[derive(Debug)]
pub enum BrowserContent {
    /// There is no tab.
    Missing(PanelMessage),
    Tab(BrowserFrame),
}

/// The frame shows the tab with what the browser keeps.
pub open spec fn shows_tab(
    frame: BrowserFrame,
    view: RepositoryBrowserView,
    palette: OrcaTheme,
    project_name: Option<&str>,
    state: RepositoryGraphTabState,
    snapshot: Option<&GitSnapshotSummary>,
    scope_busy: bool,
    toolbar_busy: bool,
) -> bool {
    let graph = match state.graph.document {
        Some(graph) => Some(&graph),
        None => None,
    };
    &&& repository_actions::shows_header(
        frame.header,
        palette,
        match project_name {
            Some(name) => name@,
            None => "Missing Project"@,
        },
        state,
        scope_busy,
        toolbar_busy,
        repository_actions::pull_label(graph, state.pull_in_flight),
        repository_actions::pull_disabled(graph, snapshot, scope_busy, state.pull_in_flight),
    )
    &&& match state.graph.document {
        Some(graph) => repository_panes::draws_rows(
            frame.branches@,
            palette,
            graph,
            state.selected_branch,
            view.branch_rows@,
        ),
        None => frame.branches@.len() == 0,
    }
    &&& frame.commits@ == repository_panes::commit_pane(
        state,
        view.commit_rows@.len() as int,
        view.commit_file_line_cache is Some,
    )
    &&& repository_panes::shows_detail(frame.detail, palette, state)
}

impl RepositoryBrowserView {
    /// Draws the repository browser: its rows and lines are brought up to date, and below the
    /// header stand the branches, the history or a file of it, and the details of what is selected.
    pub fn render(
        &mut self,
        palette: &OrcaTheme,
        project_name: Option<&str>,
        state: Option<&RepositoryGraphTabState>,
        snapshot: Option<&GitSnapshotSummary>,
        scope_busy: bool,
        toolbar_busy: bool,
        layout_width_bucket: u16,
        inline_fits: &Vec<bool>,
    ) -> (content: BrowserContent)
        ensures
            final(self).project_id == old(self).project_id,
            final(self).rows_follow(*old(self), state, layout_width_bucket, inline_fits@),
            final(self).file_lines_follow(*old(self), state),
            old(self).rows_fit() ==> final(self).rows_fit(),
            match (state, content) {
                (Some(shown), BrowserContent::Tab(frame)) => frame.reset
                    == !old(self).keeps_file_lines(state) && shows_tab(
                    frame,
                    *final(self),
                    *palette,
                    project_name,
                    *shown,
                    snapshot,
                    scope_busy,
                    toolbar_busy,
                ),
                (None, BrowserContent::Missing(message)) => message@ == widgets::panel_text(
                    "Repository browser unavailable"@,
                    "Open the repository browser from a git-backed project."@,
                ),
                _ => false,
            },
    {
        self.sync_graph_cache(state, layout_width_bucket, inline_fits);
        let reset = self.sync_commit_file_cache(state);
        let state = match state {
            Some(state) => state,
            None => {
                return BrowserContent::Missing(repository_panes::missing_browser_message());
            },
        };
        let graph = match &state.graph.document {
            Some(graph) => Some(graph),
            None => None,
        };
        let pull = repository_actions::repository_pull_action_state(
            graph,
            snapshot,
            scope_busy,
            state.pull_in_flight,
        );
        let header = repository_actions::render_header(
            palette,
            match project_name {
                Some(name) => name,
                None => "Missing Project",
            },
            state,
            scope_busy,
            toolbar_busy,
            &pull,
        );
        let branches = match graph {
            Some(graph) => repository_panes::render_branch_pane(
                palette,
                graph,
                &state.selected_branch,
                &self.branch_rows,
            ),
            None => Vec::new(),
        };
        let commits = repository_panes::render_commit_pane(
            state,
            self.commit_rows.len(),
            self.commit_file_line_cache.is_some(),
        );
        let detail = repository_panes::render_detail_pane(palette, state);
        BrowserContent::Tab(BrowserFrame { reset, header, branches, commits, detail })
    }

    /// The commit of a kept row, where the row is there and the graph holds its commit.
    fn commit_of_row<'a>(&self, state: &'a RepositoryGraphTabState, index: usize) -> (commit: Option<
        &'a CommitGraphNode,
    >)
        ensures
            match commit {
                Some(commit) => shown_commit(self.commit_rows@, *state, index as int) == Some(
                    *commit,
                ),
                None => shown_commit(self.commit_rows@, *state, index as int) is None,
            },
    {
        if index >= self.commit_rows.len() {
            return None;
        }
        let at = self.commit_rows[index].commit_index;
        match &state.graph.document {
            Some(graph) => if at < graph.commits.len() {
                Some(&graph.commits[at])
            } else {
                None
            },
            None => None,
        }
    }

    /// Draws a row of the history. The row of the selected commit is drawn as such, and the labels
    /// tell the branch that is checked out.
    pub fn render_commit_row_at(
        &self,
        palette: &OrcaTheme,
        state: &RepositoryGraphTabState,
        index: usize,
        now_unix: i64,
    ) -> (row: Option<CommitRow>)
        requires
            self.rows_fit(),
            shown_commit(self.commit_rows@, *state, index as int) matches Some(commit) ==> i64::MIN
                <= now_unix - commit.authored_at_unix <= i64::MAX,
        ensures
            match (row, shown_commit(self.commit_rows@, *state, index as int)) {
                (Some(row), Some(commit)) => repository_panes::draws_commit(
                    row,
                    *palette,
                    self.commit_rows@[index as int],
                    commit,
                    state.selected_commit == Some(commit.oid),
                    repository_panes::head_branch(*state),
                    now_unix,
                ),
                (None, None) => true,
                _ => false,
            },
    {
        let commit = match self.commit_of_row(state, index) {
            Some(commit) => commit,
            None => {
                return None;
            },
        };
        let is_selected = match state.selected_commit {
            Some(oid) => oid == commit.oid,
            None => false,
        };
        let head_branch = repository_panes::current_head_branch(state);
        Some(
            repository_panes::render_commit_row(
                palette,
                &self.commit_rows[index],
                commit,
                is_selected,
                &head_branch,
                now_unix,
            ),
        )
    }

    /// The commit that a click on a row of the history selects.
    pub fn click_commit_row(&self, state: &RepositoryGraphTabState, index: usize) -> (oid: Option<Oid>)
        ensures
            oid == match shown_commit(self.commit_rows@, *state, index as int) {
                Some(commit) => Some(commit.oid),
                None => None,
            },
    {
        match self.commit_of_row(state, index) {
            Some(commit) => Some(commit.oid),
            None => None,
        }
    }
}

/// Rows that were made for the graph of a tab show its commits in order.
pub proof fn fresh_rows_show_their_commits(
    rows: Seq<StyledCommitRow>,
    state: RepositoryGraphTabState,
    index: int,
)
    requires
        state.graph.document is Some,
        rows_show(rows, state.graph.document->0),
        0 <= index < rows.len(),
    ensures
        shown_commit(rows, state, index) == Some(state.graph.document->0.commits@[index]),
{
    assert(repository_graph::row_shows(
        rows[index],
        state.graph.document->0.commits@,
        state.graph.document->0.head,
        index,
    ));
}

/// A browser that is drawn again with nothing changed keeps all that it kept.
pub proof fn redrawing_keeps_rows(
    before: RepositoryBrowserView,
    first: RepositoryBrowserView,
    second: RepositoryBrowserView,
    state: RepositoryGraphTabState,
    layout_width_bucket: u16,
    inline_fits: Seq<bool>,
)
    requires
        state.graph.document is Some,
        first.rows_follow(before, Some(&state), layout_width_bucket, inline_fits),
        first.file_lines_follow(before, Some(&state)),
        second.rows_follow(first, Some(&state), layout_width_bucket, inline_fits),
        second.file_lines_follow(first, Some(&state)),
    ensures
        second.branch_rows == first.branch_rows,
        second.commit_rows == first.commit_rows,
        second.commit_file_line_cache == first.commit_file_line_cache,
{
}

/// The lines that are kept of a commit's file are those of the file and commit that are loaded, and
/// none are kept where none is loaded.
pub proof fn kept_file_lines_are_of_the_loaded_file(
    after: RepositoryBrowserView,
    before: RepositoryBrowserView,
    state: Option<&RepositoryGraphTabState>,
)
    requires
        after.file_lines_follow(before, state),
    ensures
        loaded_file_diff(state) is None ==> after.commit_file_line_cache is None,
        loaded_file_diff(state) matches Some(document) ==> {
            &&& after.commit_file_cache_key is Some
            &&& after.commit_file_cache_key->0.commit_oid == document.commit_oid
            &&& after.commit_file_cache_key->0.path@ == document.selection.relative_path@
            &&& before.commit_file_cache_key is Some && (
            before.commit_file_cache_key->0.commit_oid != document.commit_oid
                || before.commit_file_cache_key->0.path@ != document.selection.relative_path@)
                ==> after.commit_file_line_cache is Some && diff_cache::same_lines(
                after.commit_file_line_cache->0.lines@,
                diff_cache::shown_lines(document.lines@),
            )
        },
{
}

/// The rows are made anew for another graph: where the key has changed, there is a row for every
/// commit, in the order of the commits, and without a graph there are no rows.
pub proof fn every_commit_has_its_row(
    after: RepositoryBrowserView,
    before: RepositoryBrowserView,
    state: Option<&RepositoryGraphTabState>,
    width: u16,
    fits: Seq<bool>,
    index: int,
)
    requires
        after.rows_follow(before, state, width, fits),
    ensures
        loaded_graph(state) is None ==> after.commit_rows@.len() == 0 && after.branch_rows@.len()
            == 0,
        loaded_graph(state) matches Some(graph) ==> (before.commit_cache_key
            != after.commit_cache_key ==> after.commit_rows@.len() == graph.commits@.len() && (0
            <= index < graph.commits@.len() ==> shown_commit(after.commit_rows@, *state->0, index)
            == Some(graph.commits@[index]))),
        before.commit_cache_key is None && loaded_graph(state) is Some ==> after.commit_rows@.len()
            == loaded_graph(state)->0.commits@.len(),
{
}

} // verus!
