//! What the panes of the repository browser show.

use crate::branch_rail;
use crate::branch_rail::RailRow;
use crate::context_menu::ContextMenuItem;
use crate::prompts;
use crate::repository_actions;
use crate::repository_actions::RepositoryAction;
use crate::repository_graph;
use crate::repository_graph::{
    CommitGraphNode, CommitRefKind, CommitRowHighlightState, GraphLaneAccent, HeadState, LaneCell,
    LocalBranchEntry, Oid, RemoteBranchEntry, RepositoryGraphDocument, StyledCommitRow,
};
use crate::repository_state;
use crate::repository_state::{
    AsyncDocumentState, CommitChangedFile, CommitDetailDocument, CommitFileDiffDocument,
    CommitFileSelection, CommitFileStatus, RepositoryBranchSelection, RepositoryGraphTabState,
};
use crate::strings;
use crate::theme::{OrcaTheme, Tint};
use crate::time;
use crate::widgets;
use crate::widgets::{PanelMessage, PanelText};
use vstd::prelude::*;
use vstd::string::*;

verus! {

/// What the middle of the repository browser shows.
#[derive(Clone, Copy, Debug, PartialEq, Eq, Structural)]
pub enum RepositoryCenterPaneMode {
    History,
    CommitFileDiff,
}

/// What the right of the repository browser shows.
#[derive(Clone, Copy, Debug, PartialEq, Eq, Structural)]
pub enum RepositoryDetailPaneMode {
    Empty,
    Branch,
    Commit,
}

/// What the middle shows: the diff of the selected file, or else the history.
pub fn center_pane_mode(state: &RepositoryGraphTabState) -> (mode: RepositoryCenterPaneMode)
    ensures
        mode == if state.selected_commit_file is Some {
            RepositoryCenterPaneMode::CommitFileDiff
        } else {
            RepositoryCenterPaneMode::History
        },
{
    if state.selected_commit_file.is_some() {
        RepositoryCenterPaneMode::CommitFileDiff
    } else {
        RepositoryCenterPaneMode::History
    }
}

/// What the right shows: the selected commit, or else the selected branch.
pub fn detail_pane_mode(state: &RepositoryGraphTabState) -> (mode: RepositoryDetailPaneMode)
    ensures
        mode == if state.selected_commit is Some {
            RepositoryDetailPaneMode::Commit
        } else if state.selected_branch is Some {
            RepositoryDetailPaneMode::Branch
        } else {
            RepositoryDetailPaneMode::Empty
        },
{
    if state.selected_commit.is_some() {
        RepositoryDetailPaneMode::Commit
    } else if state.selected_branch.is_some() {
        RepositoryDetailPaneMode::Branch
    } else {
        RepositoryDetailPaneMode::Empty
    }
}

/// How a row that can be selected looks.
#[derive(Clone, Copy, Debug, PartialEq, Eq, Structural)]
pub struct RowLook {
    pub fill: Option<Tint>,
    pub border: u32,
    pub hover_fill: Option<Tint>,
}

/// How the row of a branch looks.
pub open spec fn branch_look(palette: OrcaTheme, is_selected: bool) -> RowLook {
    if is_selected {
        RowLook {
            fill: Some(Tint { color: palette.ORCA_BLUE, alpha: 0x14 }),
            border: palette.ORCA_BLUE,
            hover_fill: None,
        }
    } else {
        RowLook {
            fill: None,
            border: palette.DEEP,
            hover_fill: Some(Tint { color: palette.CURRENT, alpha: 0x70 }),
        }
    }
}

/// How the row of a branch looks.
pub fn branch_row_look(palette: &OrcaTheme, is_selected: bool) -> (look: RowLook)
    ensures
        look == branch_look(*palette, is_selected),
{
    if is_selected {
        RowLook {
            fill: Some(Tint { color: palette.ORCA_BLUE, alpha: 0x14 }),
            border: palette.ORCA_BLUE,
            hover_fill: None,
        }
    } else {
        RowLook {
            fill: None,
            border: palette.DEEP,
            hover_fill: Some(Tint { color: palette.CURRENT, alpha: 0x70 }),
        }
    }
}

/// What a branch tracks, and how far it is ahead and behind.
#[derive(Debug)]
pub struct UpstreamLabels {
    pub reference: String,
    pub counts: String,
}

/// A row of the pane of branches as it is drawn.
#[derive(Debug)]
pub enum BranchElement {
    Heading { text: String },
    /// A remote. A click opens or closes it.
    Group { arrow: char, remote_name: String },
    /// A branch. A click selects it.
    Branch {
        look: RowLook,
        selection: RepositoryBranchSelection,
        /// The mark of the checked-out branch.
        checked: bool,
        name: String,
        name_color: u32,
        /// What the branch tracks, and how far it is ahead and behind.
        upstream: Option<UpstreamLabels>,
        /// A worktree occupies the branch.
        worktree_badge: bool,
    },
    /// What a branch tracks, below its row. A click selects the branch.
    Meta {
        look: RowLook,
        selection: RepositoryBranchSelection,
        reference: String,
        counts: String,
    },
}

/// The branch is the selected one.
pub open spec fn is_selected_branch(
    selected: Option<RepositoryBranchSelection>,
    selection: RepositoryBranchSelection,
) -> bool {
    selected is Some && selected->0@ == selection@
}

/// How far a branch is ahead and behind.
pub open spec fn counts_text(upstream: crate::repository_graph::BranchTrackingInfo) -> Seq<char> {
    "+"@ + strings::decimal(upstream.ahead as nat) + " -"@ + strings::decimal(
        upstream.behind as nat,
    )
}

/// The row is drawn like this.
pub open spec fn draws_row(
    element: BranchElement,
    graph: RepositoryGraphDocument,
    row: RailRow,
    selected: Option<RepositoryBranchSelection>,
    palette: OrcaTheme,
) -> bool {
    match row {
        RailRow::LocalHeading => element matches BranchElement::Heading { text } && text@
            == "LOCAL"@,
        RailRow::RemoteHeading => element matches BranchElement::Heading { text } && text@
            == "REMOTE"@,
        RailRow::RemoteGroup { index, expanded } => {
            &&& element matches BranchElement::Group { arrow, remote_name }
            &&& remote_name@ == graph.remote_branches@[index as int].remote_name@
            &&& arrow == if expanded {
                '\u{25BE}'
            } else {
                '\u{25B8}'
            }
        },
        RailRow::Local { index, is_worktree_occupied, inline_upstream } => {
            let branch = graph.local_branches@[index as int];
            &&& element matches BranchElement::Branch {
                look,
                selection,
                checked,
                name,
                name_color,
                upstream,
                worktree_badge,
            }
            &&& selection == (RepositoryBranchSelection::Local { name: branch.name })
            &&& look == branch_look(palette, is_selected_branch(selected, selection))
            &&& checked == branch.is_head
            &&& name@ == branch.name@
            &&& name_color == if branch.is_head {
                palette.ORCA_BLUE
            } else {
                palette.BONE
            }
            &&& worktree_badge == is_worktree_occupied
            &&& if inline_upstream && branch.upstream is Some {
                upstream is Some && upstream->0.reference@ == branch_rail::upstream_ref(branch.upstream->0)
                    && upstream->0.counts@ == counts_text(branch.upstream->0)
            } else {
                upstream is None
            }
        },
        RailRow::LocalMeta { index } => {
            let branch = graph.local_branches@[index as int];
            &&& element matches BranchElement::Meta { look, selection, reference, counts }
            &&& selection == (RepositoryBranchSelection::Local { name: branch.name })
            &&& look == branch_look(palette, is_selected_branch(selected, selection))
            &&& match branch.upstream {
                Some(info) => reference@ == branch_rail::upstream_ref(info) && counts@
                    == counts_text(info),
                None => reference@.len() == 0 && counts@.len() == 0,
            }
        },
        RailRow::Remote { index } => {
            let branch = graph.remote_branches@[index as int];
            &&& element matches BranchElement::Branch {
                look,
                selection,
                checked,
                name,
                name_color,
                upstream,
                worktree_badge,
            }
            &&& selection == (RepositoryBranchSelection::Remote { full_ref: branch.full_ref })
            &&& look == branch_look(palette, is_selected_branch(selected, selection))
            &&& !checked
            &&& name@ == branch.short_name@
            &&& name_color == palette.BONE
            &&& upstream is None
            &&& !worktree_badge
        },
    }
}

/// The row names a branch that the repository has.
pub open spec fn row_in_graph(graph: RepositoryGraphDocument, row: RailRow) -> bool {
    match row {
        RailRow::LocalHeading => true,
        RailRow::RemoteHeading => true,
        RailRow::Local { index, .. } => index < graph.local_branches@.len(),
        RailRow::LocalMeta { index } => index < graph.local_branches@.len(),
        RailRow::RemoteGroup { index, .. } => index < graph.remote_branches@.len(),
        RailRow::Remote { index } => index < graph.remote_branches@.len(),
    }
}

fn selection_is(
    selected: &Option<RepositoryBranchSelection>,
    selection: &RepositoryBranchSelection,
) -> (same: bool)
    ensures
        same == is_selected_branch(*selected, *selection),
{
    match selected {
        Some(selected) => selected.same_branch(selection),
        None => false,
    }
}

fn draw_local_branch(
    palette: &OrcaTheme,
    branch: &LocalBranchEntry,
    selected: &Option<RepositoryBranchSelection>,
    is_worktree_occupied: bool,
    inline_upstream: bool,
) -> (element: BranchElement)
    ensures
        element matches BranchElement::Branch {
            look,
            selection,
            checked,
            name,
            name_color,
            upstream,
            worktree_badge,
        } && selection == (RepositoryBranchSelection::Local { name: branch.name }) && look
            == branch_look(*palette, is_selected_branch(*selected, selection)) && checked
            == branch.is_head && name@ == branch.name@ && name_color == (if branch.is_head {
            palette.ORCA_BLUE
        } else {
            palette.BONE
        }) && worktree_badge == is_worktree_occupied && (if inline_upstream
            && branch.upstream is Some {
            upstream is Some && upstream->0.reference@ == branch_rail::upstream_ref(branch.upstream->0)
                && upstream->0.counts@ == counts_text(branch.upstream->0)
        } else {
            upstream is None
        }),
{
    let selection = RepositoryBranchSelection::Local { name: branch.name.clone() };
    let is_selected = selection_is(selected, &selection);
    let upstream: Option<UpstreamLabels> = match &branch.upstream {
        Some(info) => if inline_upstream {
            Some(
                UpstreamLabels {
                    reference: branch_rail::upstream_ref_label(info),
                    counts: branch_rail::branch_upstream_counts_label(info),
                },
            )
        } else {
            None
        },
        None => None,
    };
    BranchElement::Branch {
        look: branch_row_look(palette, is_selected),
        selection,
        checked: branch.is_head,
        name: branch.name.clone(),
        name_color: if branch.is_head {
            palette.ORCA_BLUE
        } else {
            palette.BONE
        },
        upstream,
        worktree_badge: is_worktree_occupied,
    }
}

/// Draws a row of the pane of branches.
pub fn render_branch_row(
    palette: &OrcaTheme,
    graph: &RepositoryGraphDocument,
    selected: &Option<RepositoryBranchSelection>,
    row: RailRow,
) -> (element: BranchElement)
    requires
        row_in_graph(*graph, row),
    ensures
        draws_row(element, *graph, row, *selected, *palette),
{
    match row {
        RailRow::LocalHeading => BranchElement::Heading { text: "LOCAL".to_owned() },
        RailRow::RemoteHeading => BranchElement::Heading { text: "REMOTE".to_owned() },
        RailRow::RemoteGroup { index, expanded } => BranchElement::Group {
            arrow: if expanded {
                '\u{25BE}'
            } else {
                '\u{25B8}'
            },
            remote_name: graph.remote_branches[index].remote_name.clone(),
        },
        RailRow::Local { index, is_worktree_occupied, inline_upstream } => {
            draw_local_branch(
                palette,
                &graph.local_branches[index],
                selected,
                is_worktree_occupied,
                inline_upstream,
            )
        },
        RailRow::LocalMeta { index } => {
            let branch = &graph.local_branches[index];
            let selection = RepositoryBranchSelection::Local { name: branch.name.clone() };
            let is_selected = selection_is(selected, &selection);
            let (reference, counts) = match &branch.upstream {
                Some(info) => (
                    branch_rail::upstream_ref_label(info),
                    branch_rail::branch_upstream_counts_label(info),
                ),
                None => (String::new(), String::new()),
            };
            BranchElement::Meta {
                look: branch_row_look(palette, is_selected),
                selection,
                reference,
                counts,
            }
        },
        RailRow::Remote { index } => {
            let branch = &graph.remote_branches[index];
            let selection = RepositoryBranchSelection::Remote {
                full_ref: branch.full_ref.clone(),
            };
            let is_selected = selection_is(selected, &selection);
            BranchElement::Branch {
                look: branch_row_look(palette, is_selected),
                selection,
                checked: false,
                name: branch.short_name.clone(),
                name_color: palette.BONE,
                upstream: None,
                worktree_badge: false,
            }
        },
    }
}

/// The pane of branches is drawn row by row. Rows of branches that the repository no longer has are
/// passed over.
pub open spec fn draws_rows(
    elements: Seq<BranchElement>,
    palette: OrcaTheme,
    graph: RepositoryGraphDocument,
    selected: Option<RepositoryBranchSelection>,
    rows: Seq<RailRow>,
) -> bool {
    let live = rows.filter(|row: RailRow| row_in_graph(graph, row));
    &&& elements.len() == live.len()
    &&& forall|i: int|
        0 <= i < live.len() ==> draws_row(
            #[trigger] elements[i],
            graph,
            live[i],
            selected,
            palette,
        )
}

/// Draws the pane of branches.
pub fn render_branch_pane(
    palette: &OrcaTheme,
    graph: &RepositoryGraphDocument,
    selected: &Option<RepositoryBranchSelection>,
    rows: &Vec<RailRow>,
) -> (elements: Vec<BranchElement>)
    ensures
        draws_rows(elements@, *palette, *graph, *selected, rows@),
{
    let ghost live = |row: RailRow| row_in_graph(*graph, row);
    let mut elements: Vec<BranchElement> = Vec::new();
    let mut i: usize = 0;
    proof {
        reveal(Seq::filter);
        assert(rows@.take(0) =~= Seq::<RailRow>::empty());
    }
    while i < rows.len()
        invariant
            i <= rows@.len(),
            live == (|row: RailRow| row_in_graph(*graph, row)),
            elements@.len() == rows@.take(i as int).filter(live).len(),
            forall|k: int|
                0 <= k < elements@.len() ==> draws_row(
                    #[trigger] elements@[k],
                    *graph,
                    rows@.take(i as int).filter(live)[k],
                    *selected,
                    *palette,
                ),
        decreases rows@.len() - i,
    {
        proof {
            assert(rows@.take(i + 1) =~= rows@.take(i as int).push(rows@[i as int]));
            rows@.take(i as int).lemma_filter_push(rows@[i as int], live);
        }
        let row = rows[i];
        let fits = match row {
            RailRow::LocalHeading => true,
            RailRow::RemoteHeading => true,
            RailRow::Local { index, .. } => index < graph.local_branches.len(),
            RailRow::LocalMeta { index } => index < graph.local_branches.len(),
            RailRow::RemoteGroup { index, .. } => index < graph.remote_branches.len(),
            RailRow::Remote { index } => index < graph.remote_branches.len(),
        };
        if fits {
            elements.push(render_branch_row(palette, graph, selected, row));
        }
        i = i + 1;
    }
    assert(rows@.take(i as int) =~= rows@);
    elements
}

/// What a click on a row of the pane of branches leads to.
#[derive(Debug)]
pub enum BranchClick {
    Nothing,
    /// The remote is opened or closed.
    ToggleGroup { remote_name: String },
    /// The branch is selected.
    Select { selection: RepositoryBranchSelection },
    /// The branch is selected and its menu is shown.
    ShowMenu {
        selection: RepositoryBranchSelection,
        items: Vec<ContextMenuItem<RepositoryAction>>,
    },
}

/// The branch that a row is about.
pub open spec fn row_selection(element: BranchElement) -> Option<RepositoryBranchSelection> {
    match element {
        BranchElement::Branch { selection, .. } => Some(selection),
        BranchElement::Meta { selection, .. } => Some(selection),
        _ => None,
    }
}

/// What a click on a row of the pane of branches leads to. A remote opens or closes on a left
/// click. A branch is selected, and on a right click its menu is shown; without a graph a right
/// click does nothing.
pub fn click_branch_row(
    element: &BranchElement,
    right_button: bool,
    graph: Option<&RepositoryGraphDocument>,
    scope_busy: bool,
) -> (click: BranchClick)
    ensures
        match click {
            BranchClick::Nothing => row_selection(*element) is None && !(element is Group
                && !right_button) || row_selection(*element) is Some && right_button
                && graph is None,
            BranchClick::ToggleGroup { remote_name } => !right_button
                && (*element matches BranchElement::Group { remote_name: name, .. } && remote_name@
                == name@),
            BranchClick::Select { selection } => !right_button && row_selection(*element) is Some
                && selection == row_selection(*element)->0,
            BranchClick::ShowMenu { selection, items } => {
                &&& right_button
                &&& graph is Some
                &&& row_selection(*element) is Some
                &&& selection == row_selection(*element)->0
                &&& repository_actions::is_branch_menu(
                    items@,
                    *graph->0,
                    selection,
                    scope_busy,
                )
            },
        },
{
    let selection = match element {
        BranchElement::Heading { .. } => {
            return BranchClick::Nothing;
        },
        BranchElement::Group { remote_name, .. } => {
            return if right_button {
                BranchClick::Nothing
            } else {
                BranchClick::ToggleGroup { remote_name: remote_name.clone() }
            };
        },
        BranchElement::Branch { selection, .. } => selection,
        BranchElement::Meta { selection, .. } => selection,
    };
    if !right_button {
        return BranchClick::Select { selection: selection.clone() };
    }
    match graph {
        Some(graph) => BranchClick::ShowMenu {
            selection: selection.clone(),
            items: repository_actions::repository_branch_context_menu_items(
                graph,
                selection,
                scope_busy,
            ),
        },
        None => BranchClick::Nothing,
    }
}

proof fn lemma_local_rows_in_graph(
    graph: RepositoryGraphDocument,
    occupied: Seq<String>,
    fits: Option<Seq<bool>>,
    count: int,
)
    requires
        0 <= count <= graph.local_branches@.len() <= usize::MAX,
    ensures
        forall|i: int|
            0 <= i < branch_rail::local_rows(graph.local_branches@, occupied, fits, count).len()
                ==> row_in_graph(
                graph,
                #[trigger] branch_rail::local_rows(graph.local_branches@, occupied, fits, count)[i],
            ),
    decreases count,
{
    if count > 0 {
        lemma_local_rows_in_graph(graph, occupied, fits, count - 1);
        let rest = branch_rail::local_rows(graph.local_branches@, occupied, fits, count - 1);
        let rows = branch_rail::local_rows(graph.local_branches@, occupied, fits, count);
        assert forall|i: int| 0 <= i < rows.len() implies row_in_graph(graph, #[trigger] rows[i]) by {
            if i < rest.len() {
                assert(rows[i] == rest[i]);
            }
        }
    }
}

proof fn lemma_remote_rows_in_graph(
    graph: RepositoryGraphDocument,
    expanded: Option<Seq<String>>,
    count: int,
)
    requires
        0 <= count <= graph.remote_branches@.len() <= usize::MAX,
    ensures
        forall|i: int|
            0 <= i < branch_rail::remote_rows(graph.remote_branches@, expanded, count).len()
                ==> row_in_graph(
                graph,
                #[trigger] branch_rail::remote_rows(graph.remote_branches@, expanded, count)[i],
            ),
    decreases count,
{
    if count > 0 {
        lemma_remote_rows_in_graph(graph, expanded, count - 1);
        let rest = branch_rail::remote_rows(graph.remote_branches@, expanded, count - 1);
        let rows = branch_rail::remote_rows(graph.remote_branches@, expanded, count);
        assert forall|i: int| 0 <= i < rows.len() implies row_in_graph(graph, #[trigger] rows[i]) by {
            if i < rest.len() {
                assert(rows[i] == rest[i]);
            }
        }
    }
}

/// Every row of a layout names a branch that the repository has, so that none is passed over.
pub proof fn layout_names_branches(
    graph: RepositoryGraphDocument,
    occupied: Seq<String>,
    expanded: Option<Seq<String>>,
    fits: Option<Seq<bool>>,
)
    requires
        graph.local_branches@.len() <= usize::MAX,
        graph.remote_branches@.len() <= usize::MAX,
    ensures
        forall|i: int|
            0 <= i < branch_rail::rail_rows(graph, occupied, expanded, fits).len()
                ==> row_in_graph(
                graph,
                #[trigger] branch_rail::rail_rows(graph, occupied, expanded, fits)[i],
            ),
{
    lemma_local_rows_in_graph(graph, occupied, fits, graph.local_branches@.len() as int);
    lemma_remote_rows_in_graph(graph, expanded, graph.remote_branches@.len() as int);
}

/// The middle of the repository browser.
#[derive(Debug)]
pub enum CommitPane {
    Message(PanelMessage),
    /// The diff of the selected file of a commit, under its path and its commit, and the button
    /// that leads back.
    FileDiff { path: String, commit: String, back: String },
    /// The rows of commits.
    Rows,
}

/// What the middle of the repository browser shows.
pub enum CommitPaneView {
    Message(PanelText),
    FileDiff { path: Seq<char>, commit: Seq<char>, back: Seq<char> },
    Rows,
}

impl View for CommitPane {
    type V = CommitPaneView;

    open spec fn view(&self) -> CommitPaneView {
        match *self {
            CommitPane::Message(message) => CommitPaneView::Message(message@),
            CommitPane::FileDiff { path, commit, back } => CommitPaneView::FileDiff {
                path: path@,
                commit: commit@,
                back: back@,
            },
            CommitPane::Rows => CommitPaneView::Rows,
        }
    }
}

/// What is shown where no file of a commit is selected.
pub open spec fn pick_changed_file() -> PanelText {
    widgets::panel_text(
        "Select a changed file"@,
        "Pick a file from the selected commit to inspect its historical patch."@,
    )
}

/// What is shown of the diff of a selected file.
pub open spec fn file_diff_pane(
    selection: CommitFileSelection,
    diff: AsyncDocumentState<CommitFileDiffDocument>,
    has_lines: bool,
) -> CommitPaneView {
    if diff.loading {
        CommitPaneView::Message(
            widgets::panel_text(
                "Loading historical file diff\u{2026}"@,
                "OrcaShell is rendering the selected file from commit history."@,
            ),
        )
    } else if diff.error is Some {
        CommitPaneView::Message(
            widgets::panel_text("Could not load historical file diff"@, diff.error->0@),
        )
    } else if diff.document is None {
        CommitPaneView::Message(pick_changed_file())
    } else if diff.document->0.selection@ != selection@ {
        CommitPaneView::Message(
            widgets::panel_text(
                "Loading historical file diff\u{2026}"@,
                "The diff pane is waiting for the selected file."@,
            ),
        )
    } else if !has_lines {
        CommitPaneView::Message(
            widgets::panel_text(
                "No rendered diff lines"@,
                "This historical diff did not produce a text body."@,
            ),
        )
    } else {
        CommitPaneView::FileDiff {
            path: crate::model::path_text(diff.document->0.selection.relative_path@),
            commit: "Commit "@ + diff.document->0.commit_oid.hex(),
            back: "Back to History"@,
        }
    }
}

/// What the middle of the repository browser shows.
pub open spec fn commit_pane(
    state: RepositoryGraphTabState,
    row_count: int,
    has_lines: bool,
) -> CommitPaneView {
    if state.selected_commit_file is Some {
        file_diff_pane(state.selected_commit_file->0, state.commit_file_diff, has_lines)
    } else if state.graph.loading && row_count == 0 {
        CommitPaneView::Message(
            widgets::panel_text(
                "Loading repository graph\u{2026}"@,
                "The daemon is building the bounded topology view."@,
            ),
        )
    } else if state.graph.error is Some {
        CommitPaneView::Message(
            widgets::panel_text("Could not load repository graph"@, state.graph.error->0@),
        )
    } else if row_count == 0 {
        CommitPaneView::Message(
            widgets::panel_text(
                "No commit graph available"@,
                "Open a git-backed project to inspect history."@,
            ),
        )
    } else {
        CommitPaneView::Rows
    }
}

/// What is shown of the diff of a selected file.
pub fn render_commit_file_diff(
    selection: &CommitFileSelection,
    diff: &AsyncDocumentState<CommitFileDiffDocument>,
    has_lines: bool,
) -> (pane: CommitPane)
    ensures
        pane@ == file_diff_pane(*selection, *diff, has_lines),
{
    if diff.loading {
        return CommitPane::Message(
            widgets::panel_message(
                "Loading historical file diff\u{2026}",
                "OrcaShell is rendering the selected file from commit history.",
            ),
        );
    }
    if let Some(error) = &diff.error {
        return CommitPane::Message(
            widgets::panel_message("Could not load historical file diff", error.as_str()),
        );
    }
    let document = match &diff.document {
        Some(document) => document,
        None => {
            return CommitPane::Message(
                widgets::panel_message(
                    "Select a changed file",
                    "Pick a file from the selected commit to inspect its historical patch.",
                ),
            );
        },
    };
    if !document.selection.same_selection(selection) {
        return CommitPane::Message(
            widgets::panel_message(
                "Loading historical file diff\u{2026}",
                "The diff pane is waiting for the selected file.",
            ),
        );
    }
    if !has_lines {
        return CommitPane::Message(
            widgets::panel_message(
                "No rendered diff lines",
                "This historical diff did not produce a text body.",
            ),
        );
    }
    let (path, commit) = commit_file_header(document);
    CommitPane::FileDiff { path, commit, back: "Back to History".to_owned() }
}

/// The middle of the repository browser: the diff of the selected file, the history, or why there
/// is neither.
pub fn render_commit_pane(state: &RepositoryGraphTabState, row_count: usize, has_lines: bool) -> (
pane: CommitPane)
    ensures
        pane@ == commit_pane(*state, row_count as int, has_lines),
{
    if let Some(selection) = &state.selected_commit_file {
        return render_commit_file_diff(selection, &state.commit_file_diff, has_lines);
    }
    if state.graph.loading && row_count == 0 {
        return CommitPane::Message(
            widgets::panel_message(
                "Loading repository graph\u{2026}",
                "The daemon is building the bounded topology view.",
            ),
        );
    }
    if let Some(error) = &state.graph.error {
        return CommitPane::Message(
            widgets::panel_message("Could not load repository graph", error.as_str()),
        );
    }
    if row_count == 0 {
        return CommitPane::Message(
            widgets::panel_message(
                "No commit graph available",
                "Open a git-backed project to inspect history.",
            ),
        );
    }
    CommitPane::Rows
}

/// The header of the diff of a commit's file: the path and the commit.
pub fn commit_file_header(document: &CommitFileDiffDocument) -> (lines: (String, String))
    ensures
        lines.0@ == crate::model::path_text(document.selection.relative_path@),
        lines.1@ == "Commit "@ + document.commit_oid.hex(),
{
    let oid = document.commit_oid.to_hex();
    (
        document.selection.relative_path.display(),
        strings::concat_text("Commit ", oid.as_str()),
    )
}

/// The branch that is checked out, where one is.
pub open spec fn head_branch(state: RepositoryGraphTabState) -> Option<Seq<char>> {
    match state.graph.document {
        Some(graph) => match graph.head {
            HeadState::Branch { name, oid } => Some(name@),
            _ => None,
        },
        None => None,
    }
}

/// The branch that is checked out, where one is.
pub fn current_head_branch(state: &RepositoryGraphTabState) -> (name: Option<String>)
    ensures
        strings::optional_view(name) == head_branch(*state),
{
    match &state.graph.document {
        Some(graph) => match &graph.head {
            HeadState::Branch { name, oid: _ } => Some(name.clone()),
            _ => None,
        },
        None => None,
    }
}

/// How the row of a commit looks.
pub open spec fn commit_look(palette: OrcaTheme, row: StyledCommitRow, is_selected: bool) -> RowLook {
    if is_selected {
        RowLook {
            fill: Some(Tint { color: palette.SURFACE, alpha: 0x80 }),
            border: palette.SURFACE,
            hover_fill: None,
        }
    } else if row.is_checked_out_tip || row.is_detached_head_tip {
        RowLook {
            fill: Some(Tint { color: palette.ORCA_BLUE, alpha: 0x12 }),
            border: palette.ORCA_BLUE,
            hover_fill: None,
        }
    } else {
        RowLook {
            fill: None,
            border: palette.ABYSS,
            hover_fill: Some(Tint { color: palette.CURRENT, alpha: 0x70 }),
        }
    }
}

/// How the row of a commit looks.
pub fn commit_row_look(
    palette: &OrcaTheme,
    row: &StyledCommitRow,
    is_selected: bool,
) -> (look: RowLook)
    ensures
        look == commit_look(*palette, *row, is_selected),
{
    match repository_graph::commit_row_highlight_state(
        is_selected,
        row.is_checked_out_tip || row.is_detached_head_tip,
    ) {
        CommitRowHighlightState::Selected => RowLook {
            fill: Some(Tint { color: palette.SURFACE, alpha: 0x80 }),
            border: palette.SURFACE,
            hover_fill: None,
        },
        CommitRowHighlightState::CurrentTip => RowLook {
            fill: Some(Tint { color: palette.ORCA_BLUE, alpha: 0x12 }),
            border: palette.ORCA_BLUE,
            hover_fill: None,
        },
        CommitRowHighlightState::HoverOnly => RowLook {
            fill: None,
            border: palette.ABYSS,
            hover_fill: Some(Tint { color: palette.CURRENT, alpha: 0x70 }),
        },
    }
}

/// The colour of a lane's accent.
pub fn graph_lane_accent_color(accent: GraphLaneAccent, palette: &OrcaTheme) -> (color: u32)
    ensures
        color == match accent {
            GraphLaneAccent::Active => palette.ORCA_BLUE,
            GraphLaneAccent::Green => palette.STATUS_GREEN,
            GraphLaneAccent::Amber => palette.STATUS_AMBER,
            GraphLaneAccent::Fog => palette.FOG,
            GraphLaneAccent::Slate => palette.SLATE,
        },
{
    match accent {
        GraphLaneAccent::Active => palette.ORCA_BLUE,
        GraphLaneAccent::Green => palette.STATUS_GREEN,
        GraphLaneAccent::Amber => palette.STATUS_AMBER,
        GraphLaneAccent::Fog => palette.FOG,
        GraphLaneAccent::Slate => palette.SLATE,
    }
}

/// The colour of a label on a commit.
pub open spec fn pill_color(
    palette: OrcaTheme,
    kind: CommitRefKind,
    label: Seq<char>,
    current_head_branch: Option<Seq<char>>,
) -> u32 {
    match kind {
        CommitRefKind::Head => palette.ORCA_BLUE,
        CommitRefKind::LocalBranch => if current_head_branch == Some(label) {
            palette.ORCA_BLUE
        } else {
            palette.STATUS_GREEN
        },
        CommitRefKind::RemoteBranch => palette.STATUS_AMBER,
    }
}

/// The border and the fill of a label on a commit: the checked-out branch has the colour of the
/// head.
pub fn render_ref_pill(
    palette: &OrcaTheme,
    kind: CommitRefKind,
    label: &str,
    current_head_branch: &Option<String>,
) -> (pill: (u32, Tint))
    ensures
        pill.0 == pill_color(
            *palette,
            kind,
            label@,
            strings::optional_view(*current_head_branch),
        ),
        pill.1 == (Tint { color: pill.0, alpha: 0x14 }),
{
    let border: u32 = match kind {
        CommitRefKind::Head => palette.ORCA_BLUE,
        CommitRefKind::LocalBranch => {
            let is_current = match current_head_branch {
                Some(name) => strings::same_text(name.as_str(), label),
                None => false,
            };
            if is_current {
                palette.ORCA_BLUE
            } else {
                palette.STATUS_GREEN
            }
        },
        CommitRefKind::RemoteBranch => palette.STATUS_AMBER,
    };
    (border, Tint { color: border, alpha: 0x14 })
}

/// The colour of what a commit did to a file.
pub fn status_color(status: CommitFileStatus, palette: &OrcaTheme) -> (color: u32)
    ensures
        color == match status {
            CommitFileStatus::Added => palette.STATUS_GREEN,
            CommitFileStatus::Modified => palette.ORCA_BLUE,
            CommitFileStatus::Deleted => palette.STATUS_CORAL,
            CommitFileStatus::Renamed => palette.STATUS_AMBER,
            CommitFileStatus::Typechange => palette.STATUS_AMBER,
        },
{
    match status {
        CommitFileStatus::Added => palette.STATUS_GREEN,
        CommitFileStatus::Modified => palette.ORCA_BLUE,
        CommitFileStatus::Deleted => palette.STATUS_CORAL,
        CommitFileStatus::Renamed => palette.STATUS_AMBER,
        CommitFileStatus::Typechange => palette.STATUS_AMBER,
    }
}

/// The short name of what a commit did to a file.
pub open spec fn status_text(status: CommitFileStatus) -> Seq<char> {
    match status {
        CommitFileStatus::Added => "ADD"@,
        CommitFileStatus::Modified => "MOD"@,
        CommitFileStatus::Deleted => "DEL"@,
        CommitFileStatus::Renamed => "REN"@,
        CommitFileStatus::Typechange => "TYPE"@,
    }
}

/// The short name of what a commit did to a file.
pub fn status_label(status: CommitFileStatus) -> (label: &'static str)
    ensures
        label@ == status_text(status),
{
    match status {
        CommitFileStatus::Added => "ADD",
        CommitFileStatus::Modified => "MOD",
        CommitFileStatus::Deleted => "DEL",
        CommitFileStatus::Renamed => "REN",
        CommitFileStatus::Typechange => "TYPE",
    }
}

/// The row of a file that a commit changed.
#[derive(Debug)]
pub struct CommitFileRow {
    pub path: String,
    pub status: String,
    pub status_color: u32,
    pub additions: String,
    pub deletions: String,
    pub fill: Option<Tint>,
    pub hover_fill: Option<Tint>,
}

/// The row of a changed file says this.
pub open spec fn file_row_says(
    row: CommitFileRow,
    palette: OrcaTheme,
    file: CommitChangedFile,
    is_selected: bool,
) -> bool {
    &&& row.path@ == crate::model::path_text(file.path@)
    &&& row.status@ == status_text(file.status)
    &&& row.status_color == match file.status {
        CommitFileStatus::Added => palette.STATUS_GREEN,
        CommitFileStatus::Modified => palette.ORCA_BLUE,
        CommitFileStatus::Deleted => palette.STATUS_CORAL,
        CommitFileStatus::Renamed => palette.STATUS_AMBER,
        CommitFileStatus::Typechange => palette.STATUS_AMBER,
    }
    &&& row.additions@ == "+"@ + strings::decimal(file.additions as nat)
    &&& row.deletions@ == "-"@ + strings::decimal(file.deletions as nat)
    &&& row.fill == if is_selected {
        Some(Tint { color: palette.ORCA_BLUE, alpha: 0x12 })
    } else {
        None
    }
    &&& row.hover_fill == if is_selected {
        None
    } else {
        Some(Tint { color: palette.CURRENT, alpha: 0x70 })
    }
}

/// The row of a file that a commit changed. The selected one stands out.
pub fn render_commit_changed_file_row(
    palette: &OrcaTheme,
    file: &CommitChangedFile,
    is_selected: bool,
) -> (row: CommitFileRow)
    ensures
        file_row_says(row, *palette, *file, is_selected),
{
    let mut additions = "+".to_owned();
    strings::push_decimal(&mut additions, file.additions as u64);
    let mut deletions = "-".to_owned();
    strings::push_decimal(&mut deletions, file.deletions as u64);
    CommitFileRow {
        path: file.path.display(),
        status: status_label(file.status).to_owned(),
        status_color: status_color(file.status, palette),
        additions,
        deletions,
        fill: if is_selected {
            Some(Tint { color: palette.ORCA_BLUE, alpha: 0x12 })
        } else {
            None
        },
        hover_fill: if is_selected {
            None
        } else {
            Some(Tint { color: palette.CURRENT, alpha: 0x70 })
        },
    }
}

/// What is known of a branch: its name and facts about it.
#[derive(Debug)]
pub struct BranchDetail {
    pub title: String,
    pub meta: Vec<String>,
}

/// The facts about a local branch.
pub open spec fn local_meta(branch: LocalBranchEntry, occupied: Seq<String>) -> Seq<Seq<char>> {
    seq!["LOCAL"@, "Ref "@ + branch.full_ref@, "Target "@ + branch.target.hex()] + (
    if branch.is_head {
        seq!["Current branch"@]
    } else {
        Seq::empty()
    }) + (match branch.upstream {
        Some(upstream) => seq!["Tracks "@ + branch_rail::upstream_text(upstream)],
        None => Seq::empty(),
    }) + (if repository_state::lists_name(occupied, branch.name@) {
        seq!["Occupied by an Orca-managed worktree"@]
    } else {
        Seq::empty()
    })
}

/// The facts about a branch of a remote.
pub open spec fn remote_meta(branch: RemoteBranchEntry) -> Seq<Seq<char>> {
    seq!["REMOTE"@, "Ref "@ + branch.full_ref@, "Target "@ + branch.target.hex()] + (
    match branch.tracked_by_local {
        Some(local) => seq!["Tracked by local branch "@ + local@],
        None => Seq::empty(),
    })
}

/// The first branch of a remote with the given full reference.
pub open spec fn remote_with_ref(branches: Seq<RemoteBranchEntry>, full_ref: Seq<char>) -> Option<
    int,
>
    decreases branches.len(),
{
    if branches.len() == 0 {
        None
    } else {
        match remote_with_ref(branches.drop_last(), full_ref) {
            Some(index) => Some(index),
            None => if branches.last().full_ref@ == full_ref {
                Some(branches.len() - 1)
            } else {
                None
            },
        }
    }
}

proof fn lemma_remote_prefix(branches: Seq<RemoteBranchEntry>, full_ref: Seq<char>, count: int)
    requires
        0 <= count <= branches.len(),
        remote_with_ref(branches.take(count), full_ref) is Some,
    ensures
        remote_with_ref(branches, full_ref) == remote_with_ref(branches.take(count), full_ref),
    decreases branches.len(),
{
    if count < branches.len() {
        assert(branches.drop_last().take(count) =~= branches.take(count));
        lemma_remote_prefix(branches.drop_last(), full_ref, count);
    } else {
        assert(branches.take(count) =~= branches);
    }
}

/// Finds the first branch of a remote with the given full reference.
pub fn find_remote_branch(branches: &Vec<RemoteBranchEntry>, full_ref: &str) -> (index: Option<
    usize,
>)
    ensures
        match index {
            Some(index) => index < branches@.len() && remote_with_ref(branches@, full_ref@) == Some(
                index as int,
            ),
            None => remote_with_ref(branches@, full_ref@) is None,
        },
{
    let mut i: usize = 0;
    assert(branches@.take(0) =~= Seq::<RemoteBranchEntry>::empty());
    while i < branches.len()
        invariant
            i <= branches@.len(),
            remote_with_ref(branches@.take(i as int), full_ref@) is None,
        decreases branches@.len() - i,
    {
        assert(branches@.take(i + 1).drop_last() =~= branches@.take(i as int));
        if strings::same_text(branches[i].full_ref.as_str(), full_ref) {
            proof {
                assert(remote_with_ref(branches@.take(i + 1), full_ref@) == Some(i as int));
                lemma_remote_prefix(branches@, full_ref@, i + 1);
            }
            return Some(i);
        }
        i = i + 1;
    }
    assert(branches@.take(i as int) =~= branches@);
    None
}

fn push_line(meta: &mut Vec<String>, line: String)
    ensures
        strings::views(final(meta)@) == strings::views(old(meta)@).push(line@),
{
    let ghost before = strings::views(meta@);
    meta.push(line);
    assert(strings::views(meta@) =~= before.push(line@));
}

fn describe_local_branch(branch: &LocalBranchEntry, occupied: &Vec<String>) -> (detail:
    BranchDetail)
    ensures
        detail.title@ == branch.name@,
        strings::views(detail.meta@) == local_meta(*branch, occupied@),
{
    let mut meta: Vec<String> = Vec::new();
    assert(strings::views(meta@) =~= Seq::empty());
    push_line(&mut meta, "LOCAL".to_owned());
    push_line(&mut meta, strings::concat_text("Ref ", branch.full_ref.as_str()));
    let target = branch.target.to_hex();
    push_line(&mut meta, strings::concat_text("Target ", target.as_str()));
    if branch.is_head {
        push_line(&mut meta, "Current branch".to_owned());
    }
    if let Some(upstream) = &branch.upstream {
        let summary = branch_rail::upstream_summary(upstream);
        push_line(&mut meta, strings::concat_text("Tracks ", summary.as_str()));
    }
    if repository_state::name_listed(occupied, branch.name.as_str()) {
        push_line(&mut meta, "Occupied by an Orca-managed worktree".to_owned());
    }
    assert(strings::views(meta@) =~= local_meta(*branch, occupied@));
    BranchDetail { title: branch.name.clone(), meta }
}

fn describe_remote_branch(branch: &RemoteBranchEntry) -> (detail: BranchDetail)
    ensures
        detail.title@ == branch.remote_name@ + "/"@ + branch.short_name@,
        strings::views(detail.meta@) == remote_meta(*branch),
{
    let mut meta: Vec<String> = Vec::new();
    assert(strings::views(meta@) =~= Seq::empty());
    push_line(&mut meta, "REMOTE".to_owned());
    push_line(&mut meta, strings::concat_text("Ref ", branch.full_ref.as_str()));
    let target = branch.target.to_hex();
    push_line(&mut meta, strings::concat_text("Target ", target.as_str()));
    if let Some(local) = &branch.tracked_by_local {
        push_line(&mut meta, strings::concat_text("Tracked by local branch ", local.as_str()));
    }
    assert(strings::views(meta@) =~= remote_meta(*branch));
    let mut title = strings::concat_text(branch.remote_name.as_str(), "/");
    title.append(branch.short_name.as_str());
    BranchDetail { title, meta }
}

/// The right of the repository browser.
#[derive(Debug)]
pub enum DetailPane {
    Empty,
    Message(PanelMessage),
    Branch(BranchDetail),
    Commit(CommitDetail),
}

/// The detail of a branch is shown like this.
pub open spec fn shows_branch(
    pane: DetailPane,
    graph: RepositoryGraphDocument,
    occupied: Seq<String>,
    selection: RepositoryBranchSelection,
) -> bool {
    let gone = widgets::panel_text(
        "Branch no longer available"@,
        "Refresh the graph to inspect the latest repository state."@,
    );
    match selection {
        RepositoryBranchSelection::Local { name } => match prompts::branch_named(
            graph.local_branches@,
            name@,
        ) {
            Some(index) => {
                let branch = graph.local_branches@[index];
                pane matches DetailPane::Branch(detail) && detail.title@ == branch.name@
                    && strings::views(detail.meta@) == local_meta(branch, occupied)
            },
            None => pane matches DetailPane::Message(message) && message@ == gone,
        },
        RepositoryBranchSelection::Remote { full_ref } => match remote_with_ref(
            graph.remote_branches@,
            full_ref@,
        ) {
            Some(index) => {
                let branch = graph.remote_branches@[index];
                pane matches DetailPane::Branch(detail) && detail.title@ == branch.remote_name@
                    + "/"@ + branch.short_name@ && strings::views(detail.meta@) == remote_meta(
                    branch,
                )
            },
            None => pane matches DetailPane::Message(message) && message@ == gone,
        },
    }
}

fn render_branch_detail(
    graph: &RepositoryGraphDocument,
    occupied: &Vec<String>,
    selection: &RepositoryBranchSelection,
) -> (pane: DetailPane)
    ensures
        shows_branch(pane, *graph, occupied@, *selection),
{
    match selection {
        RepositoryBranchSelection::Local { name } => {
            if let Some(index) = prompts::find_branch(&graph.local_branches, name.as_str()) {
                return DetailPane::Branch(
                    describe_local_branch(&graph.local_branches[index], occupied),
                );
            }
        },
        RepositoryBranchSelection::Remote { full_ref } => {
            if let Some(index) = find_remote_branch(&graph.remote_branches, full_ref.as_str()) {
                return DetailPane::Branch(describe_remote_branch(&graph.remote_branches[index]));
            }
        },
    }
    DetailPane::Message(
        widgets::panel_message(
            "Branch no longer available",
            "Refresh the graph to inspect the latest repository state.",
        ),
    )
}

/// What is shown of a commit before its detail is there.
pub open spec fn commit_message(
    detail: AsyncDocumentState<CommitDetailDocument>,
    oid: Oid,
) -> Option<PanelText> {
    if detail.loading {
        Some(
            widgets::panel_text(
                "Loading commit detail\u{2026}"@,
                "Changed-file summaries are loaded lazily for the selected commit."@,
            ),
        )
    } else if detail.error is Some {
        Some(widgets::panel_text("Could not load commit detail"@, detail.error->0@))
    } else if detail.document is None {
        Some(
            widgets::panel_text(
                "Select a commit"@,
                "Pick a commit from the graph to inspect its metadata."@,
            ),
        )
    } else if detail.document->0.oid != oid {
        Some(
            widgets::panel_text(
                "Loading commit detail\u{2026}"@,
                "The right pane is waiting for the selected commit."@,
            ),
        )
    } else {
        None
    }
}

fn find_commit_message(detail: &AsyncDocumentState<CommitDetailDocument>, oid: Oid) -> (message:
    Option<PanelMessage>)
    ensures
        match message {
            Some(message) => commit_message(*detail, oid) == Some(message@),
            None => commit_message(*detail, oid) is None,
        },
{
    if detail.loading {
        return Some(
            widgets::panel_message(
                "Loading commit detail\u{2026}",
                "Changed-file summaries are loaded lazily for the selected commit.",
            ),
        );
    }
    if let Some(error) = &detail.error {
        return Some(widgets::panel_message("Could not load commit detail", error.as_str()));
    }
    match &detail.document {
        Some(document) => if document.oid == oid {
            None
        } else {
            Some(
                widgets::panel_message(
                    "Loading commit detail\u{2026}",
                    "The right pane is waiting for the selected commit.",
                ),
            )
        },
        None => Some(
            widgets::panel_message(
                "Select a commit",
                "Pick a commit from the graph to inspect its metadata.",
            ),
        ),
    }
}

/// The pane shows the details of the selected commit or branch.
pub open spec fn shows_detail(
    pane: DetailPane,
    palette: OrcaTheme,
    state: RepositoryGraphTabState,
) -> bool {
    match (state.selected_commit, state.selected_branch) {
        (Some(oid), _) => match commit_message(state.commit_detail, oid) {
            Some(text) => pane matches DetailPane::Message(message) && message@ == text,
            None => pane matches DetailPane::Commit(shown) && shows_commit(
                shown,
                palette,
                state.commit_detail.document->0,
                state.selected_commit_file,
            ),
        },
        (None, Some(selection)) => match state.graph.document {
            Some(graph) => shows_branch(
                pane,
                graph,
                state.occupied_local_branches@,
                selection,
            ),
            None => pane is Empty,
        },
        (None, None) => pane matches DetailPane::Message(message) && message@
            == widgets::panel_text(
            "No selection"@,
            "Pick a branch or commit to inspect details."@,
        ),
    }
}

/// The right of the repository browser: the selected commit, the selected branch, or why there is
/// neither.
pub fn render_detail_pane(palette: &OrcaTheme, state: &RepositoryGraphTabState) -> (pane:
    DetailPane)
    ensures
        shows_detail(pane, *palette, *state),
{
    if let Some(oid) = state.selected_commit {
        if let Some(message) = find_commit_message(&state.commit_detail, oid) {
            return DetailPane::Message(message);
        }
        if let Some(detail) = &state.commit_detail.document {
            return DetailPane::Commit(
                render_commit_detail(palette, detail, &state.selected_commit_file),
            );
        }
    }
    if let Some(selection) = &state.selected_branch {
        return match &state.graph.document {
            Some(graph) => render_branch_detail(
                graph,
                &state.occupied_local_branches,
                selection,
            ),
            None => DetailPane::Empty,
        };
    }
    DetailPane::Message(
        widgets::panel_message("No selection", "Pick a branch or commit to inspect details."),
    )
}

/// A file of a commit, and what a click on it selects.
#[derive(Debug)]
pub struct CommitFileEntry {
    pub selection: CommitFileSelection,
    pub row: CommitFileRow,
}

/// What is known of a commit.
#[derive(Debug)]
pub struct CommitDetail {
    pub title: String,
    pub commit: String,
    pub author: String,
    pub committed: String,
    pub message_body: Option<String>,
    pub files_heading: String,
    pub files: Vec<CommitFileEntry>,
}

/// The file is the selected one.
pub open spec fn is_selected_file(
    selected: Option<CommitFileSelection>,
    file: CommitChangedFile,
) -> bool {
    selected is Some && selected->0.relative_path@ == file.path@
}

/// The entries show the files of a commit.
pub open spec fn shows_commit_files(
    entries: Seq<CommitFileEntry>,
    palette: OrcaTheme,
    detail: CommitDetailDocument,
    selected: Option<CommitFileSelection>,
) -> bool {
    &&& entries.len() == detail.changed_files@.len()
    &&& forall|i: int|
        #![trigger entries[i]]
        0 <= i < entries.len() ==> entries[i].selection@ == (
            detail.oid,
            detail.changed_files@[i].path@,
        ) && file_row_says(
            entries[i].row,
            palette,
            detail.changed_files@[i],
            is_selected_file(selected, detail.changed_files@[i]),
        )
}

fn render_commit_files(
    palette: &OrcaTheme,
    detail: &CommitDetailDocument,
    selected: &Option<CommitFileSelection>,
) -> (entries: Vec<CommitFileEntry>)
    ensures
        shows_commit_files(entries@, *palette, *detail, *selected),
{
    let mut entries: Vec<CommitFileEntry> = Vec::new();
    let mut i: usize = 0;
    while i < detail.changed_files.len()
        invariant
            i <= detail.changed_files@.len(),
            entries@.len() == i,
            forall|k: int|
                #![trigger entries@[k]]
                0 <= k < entries@.len() ==> entries@[k].selection@ == (
                    detail.oid,
                    detail.changed_files@[k].path@,
                ) && file_row_says(
                    entries@[k].row,
                    *palette,
                    detail.changed_files@[k],
                    is_selected_file(*selected, detail.changed_files@[k]),
                ),
        decreases detail.changed_files@.len() - i,
    {
        let file = &detail.changed_files[i];
        let is_selected = match selected {
            Some(selected) => selected.relative_path.same_path(&file.path),
            None => false,
        };
        entries.push(
            CommitFileEntry {
                selection: CommitFileSelection {
                    commit_oid: detail.oid,
                    relative_path: file.path.clone(),
                },
                row: render_commit_changed_file_row(palette, file, is_selected),
            },
        );
        i = i + 1;
    }
    entries
}

/// What is known of a commit is shown like this.
pub open spec fn shows_commit(
    shown: CommitDetail,
    palette: OrcaTheme,
    detail: CommitDetailDocument,
    selected: Option<CommitFileSelection>,
) -> bool {
    &&& shown.title@ == detail.summary@
    &&& shown.commit@ == "Commit "@ + detail.short_oid@
    &&& shown.author@ == "Author "@ + detail.author_name@ + " <"@ + detail.author_email@ + ">"@
    &&& exists|utc: time::UtcTime| #[trigger]
        time::is_time_of(utc, detail.committed_at_unix as int) && shown.committed@ == "Committed "@
            + time::timestamp_text(utc)
    &&& strings::optional_view(shown.message_body) == if detail.message_body@.len() > 0 {
        Some(detail.message_body@)
    } else {
        None
    }
    &&& shown.files_heading@ == "FILES"@ + " ("@ + strings::decimal(detail.changed_files@.len())
        + ")"@
    &&& shows_commit_files(shown.files@, palette, detail, selected)
}

/// What is known of a commit: its summary, its short name, who made it and when, the rest of its
/// message, and the files that it changed.
pub fn render_commit_detail(
    palette: &OrcaTheme,
    detail: &CommitDetailDocument,
    selected: &Option<CommitFileSelection>,
) -> (shown: CommitDetail)
    ensures
        shows_commit(shown, *palette, *detail, *selected),
{
    let mut author = strings::concat_text("Author ", detail.author_name.as_str());
    author.append(" <");
    author.append(detail.author_email.as_str());
    author.append(">");
    let committed_at = time::format_timestamp(detail.committed_at_unix);
    CommitDetail {
        title: detail.summary.clone(),
        commit: strings::concat_text("Commit ", detail.short_oid.as_str()),
        author,
        committed: strings::concat_text("Committed ", committed_at.as_str()),
        message_body: if detail.message_body.as_str().is_empty() {
            None
        } else {
            Some(detail.message_body.clone())
        },
        files_heading: widgets::section_header("FILES", detail.changed_files.len()),
        files: render_commit_files(palette, detail, selected),
    }
}

/// What is shown where a project has no repository browser.
pub fn missing_browser_message() -> (message: PanelMessage)
    ensures
        message@ == widgets::panel_text(
            "Repository browser unavailable"@,
            "Open the repository browser from a git-backed project."@,
        ),
{
    widgets::panel_message(
        "Repository browser unavailable",
        "Open the repository browser from a git-backed project.",
    )
}

/// A label on a commit as it is drawn.
#[derive(Debug)]
pub struct RefPill {
    pub name: String,
    pub border: u32,
    pub fill: Tint,
}

/// The row of a commit as it is drawn.
#[derive(Debug)]
pub struct CommitRow {
    pub id: String,
    pub look: RowLook,
    pub lanes: Vec<Option<LaneCell>>,
    /// Lanes run beyond those that are shown.
    pub overflow_gutter: bool,
    pub pills: Vec<RefPill>,
    pub summary: String,
    pub age: String,
}

/// Draws the labels of a commit.
fn render_ref_pills(
    palette: &OrcaTheme,
    commit: &CommitGraphNode,
    current_head_branch: &Option<String>,
) -> (pills: Vec<RefPill>)
    ensures
        pills@.len() == commit.ref_labels@.len(),
        forall|i: int|
            0 <= i < pills@.len() ==> (#[trigger] pills@[i]).name@ == commit.ref_labels@[i].name@
                && pills@[i].border == pill_color(
                *palette,
                commit.ref_labels@[i].kind,
                commit.ref_labels@[i].name@,
                strings::optional_view(*current_head_branch),
            ) && pills@[i].fill == (Tint { color: pills@[i].border, alpha: 0x14 }),
{
    let mut pills: Vec<RefPill> = Vec::new();
    while pills.len() < commit.ref_labels.len()
        invariant
            pills@.len() <= commit.ref_labels@.len(),
            forall|i: int|
                0 <= i < pills@.len() ==> (#[trigger] pills@[i]).name@
                    == commit.ref_labels@[i].name@ && pills@[i].border == pill_color(
                    *palette,
                    commit.ref_labels@[i].kind,
                    commit.ref_labels@[i].name@,
                    strings::optional_view(*current_head_branch),
                ) && pills@[i].fill == (Tint { color: pills@[i].border, alpha: 0x14 }),
        decreases commit.ref_labels@.len() - pills@.len(),
    {
        let label = &commit.ref_labels[pills.len()];
        let (border, fill) = render_ref_pill(
            palette,
            label.kind,
            label.name.as_str(),
            current_head_branch,
        );
        pills.push(RefPill { name: label.name.clone(), border, fill });
    }
    pills
}

/// The row of a commit is drawn like this.
pub open spec fn draws_commit(
    shown: CommitRow,
    palette: OrcaTheme,
    row: StyledCommitRow,
    commit: CommitGraphNode,
    is_selected: bool,
    head_branch: Option<Seq<char>>,
    now_unix: i64,
) -> bool {
    &&& shown.id@ == "repo-commit-"@ + commit.oid.hex()
    &&& shown.look == commit_look(palette, row, is_selected)
    &&& repository_graph::draws_lanes(shown.lanes@, row, commit)
    &&& shown.overflow_gutter == row.overflow_gutter_visible
    &&& shown.pills@.len() == commit.ref_labels@.len()
    &&& forall|i: int|
        0 <= i < shown.pills@.len() ==> (#[trigger] shown.pills@[i]).name@
            == commit.ref_labels@[i].name@ && shown.pills@[i].border == pill_color(
            palette,
            commit.ref_labels@[i].kind,
            commit.ref_labels@[i].name@,
            head_branch,
        ) && shown.pills@[i].fill == (Tint { color: shown.pills@[i].border, alpha: 0x14 })
    &&& shown.summary@ == commit.summary@
    &&& shown.age@ == time::age_text(now_unix - commit.authored_at_unix)
}

/// Draws the row of a commit: its lanes, its labels, its summary and its age.
pub fn render_commit_row(
    palette: &OrcaTheme,
    row: &StyledCommitRow,
    commit: &CommitGraphNode,
    is_selected: bool,
    current_head_branch: &Option<String>,
    now_unix: i64,
) -> (shown: CommitRow)
    requires
        i64::MIN <= now_unix - commit.authored_at_unix <= i64::MAX,
        repository_graph::lanes_fit(*row),
    ensures
        draws_commit(
            shown,
            *palette,
            *row,
            *commit,
            is_selected,
            strings::optional_view(*current_head_branch),
            now_unix,
        ),
{
    CommitRow {
        id: strings::concat_text("repo-commit-", commit.oid.to_hex().as_str()),
        look: commit_row_look(palette, row, is_selected),
        lanes: repository_graph::render_graph_lanes(row, commit),
        overflow_gutter: row.overflow_gutter_visible,
        pills: render_ref_pills(palette, commit, current_head_branch),
        summary: commit.summary.clone(),
        age: time::format_relative_time_from(now_unix, commit.authored_at_unix),
    }
}

/// The row of a branch is about that branch: a click on it selects it, it is marked where it is
/// checked out, and it stands out exactly where it is the selected one.
pub proof fn branch_row_is_about_its_branch(
    element: BranchElement,
    graph: RepositoryGraphDocument,
    row: RailRow,
    selected: Option<RepositoryBranchSelection>,
    palette: OrcaTheme,
)
    requires
        draws_row(element, graph, row, selected, palette),
    ensures
        row matches RailRow::Local { index, is_worktree_occupied, .. } ==> {
            let branch = graph.local_branches@[index as int];
            &&& row_selection(element) == Some(
                RepositoryBranchSelection::Local { name: branch.name },
            )
            &&& element matches BranchElement::Branch { look, checked, name, worktree_badge, .. }
            &&& checked == branch.is_head
            &&& name@ == branch.name@
            &&& worktree_badge == is_worktree_occupied
            &&& (look.fill is Some) == (selected is Some && selected->0@
                == (repository_state::BranchSelectionView::Local { name: branch.name@ }))
        },
        row matches RailRow::Remote { index } ==> {
            let branch = graph.remote_branches@[index as int];
            &&& row_selection(element) == Some(
                RepositoryBranchSelection::Remote { full_ref: branch.full_ref },
            )
            &&& element matches BranchElement::Branch { look, checked, name, .. }
            &&& !checked
            &&& name@ == branch.short_name@
            &&& (look.fill is Some) == (selected is Some && selected->0@
                == (repository_state::BranchSelectionView::Remote { full_ref: branch.full_ref@ }))
        },
        row matches RailRow::LocalMeta { index } ==> row_selection(element) == Some(
            RepositoryBranchSelection::Local { name: graph.local_branches@[index as int].name },
        ),
        row is LocalHeading || row is RemoteHeading || row is RemoteGroup ==> row_selection(element)
            is None,
        row matches RailRow::RemoteGroup { index, expanded } ==> (
        element matches BranchElement::Group { arrow, remote_name } && remote_name@
            == graph.remote_branches@[index as int].remote_name@ && (arrow == '\u{25BE}')
            == expanded),
{
}

/// How far a branch is ahead is told behind a plus sign, and how far it is behind after it, behind a
/// minus sign.
pub proof fn counts_tell_ahead_before_behind(
    upstream: crate::repository_graph::BranchTrackingInfo,
)
    ensures
        ({
            let text = counts_text(upstream);
            let ahead = strings::decimal(upstream.ahead as nat);
            &&& text[0] == '+'
            &&& strings::number_of(text.subrange(1, 1 + ahead.len() as int)) == upstream.ahead
            &&& text[2 + ahead.len() as int] == '-'
            &&& strings::number_of(text.skip(3 + ahead.len() as int)) == upstream.behind
        }),
{
    reveal_strlit("+");
    reveal_strlit(" -");
    let text = counts_text(upstream);
    let ahead = strings::decimal(upstream.ahead as nat);
    strings::decimal_notation_reads_back(upstream.ahead as nat);
    strings::decimal_notation_reads_back(upstream.behind as nat);
    assert(text.subrange(1, 1 + ahead.len() as int) =~= ahead);
    assert(text.skip(3 + ahead.len() as int) =~= strings::decimal(upstream.behind as nat));
}

/// A full reference finds the first branch of a remote that has it, and none only where no branch
/// has it.
pub proof fn reference_finds_its_branch(branches: Seq<RemoteBranchEntry>, full_ref: Seq<char>)
    ensures
        match remote_with_ref(branches, full_ref) {
            Some(index) => {
                &&& 0 <= index < branches.len()
                &&& branches[index].full_ref@ == full_ref
                &&& forall|i: int| 0 <= i < index ==> (#[trigger] branches[i]).full_ref@ != full_ref
            },
            None => forall|i: int| 0 <= i < branches.len() ==> (#[trigger] branches[i]).full_ref@
                != full_ref,
        },
    decreases branches.len(),
{
    if branches.len() > 0 {
        let rest = branches.drop_last();
        reference_finds_its_branch(rest, full_ref);
        assert forall|i: int| 0 <= i < rest.len() implies rest[i] == #[trigger] branches[i] by {}
    }
}

/// The detail of a branch is that of the selected one: a branch with the selected name or reference,
/// with its own reference and target; and a branch that is gone has none.
pub proof fn branch_detail_is_that_of_the_selection(
    pane: DetailPane,
    graph: RepositoryGraphDocument,
    occupied: Seq<String>,
    selection: RepositoryBranchSelection,
)
    requires
        shows_branch(pane, graph, occupied, selection),
    ensures
        (pane is Branch) == match selection {
            RepositoryBranchSelection::Local { name } => exists|i: int|
                0 <= i < graph.local_branches@.len() && (#[trigger] graph.local_branches@[i]).name@
                    == name@,
            RepositoryBranchSelection::Remote { full_ref } => exists|i: int|
                0 <= i < graph.remote_branches@.len() && (
                #[trigger] graph.remote_branches@[i]).full_ref@ == full_ref@,
        },
        pane is Branch || pane is Message,
        pane matches DetailPane::Branch(detail) ==> (
        selection matches RepositoryBranchSelection::Local { name } ==> detail.title@ == name@
            && strings::views(detail.meta@)[0] == "LOCAL"@),
        pane matches DetailPane::Branch(detail) ==> (
        selection matches RepositoryBranchSelection::Remote { full_ref } ==> strings::views(
            detail.meta@,
        )[0] == "REMOTE"@ && strings::views(detail.meta@)[1] == "Ref "@ + full_ref@),
{
    match selection {
        RepositoryBranchSelection::Local { name } => {
            prompts::name_finds_its_branch(graph.local_branches@, name@);
        },
        RepositoryBranchSelection::Remote { full_ref } => {
            reference_finds_its_branch(graph.remote_branches@, full_ref@);
        },
    }
}

/// The facts about a local branch say that it is the current one, what it tracks and that a worktree
/// occupies it, each exactly where it is so.
pub proof fn branch_facts_are_its_own(branch: LocalBranchEntry, occupied: Seq<String>)
    ensures
        ({
            let facts = local_meta(branch, occupied);
            let extra = (if branch.is_head {
                1int
            } else {
                0int
            }) + (if branch.upstream is Some {
                1int
            } else {
                0int
            }) + (if repository_state::lists_name(occupied, branch.name@) {
                1int
            } else {
                0int
            });
            &&& facts.len() == 3 + extra
            &&& facts[1] == "Ref "@ + branch.full_ref@
            &&& facts[2] == "Target "@ + branch.target.hex()
            &&& branch.is_head ==> facts[3] == "Current branch"@
            &&& repository_state::lists_name(occupied, branch.name@) ==> facts.last()
                == "Occupied by an Orca-managed worktree"@
        }),
{
}

/// What a commit did to a file is told apart by its short name.
pub proof fn statuses_are_told_apart(a: CommitFileStatus, b: CommitFileStatus)
    ensures
        (status_text(a) == status_text(b)) == (a == b),
        status_text(CommitFileStatus::Added)[0] == 'A',
        status_text(CommitFileStatus::Deleted)[0] == 'D',
        status_text(CommitFileStatus::Modified)[0] == 'M',
        status_text(CommitFileStatus::Renamed)[0] == 'R',
        status_text(CommitFileStatus::Typechange)[0] == 'T',
{
    reveal_strlit("ADD");
    reveal_strlit("MOD");
    reveal_strlit("DEL");
    reveal_strlit("REN");
    reveal_strlit("TYPE");
    assert(status_text(a)[0] == status_text(b)[0] ==> a == b);
}

/// The row of a changed file tells the added lines behind a plus sign and the deleted ones behind a
/// minus sign, and stands out exactly where the file is selected.
pub proof fn file_row_tells_its_counts(
    row: CommitFileRow,
    palette: OrcaTheme,
    file: CommitChangedFile,
    is_selected: bool,
)
    requires
        file_row_says(row, palette, file, is_selected),
    ensures
        row.additions@[0] == '+',
        strings::number_of(row.additions@.skip(1)) == file.additions,
        row.deletions@[0] == '-',
        strings::number_of(row.deletions@.skip(1)) == file.deletions,
        row.fill is Some == is_selected,
        row.path@ == crate::model::path_text(file.path@),
        file.status is Added ==> row.status_color == palette.STATUS_GREEN,
        file.status is Deleted ==> row.status_color == palette.STATUS_CORAL,
{
    reveal_strlit("+");
    reveal_strlit("-");
    strings::decimal_notation_reads_back(file.additions as nat);
    strings::decimal_notation_reads_back(file.deletions as nat);
    assert(row.additions@.skip(1) =~= strings::decimal(file.additions as nat));
    assert(row.deletions@.skip(1) =~= strings::decimal(file.deletions as nat));
}

/// The details that are shown are those of the selected commit, never of one that was selected
/// before; and a selected commit comes before a selected branch.
pub proof fn commit_detail_is_that_of_the_selection(
    pane: DetailPane,
    palette: OrcaTheme,
    state: RepositoryGraphTabState,
)
    requires
        shows_detail(pane, palette, state),
    ensures
        pane matches DetailPane::Commit(shown) ==> {
            &&& state.selected_commit is Some
            &&& state.commit_detail.document is Some
            &&& state.commit_detail.document->0.oid == state.selected_commit->0
            &&& !state.commit_detail.loading && state.commit_detail.error is None
            &&& shown.title@ == state.commit_detail.document->0.summary@
        },
        state.selected_commit is Some ==> pane is Commit || pane is Message,
        state.selected_commit is Some && state.commit_detail.document is Some
            && state.commit_detail.document->0.oid == state.selected_commit->0
            && !state.commit_detail.loading && state.commit_detail.error is None ==> pane is Commit,
        pane is Branch ==> state.selected_commit is None && state.selected_branch is Some,
{
}

/// A click on a file of a commit selects that file of that commit.
pub proof fn commit_files_are_of_the_commit(
    entries: Seq<CommitFileEntry>,
    palette: OrcaTheme,
    detail: CommitDetailDocument,
    selected: Option<CommitFileSelection>,
    index: int,
)
    requires
        shows_commit_files(entries, palette, detail, selected),
        0 <= index < detail.changed_files@.len(),
    ensures
        entries.len() == detail.changed_files@.len(),
        entries[index].selection.commit_oid == detail.oid,
        entries[index].selection.relative_path@ == detail.changed_files@[index].path@,
        entries[index].row.path@ == crate::model::path_text(detail.changed_files@[index].path@),
        (entries[index].row.fill is Some) == (selected is Some && selected->0.relative_path@
            == detail.changed_files@[index].path@),
{
    let entry = entries[index];
}

/// The diff of a file of a commit is shown only where it is that of the selected file, and the
/// history is shown where no file is selected.
pub proof fn file_diff_is_that_of_the_selection(
    state: RepositoryGraphTabState,
    row_count: int,
    has_lines: bool,
)
    ensures
        commit_pane(state, row_count, has_lines) matches CommitPaneView::FileDiff { path, commit, .. }
            ==> {
            &&& state.selected_commit_file is Some
            &&& state.commit_file_diff.document is Some
            &&& state.commit_file_diff.document->0.selection@ == state.selected_commit_file->0@
            &&& !state.commit_file_diff.loading && has_lines
            &&& commit == "Commit "@ + state.commit_file_diff.document->0.commit_oid.hex()
        },
        commit_pane(state, row_count, has_lines) is Rows == (state.selected_commit_file is None
            && row_count != 0 && state.graph.error is None),
{
}

/// The label of the checked-out branch has the colour of the head, other local branches have another
/// one, and branches of remotes a third.
pub proof fn labels_tell_the_current_branch(
    palette: OrcaTheme,
    label: Seq<char>,
    head: Option<Seq<char>>,
)
    ensures
        pill_color(palette, CommitRefKind::LocalBranch, label, Some(label)) == pill_color(
            palette,
            CommitRefKind::Head,
            label,
            head,
        ),
        head != Some(label) ==> pill_color(palette, CommitRefKind::LocalBranch, label, head)
            == palette.STATUS_GREEN,
        pill_color(palette, CommitRefKind::RemoteBranch, label, head) == palette.STATUS_AMBER,
        pill_color(palette, CommitRefKind::Head, label, head) == palette.ORCA_BLUE,
{
}

/// The selected commit stands out most, and of the others the one that is checked out does.
pub proof fn selected_commit_stands_out(
    palette: OrcaTheme,
    row: StyledCommitRow,
    is_selected: bool,
)
    ensures
        is_selected ==> commit_look(palette, row, is_selected).border == palette.SURFACE,
        !is_selected && (row.is_checked_out_tip || row.is_detached_head_tip) ==> commit_look(
            palette,
            row,
            is_selected,
        ).border == palette.ORCA_BLUE,
        !is_selected && !row.is_checked_out_tip && !row.is_detached_head_tip ==> commit_look(
            palette,
            row,
            is_selected,
        ).fill is None,
{
}

/// The row of a commit shows its own summary, its labels in their order, and its age from when it
/// was written until now.
pub proof fn commit_row_is_about_its_commit(
    shown: CommitRow,
    palette: OrcaTheme,
    row: StyledCommitRow,
    commit: CommitGraphNode,
    is_selected: bool,
    head: Option<Seq<char>>,
    now_unix: i64,
    index: int,
)
    requires
        draws_commit(shown, palette, row, commit, is_selected, head, now_unix),
    ensures
        shown.summary@ == commit.summary@,
        shown.pills@.len() == commit.ref_labels@.len(),
        0 <= index < shown.pills@.len() ==> shown.pills@[index].name@
            == commit.ref_labels@[index].name@,
        now_unix - commit.authored_at_unix < 60 ==> shown.age@ == "now"@,
        now_unix - commit.authored_at_unix >= 60 * 60 && now_unix - commit.authored_at_unix < 24
            * 60 * 60 ==> shown.age@.last() == 'h',
{
    reveal_strlit("h");
    let pill = shown.pills@[index];
}

} // verus!
