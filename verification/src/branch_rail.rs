//! The list of branches of a repository.

use crate::repository_graph::{
    BranchTrackingInfo, LocalBranchEntry, RemoteBranchEntry, RepositoryGraphDocument,
};
use crate::repository_state;
use crate::repository_state::{BranchSelectionView, RepositoryBranchSelection};
use crate::strings;
use vstd::prelude::*;
use vstd::string::*;

verus! {

/// A row of the list of branches. Branches are named by their place in the repository's lists.
#[derive(Clone, Copy, Debug, PartialEq, Eq, Structural)]
pub enum RailRow {
    /// The heading of the local branches.
    LocalHeading,
    /// A local branch. What it tracks stands in its row or below it.
    Local { index: usize, is_worktree_occupied: bool, inline_upstream: bool },
    /// What a local branch tracks, below its row.
    LocalMeta { index: usize },
    /// The heading of the remotes.
    RemoteHeading,
    /// A remote, named by its first branch.
    RemoteGroup { index: usize, expanded: bool },
    /// A branch of a remote.
    Remote { index: usize },
}

/// What a branch tracks stands in its row: it fits there, or all of them do.
pub open spec fn fits_inline(fits: Option<Seq<bool>>, index: int) -> bool {
    match fits {
        Some(fits) => index < fits.len() && fits[index],
        None => true,
    }
}

/// The branches of a remote are listed: it is expanded, or all of them are.
pub open spec fn is_expanded(expanded: Option<Seq<String>>, remote_name: Seq<char>) -> bool {
    match expanded {
        Some(names) => repository_state::lists_name(names, remote_name),
        None => true,
    }
}

/// The rows of the first local branches.
pub open spec fn local_rows(
    branches: Seq<LocalBranchEntry>,
    occupied: Seq<String>,
    fits: Option<Seq<bool>>,
    count: int,
) -> Seq<RailRow>
    decreases count,
{
    if count <= 0 {
        Seq::empty()
    } else {
        let index = count - 1;
        let tracks = branches[index].upstream is Some;
        local_rows(branches, occupied, fits, index).push(
            RailRow::Local {
                index: index as usize,
                is_worktree_occupied: repository_state::lists_name(occupied, branches[index].name@),
                inline_upstream: tracks && fits_inline(fits, index),
            },
        ) + (if tracks && !fits_inline(fits, index) {
            seq![RailRow::LocalMeta { index: index as usize }]
        } else {
            Seq::empty()
        })
    }
}

/// The branch is the first of its remote's group.
pub open spec fn opens_group(branches: Seq<RemoteBranchEntry>, index: int) -> bool {
    index == 0 || branches[index - 1].remote_name@ != branches[index].remote_name@
}

/// The rows of the first branches of remotes.
pub open spec fn remote_rows(
    branches: Seq<RemoteBranchEntry>,
    expanded: Option<Seq<String>>,
    count: int,
) -> Seq<RailRow>
    decreases count,
{
    if count <= 0 {
        Seq::empty()
    } else {
        let index = count - 1;
        let open = is_expanded(expanded, branches[index].remote_name@);
        remote_rows(branches, expanded, index) + (if opens_group(branches, index) {
            seq![RailRow::RemoteGroup { index: index as usize, expanded: open }]
        } else {
            Seq::empty()
        }) + (if open {
            seq![RailRow::Remote { index: index as usize }]
        } else {
            Seq::empty()
        })
    }
}

/// The rows of the list of branches.
pub open spec fn rail_rows(
    graph: RepositoryGraphDocument,
    occupied: Seq<String>,
    expanded: Option<Seq<String>>,
    fits: Option<Seq<bool>>,
) -> Seq<RailRow> {
    seq![RailRow::LocalHeading] + local_rows(
        graph.local_branches@,
        occupied,
        fits,
        graph.local_branches@.len() as int,
    ) + seq![RailRow::RemoteHeading] + remote_rows(
        graph.remote_branches@,
        expanded,
        graph.remote_branches@.len() as int,
    )
}

/// The contents of a list that may be missing.
pub open spec fn optional_list<T>(list: Option<&Vec<T>>) -> Option<Seq<T>> {
    match list {
        Some(list) => Some(list@),
        None => None,
    }
}

fn push_local_rows(
    branches: &Vec<LocalBranchEntry>,
    occupied: &Vec<String>,
    fits: Option<&Vec<bool>>,
    rows: &mut Vec<RailRow>,
)
    ensures
        final(rows)@ == old(rows)@ + local_rows(
            branches@,
            occupied@,
            optional_list(fits),
            branches@.len() as int,
        ),
{
    let ghost before = rows@;
    let mut i: usize = 0;
    assert(rows@ =~= before + local_rows(branches@, occupied@, optional_list(fits), 0));
    while i < branches.len()
        invariant
            i <= branches@.len(),
            rows@ == before + local_rows(branches@, occupied@, optional_list(fits), i as int),
        decreases branches@.len() - i,
    {
        let inline_fits = match fits {
            Some(fits) => i < fits.len() && fits[i],
            None => true,
        };
        let tracks = branches[i].upstream.is_some();
        rows.push(
            RailRow::Local {
                index: i,
                is_worktree_occupied: repository_state::name_listed(
                    occupied,
                    branches[i].name.as_str(),
                ),
                inline_upstream: tracks && inline_fits,
            },
        );
        if tracks && !inline_fits {
            rows.push(RailRow::LocalMeta { index: i });
        }
        i = i + 1;
        assert(rows@ =~= before + local_rows(
            branches@,
            occupied@,
            optional_list(fits),
            i as int,
        ));
    }
}

fn push_remote_rows(
    branches: &Vec<RemoteBranchEntry>,
    expanded: Option<&Vec<String>>,
    rows: &mut Vec<RailRow>,
)
    ensures
        final(rows)@ == old(rows)@ + remote_rows(
            branches@,
            optional_list(expanded),
            branches@.len() as int,
        ),
{
    let ghost before = rows@;
    let mut i: usize = 0;
    assert(rows@ =~= before + remote_rows(branches@, optional_list(expanded), 0));
    while i < branches.len()
        invariant
            i <= branches@.len(),
            rows@ == before + remote_rows(branches@, optional_list(expanded), i as int),
        decreases branches@.len() - i,
    {
        let open = match expanded {
            Some(names) => repository_state::name_listed(
                names,
                branches[i].remote_name.as_str(),
            ),
            None => true,
        };
        let first = i == 0 || !strings::same_text(
            branches[i - 1].remote_name.as_str(),
            branches[i].remote_name.as_str(),
        );
        if first {
            rows.push(RailRow::RemoteGroup { index: i, expanded: open });
        }
        if open {
            rows.push(RailRow::Remote { index: i });
        }
        i = i + 1;
        assert(rows@ =~= before + remote_rows(branches@, optional_list(expanded), i as int));
    }
}

/// Lays the branches out: the local ones, then those of each remote below the remote's name. A
/// remote that is not expanded shows its name alone. What a local branch tracks stands in its row
/// where that fits, and in a row of its own otherwise.
pub fn layout_branch_rail(
    graph: &RepositoryGraphDocument,
    occupied_local_branches: &Vec<String>,
    expanded_remote_groups: Option<&Vec<String>>,
    inline_fits: Option<&Vec<bool>>,
) -> (rows: Vec<RailRow>)
    ensures
        rows@ == rail_rows(
            *graph,
            occupied_local_branches@,
            optional_list(expanded_remote_groups),
            optional_list(inline_fits),
        ),
{
    let mut rows: Vec<RailRow> = Vec::new();
    rows.push(RailRow::LocalHeading);
    push_local_rows(&graph.local_branches, occupied_local_branches, inline_fits, &mut rows);
    rows.push(RailRow::RemoteHeading);
    push_remote_rows(&graph.remote_branches, expanded_remote_groups, &mut rows);
    assert(rows@ =~= rail_rows(
        *graph,
        occupied_local_branches@,
        optional_list(expanded_remote_groups),
        optional_list(inline_fits),
    ));
    rows
}

/// Whether a branch is local.
#[derive(Clone, Copy, Debug, PartialEq, Eq, Structural)]
pub enum BranchRailBranchKind {
    Local,
    Remote,
}

/// A branch in the list of all branches.
#[derive(Debug, PartialEq, Eq)]
pub struct BranchRailBranchRow {
    pub selection: RepositoryBranchSelection,
    pub name: String,
    pub kind: BranchRailBranchKind,
    pub metadata: Option<String>,
    pub is_head: bool,
    pub is_worktree_occupied: bool,
}

/// A row of the list of all branches.
#[derive(Debug, PartialEq, Eq)]
pub enum BranchRailRow {
    SectionHeader { label: String },
    RemoteGroup { remote_name: String },
    Branch(BranchRailBranchRow),
}

/// What a row of the list of all branches shows.
pub enum BranchRailRowView {
    SectionHeader { label: Seq<char> },
    RemoteGroup { remote_name: Seq<char> },
    Branch {
        selection: BranchSelectionView,
        name: Seq<char>,
        kind: BranchRailBranchKind,
        metadata: Option<Seq<char>>,
        is_head: bool,
        is_worktree_occupied: bool,
    },
}

impl View for BranchRailRow {
    type V = BranchRailRowView;

    open spec fn view(&self) -> BranchRailRowView {
        match self {
            BranchRailRow::SectionHeader { label } => BranchRailRowView::SectionHeader {
                label: label@,
            },
            BranchRailRow::RemoteGroup { remote_name } => BranchRailRowView::RemoteGroup {
                remote_name: remote_name@,
            },
            BranchRailRow::Branch(row) => BranchRailRowView::Branch {
                selection: row.selection@,
                name: row.name@,
                kind: row.kind,
                metadata: strings::optional_view(row.metadata),
                is_head: row.is_head,
                is_worktree_occupied: row.is_worktree_occupied,
            },
        }
    }
}

/// What rows show.
pub open spec fn branch_row_views(rows: Seq<BranchRailRow>) -> Seq<BranchRailRowView> {
    rows.map_values(|row: BranchRailRow| row@)
}

/// The remote and the branch there that a local branch tracks.
pub open spec fn upstream_ref(upstream: BranchTrackingInfo) -> Seq<char> {
    upstream.remote_name@ + "/"@ + upstream.remote_ref@
}

/// What a local branch tracks and how far it is ahead and behind.
pub open spec fn upstream_text(upstream: BranchTrackingInfo) -> Seq<char> {
    upstream_ref(upstream) + " \u{b7} +"@ + strings::decimal(upstream.ahead as nat) + " / -"@
        + strings::decimal(upstream.behind as nat)
}

/// The remote and the branch there that a local branch tracks.
pub fn upstream_ref_label(upstream: &BranchTrackingInfo) -> (label: String)
    ensures
        label@ == upstream_ref(*upstream),
{
    let mut label = strings::concat_text(upstream.remote_name.as_str(), "/");
    label.append(upstream.remote_ref.as_str());
    label
}

/// How far a branch is ahead and behind.
pub fn branch_upstream_counts_label(upstream: &BranchTrackingInfo) -> (label: String)
    ensures
        label@ == "+"@ + strings::decimal(upstream.ahead as nat) + " -"@ + strings::decimal(
            upstream.behind as nat,
        ),
{
    let mut label = "+".to_owned();
    strings::push_decimal(&mut label, upstream.ahead as u64);
    label.append(" -");
    strings::push_decimal(&mut label, upstream.behind as u64);
    label
}

/// What a local branch tracks and how far it is ahead and behind.
pub fn upstream_summary(upstream: &BranchTrackingInfo) -> (summary: String)
    ensures
        summary@ == upstream_text(*upstream),
{
    let mut summary = upstream_ref_label(upstream);
    summary.append(" \u{b7} +");
    strings::push_decimal(&mut summary, upstream.ahead as u64);
    summary.append(" / -");
    strings::push_decimal(&mut summary, upstream.behind as u64);
    summary
}

/// What a row shows where all branches are listed and each tells what it tracks.
pub open spec fn full_row(graph: RepositoryGraphDocument, row: RailRow) -> BranchRailRowView {
    match row {
        RailRow::LocalHeading => BranchRailRowView::SectionHeader { label: "LOCAL"@ },
        RailRow::RemoteHeading => BranchRailRowView::SectionHeader { label: "REMOTE"@ },
        RailRow::RemoteGroup { index, expanded } => BranchRailRowView::RemoteGroup {
            remote_name: graph.remote_branches@[index as int].remote_name@,
        },
        RailRow::Local { index, is_worktree_occupied, inline_upstream } => {
            let branch = graph.local_branches@[index as int];
            BranchRailRowView::Branch {
                selection: BranchSelectionView::Local { name: branch.name@ },
                name: branch.name@,
                kind: BranchRailBranchKind::Local,
                metadata: match branch.upstream {
                    Some(upstream) => Some(upstream_text(upstream)),
                    None => None,
                },
                is_head: branch.is_head,
                is_worktree_occupied,
            }
        },
        RailRow::LocalMeta { index } => BranchRailRowView::SectionHeader { label: Seq::empty() },
        RailRow::Remote { index } => {
            let branch = graph.remote_branches@[index as int];
            BranchRailRowView::Branch {
                selection: BranchSelectionView::Remote { full_ref: branch.full_ref@ },
                name: branch.short_name@,
                kind: BranchRailBranchKind::Remote,
                metadata: match branch.tracked_by_local {
                    Some(local) => Some("tracks "@ + local@),
                    None => None,
                },
                is_head: false,
                is_worktree_occupied: false,
            }
        },
    }
}

/// The row names a branch that the repository has, and is no row below a branch.
pub open spec fn row_fits(graph: RepositoryGraphDocument, row: RailRow) -> bool {
    match row {
        RailRow::LocalHeading => true,
        RailRow::RemoteHeading => true,
        RailRow::Local { index, .. } => index < graph.local_branches@.len(),
        RailRow::LocalMeta { index } => false,
        RailRow::RemoteGroup { index, .. } => index < graph.remote_branches@.len(),
        RailRow::Remote { index } => index < graph.remote_branches@.len(),
    }
}

proof fn lemma_open_rows_fit(graph: RepositoryGraphDocument, occupied: Seq<String>)
    requires
        graph.local_branches@.len() <= usize::MAX,
        graph.remote_branches@.len() <= usize::MAX,
    ensures
        forall|i: int|
            0 <= i < rail_rows(graph, occupied, None, None).len() ==> row_fits(
                graph,
                #[trigger] rail_rows(graph, occupied, None, None)[i],
            ),
{
    lemma_local_rows_fit(graph, occupied, graph.local_branches@.len() as int);
    lemma_remote_rows_fit(graph, graph.remote_branches@.len() as int);
}

proof fn lemma_local_rows_fit(graph: RepositoryGraphDocument, occupied: Seq<String>, count: int)
    requires
        0 <= count <= graph.local_branches@.len() <= usize::MAX,
    ensures
        forall|i: int|
            0 <= i < local_rows(graph.local_branches@, occupied, None, count).len() ==> row_fits(
                graph,
                #[trigger] local_rows(graph.local_branches@, occupied, None, count)[i],
            ),
    decreases count,
{
    if count > 0 {
        lemma_local_rows_fit(graph, occupied, count - 1);
        let rest = local_rows(graph.local_branches@, occupied, None, count - 1);
        let rows = local_rows(graph.local_branches@, occupied, None, count);
        assert forall|i: int| 0 <= i < rows.len() implies row_fits(graph, #[trigger] rows[i]) by {
            if i < rest.len() {
                assert(rows[i] == rest[i]);
            }
        }
    }
}

proof fn lemma_remote_rows_fit(graph: RepositoryGraphDocument, count: int)
    requires
        0 <= count <= graph.remote_branches@.len() <= usize::MAX,
    ensures
        forall|i: int|
            0 <= i < remote_rows(graph.remote_branches@, None, count).len() ==> row_fits(
                graph,
                #[trigger] remote_rows(graph.remote_branches@, None, count)[i],
            ),
    decreases count,
{
    if count > 0 {
        lemma_remote_rows_fit(graph, count - 1);
        let rest = remote_rows(graph.remote_branches@, None, count - 1);
        let rows = remote_rows(graph.remote_branches@, None, count);
        assert forall|i: int| 0 <= i < rows.len() implies row_fits(graph, #[trigger] rows[i]) by {
            if i < rest.len() {
                assert(rows[i] == rest[i]);
            }
        }
    }
}

fn describe_row(graph: &RepositoryGraphDocument, row: RailRow) -> (shown: BranchRailRow)
    requires
        row_fits(*graph, row),
    ensures
        shown@ == full_row(*graph, row),
{
    match row {
        RailRow::LocalHeading => BranchRailRow::SectionHeader { label: "LOCAL".to_owned() },
        RailRow::RemoteHeading => BranchRailRow::SectionHeader { label: "REMOTE".to_owned() },
        RailRow::RemoteGroup { index, expanded: _ } => BranchRailRow::RemoteGroup {
            remote_name: graph.remote_branches[index].remote_name.clone(),
        },
        RailRow::Local { index, is_worktree_occupied, inline_upstream: _ } => {
            let branch = &graph.local_branches[index];
            BranchRailRow::Branch(
                BranchRailBranchRow {
                    selection: RepositoryBranchSelection::Local { name: branch.name.clone() },
                    name: branch.name.clone(),
                    kind: BranchRailBranchKind::Local,
                    metadata: match &branch.upstream {
                        Some(upstream) => Some(upstream_summary(upstream)),
                        None => None,
                    },
                    is_head: branch.is_head,
                    is_worktree_occupied,
                },
            )
        },
        RailRow::LocalMeta { index: _ } => BranchRailRow::SectionHeader { label: String::new() },
        RailRow::Remote { index } => {
            let branch = &graph.remote_branches[index];
            BranchRailRow::Branch(
                BranchRailBranchRow {
                    selection: RepositoryBranchSelection::Remote {
                        full_ref: branch.full_ref.clone(),
                    },
                    name: branch.short_name.clone(),
                    kind: BranchRailBranchKind::Remote,
                    metadata: match &branch.tracked_by_local {
                        Some(local) => Some(strings::concat_text("tracks ", local.as_str())),
                        None => None,
                    },
                    is_head: false,
                    is_worktree_occupied: false,
                },
            )
        },
    }
}

/// Lists all branches, each with what it tracks: the local ones, and those of each remote below
/// the remote's name. It is the layout with all remotes expanded.
pub fn flatten_branch_rail(
    graph: &RepositoryGraphDocument,
    occupied_local_branches: &Vec<String>,
) -> (rows: Vec<BranchRailRow>)
    ensures
        branch_row_views(rows@) == rail_rows(
            *graph,
            occupied_local_branches@,
            None,
            None,
        ).map_values(|row: RailRow| full_row(*graph, row)),
{
    let layout = layout_branch_rail(graph, occupied_local_branches, None, None);
    proof {
        assert(graph.local_branches.len() <= usize::MAX);
        assert(graph.remote_branches.len() <= usize::MAX);
        lemma_open_rows_fit(*graph, occupied_local_branches@);
    }
    let ghost shows = |row: RailRow| full_row(*graph, row);
    let mut rows: Vec<BranchRailRow> = Vec::new();
    let mut i: usize = 0;
    while i < layout.len()
        invariant
            i <= layout@.len(),
            shows == (|row: RailRow| full_row(*graph, row)),
            forall|k: int| 0 <= k < layout@.len() ==> row_fits(*graph, #[trigger] layout@[k]),
            branch_row_views(rows@) == layout@.take(i as int).map_values(shows),
        decreases layout@.len() - i,
    {
        let ghost before = branch_row_views(rows@);
        assert(row_fits(*graph, layout@[i as int]));
        let row = describe_row(graph, layout[i]);
        rows.push(row);
        assert(branch_row_views(rows@) =~= before.push(row@));
        assert(layout@.take(i + 1).map_values(shows) =~= layout@.take(i as int).map_values(
            shows,
        ).push(shows(layout@[i as int])));
        i = i + 1;
    }
    assert(layout@.take(i as int) =~= layout@);
    rows
}

/// The local branches that rows list, in the order of the rows.
pub open spec fn listed_locals(rows: Seq<RailRow>) -> Seq<usize>
    decreases rows.len(),
{
    if rows.len() == 0 {
        Seq::empty()
    } else {
        let rest = listed_locals(rows.drop_last());
        match rows.last() {
            RailRow::Local { index, .. } => rest.push(index),
            _ => rest,
        }
    }
}

proof fn lemma_listed_locals_joined(a: Seq<RailRow>, b: Seq<RailRow>)
    ensures
        listed_locals(a + b) == listed_locals(a) + listed_locals(b),
    decreases b.len(),
{
    if b.len() == 0 {
        assert(a + b =~= a);
    } else {
        lemma_listed_locals_joined(a, b.drop_last());
        assert((a + b).drop_last() =~= a + b.drop_last());
        assert((a + b).last() == b.last());
        assert(listed_locals(a + b) =~= listed_locals(a) + listed_locals(b));
    }
}

proof fn lemma_local_rows_list_branches(
    branches: Seq<LocalBranchEntry>,
    occupied: Seq<String>,
    fits: Option<Seq<bool>>,
    count: int,
)
    requires
        0 <= count <= branches.len() <= usize::MAX,
    ensures
        listed_locals(local_rows(branches, occupied, fits, count)) == Seq::new(
            count as nat,
            |i: int| i as usize,
        ),
    decreases count,
{
    if count > 0 {
        lemma_local_rows_list_branches(branches, occupied, fits, count - 1);
        let rest = local_rows(branches, occupied, fits, count - 1);
        let rows = local_rows(branches, occupied, fits, count);
        let added = rows.skip(rest.len() as int);
        assert(rows =~= rest + added);
        lemma_listed_locals_joined(rest, added);
        assert(added.len() == 1 || added.len() == 2);
        if added.len() == 2 {
            assert(added.drop_last().drop_last() =~= Seq::empty());
            reveal_with_fuel(listed_locals, 3);
        } else {
            assert(added.drop_last() =~= Seq::empty());
            reveal_with_fuel(listed_locals, 2);
        }
        assert(listed_locals(added) =~= seq![(count - 1) as usize]);
    }
    assert(listed_locals(local_rows(branches, occupied, fits, count)) =~= Seq::new(
        count as nat,
        |i: int| i as usize,
    ));
}

proof fn lemma_remote_rows_list(
    branches: Seq<RemoteBranchEntry>,
    expanded: Option<Seq<String>>,
    count: int,
    index: usize,
)
    requires
        0 <= count <= branches.len() <= usize::MAX,
    ensures
        listed_locals(remote_rows(branches, expanded, count)) == Seq::<usize>::empty(),
        remote_rows(branches, expanded, count).contains(RailRow::Remote { index }) == (index < count
            && is_expanded(expanded, branches[index as int].remote_name@)),
    decreases count,
{
    let row = RailRow::Remote { index };
    if count > 0 {
        lemma_remote_rows_list(branches, expanded, count - 1, index);
        let rest = remote_rows(branches, expanded, count - 1);
        let rows = remote_rows(branches, expanded, count);
        let added = rows.skip(rest.len() as int);
        assert(rows =~= rest + added);
        lemma_listed_locals_joined(rest, added);
        assert(added.len() <= 2);
        reveal_with_fuel(listed_locals, 3);
        assert(listed_locals(added) =~= Seq::empty());
        if rest.contains(row) {
            let k = choose|k: int| 0 <= k < rest.len() && rest[k] == row;
            assert(rows[k] == row);
        }
        if index == count - 1 && is_expanded(expanded, branches[index as int].remote_name@) {
            assert(rows[rows.len() - 1] == row);
        }
        if rows.contains(row) {
            let k = choose|k: int| 0 <= k < rows.len() && rows[k] == row;
            if k < rest.len() {
                assert(rest[k] == row);
            } else {
                assert(added[k - rest.len()] == row);
            }
        }
    }
}

/// The rows list every local branch once, in the order of the repository, and a remote branch where
/// its remote is open.
pub proof fn rail_lists_every_branch(
    graph: RepositoryGraphDocument,
    occupied: Seq<String>,
    expanded: Option<Seq<String>>,
    fits: Option<Seq<bool>>,
    remote_index: usize,
)
    requires
        graph.local_branches@.len() <= usize::MAX,
        remote_index < graph.remote_branches@.len() <= usize::MAX,
    ensures
        listed_locals(rail_rows(graph, occupied, expanded, fits)) == Seq::new(
            graph.local_branches@.len(),
            |i: int| i as usize,
        ),
        rail_rows(graph, occupied, expanded, fits).contains(
            RailRow::Remote { index: remote_index },
        ) == is_expanded(expanded, graph.remote_branches@[remote_index as int].remote_name@),
{
    let row = RailRow::Remote { index: remote_index };
    let count = graph.local_branches@.len() as int;
    let locals = local_rows(graph.local_branches@, occupied, fits, count);
    let remotes = remote_rows(
        graph.remote_branches@,
        expanded,
        graph.remote_branches@.len() as int,
    );
    let head = seq![RailRow::LocalHeading];
    let middle = seq![RailRow::RemoteHeading];
    let rows = rail_rows(graph, occupied, expanded, fits);
    lemma_local_rows_list_branches(graph.local_branches@, occupied, fits, count);
    lemma_remote_rows_list(
        graph.remote_branches@,
        expanded,
        graph.remote_branches@.len() as int,
        remote_index,
    );
    lemma_listed_locals_joined(head, locals);
    lemma_listed_locals_joined(head + locals, middle);
    lemma_listed_locals_joined(head + locals + middle, remotes);
    reveal_with_fuel(listed_locals, 2);
    assert(head.drop_last() =~= Seq::empty());
    assert(middle.drop_last() =~= Seq::empty());
    assert(listed_locals(rows) =~= Seq::new(
        graph.local_branches@.len(),
        |i: int| i as usize,
    ));
    let before = (head + locals + middle).len() as int;
    if remotes.contains(row) {
        let k = choose|k: int| 0 <= k < remotes.len() && remotes[k] == row;
        assert(rows[before + k] == row);
    }
    if rows.contains(row) {
        let k = choose|k: int| 0 <= k < rows.len() && rows[k] == row;
        lemma_local_rows_are_local(graph.local_branches@, occupied, fits, count, k - 1);
        if k >= before {
            assert(remotes[k - before] == row);
        }
    }
}

proof fn lemma_local_rows_are_local(
    branches: Seq<LocalBranchEntry>,
    occupied: Seq<String>,
    fits: Option<Seq<bool>>,
    count: int,
    k: int,
)
    ensures
        0 <= k < local_rows(branches, occupied, fits, count).len() ==> !(local_rows(
            branches,
            occupied,
            fits,
            count,
        )[k] is Remote),
    decreases count,
{
    if count > 0 {
        lemma_local_rows_are_local(branches, occupied, fits, count - 1, k);
    }
}

/// The branch that a row of a remote names.
spec fn remote_index(row: RailRow) -> int {
    match row {
        RailRow::RemoteGroup { index, .. } => index as int,
        RailRow::Remote { index } => index as int,
        _ => -1,
    }
}

/// The rows of remotes name the branches in order, the heading of a remote right before its first
/// branch.
proof fn lemma_remote_order(
    branches: Seq<RemoteBranchEntry>,
    expanded: Option<Seq<String>>,
    count: int,
    p: int,
    q: int,
)
    requires
        0 <= count <= branches.len() <= usize::MAX,
        0 <= p <= q < remote_rows(branches, expanded, count).len(),
    ensures
        ({
            let rows = remote_rows(branches, expanded, count);
            &&& rows[q] is RemoteGroup || rows[q] is Remote
            &&& 0 <= remote_index(rows[q]) < count
            &&& rows[q] is Remote ==> is_expanded(
                expanded,
                branches[remote_index(rows[q])].remote_name@,
            )
            &&& rows[q] matches RailRow::RemoteGroup { index, expanded: open } ==> open
                == is_expanded(expanded, branches[index as int].remote_name@) && (index > 0
                ==> branches[index - 1].remote_name@ != branches[index as int].remote_name@)
            &&& p < q ==> remote_index(rows[p]) < remote_index(rows[q]) || (remote_index(rows[p])
                == remote_index(rows[q]) && rows[p] is RemoteGroup && rows[q] is Remote)
        }),
    decreases count,
{
    if count > 0 {
        let rest = remote_rows(branches, expanded, count - 1);
        let rows = remote_rows(branches, expanded, count);
        if q < rest.len() {
            lemma_remote_order(branches, expanded, count - 1, p, q);
            assert(rows[q] == rest[q]);
            assert(rows[p] == rest[p]);
        } else if p < rest.len() {
            lemma_remote_order(branches, expanded, count - 1, p, p);
            assert(rows[p] == rest[p]);
        }
    }
}

/// Behind the rows of the first branches, the last heading names the remote of the last branch.
proof fn lemma_last_group(
    branches: Seq<RemoteBranchEntry>,
    expanded: Option<Seq<String>>,
    count: int,
) -> (q: int)
    requires
        0 < count <= branches.len() <= usize::MAX,
    ensures
        ({
            let rows = remote_rows(branches, expanded, count);
            &&& 0 <= q < rows.len()
            &&& rows[q] matches RailRow::RemoteGroup { index, .. } && index < count
                && branches[index as int].remote_name@ == branches[count - 1].remote_name@
            &&& forall|r: int| q < r < rows.len() ==> (#[trigger] rows[r]) is Remote
        }),
    decreases count,
{
    let rest = remote_rows(branches, expanded, count - 1);
    let rows = remote_rows(branches, expanded, count);
    if opens_group(branches, count - 1) {
        rest.len() as int
    } else {
        let q = lemma_last_group(branches, expanded, count - 1);
        assert(rows[q] == rest[q]);
        assert forall|r: int| q < r < rows.len() implies (#[trigger] rows[r]) is Remote by {
            if r < rest.len() {
                assert(rows[r] == rest[r]);
            }
        }
        q
    }
}

proof fn lemma_group_above(
    branches: Seq<RemoteBranchEntry>,
    expanded: Option<Seq<String>>,
    count: int,
    p: int,
) -> (q: int)
    requires
        0 <= count <= branches.len() <= usize::MAX,
        0 <= p < remote_rows(branches, expanded, count).len(),
        remote_rows(branches, expanded, count)[p] is Remote,
    ensures
        ({
            let rows = remote_rows(branches, expanded, count);
            &&& 0 <= q < p
            &&& rows[q] matches RailRow::RemoteGroup { index, .. } && index < count
                && branches[index as int].remote_name@ == branches[remote_index(
                rows[p],
            )].remote_name@
            &&& forall|r: int| q < r < p ==> (#[trigger] rows[r]) is Remote
        }),
    decreases count,
{
    let rows = remote_rows(branches, expanded, count);
    let rest = remote_rows(branches, expanded, count - 1);
    if p < rest.len() {
        let q = lemma_group_above(branches, expanded, count - 1, p);
        assert(rows[p] == rest[p]);
        assert(rows[q] == rest[q]);
        assert forall|r: int| q < r < p implies (#[trigger] rows[r]) is Remote by {
            assert(rows[r] == rest[r]);
        }
        q
    } else {
        let q = lemma_last_group(branches, expanded, count);
        assert(p == rows.len() - 1);
        assert(remote_index(rows[p]) == count - 1);
        q
    }
}

proof fn lemma_group_of(
    branches: Seq<RemoteBranchEntry>,
    expanded: Option<Seq<String>>,
    count: int,
    index: int,
) -> (q: int)
    requires
        0 <= index < count <= branches.len() <= usize::MAX,
    ensures
        ({
            let rows = remote_rows(branches, expanded, count);
            &&& 0 <= q < rows.len()
            &&& rows[q] matches RailRow::RemoteGroup { index: first, .. } && first < count
                && branches[first as int].remote_name@ == branches[index].remote_name@
        }),
    decreases count,
{
    if index == count - 1 {
        lemma_last_group(branches, expanded, count)
    } else {
        let q = lemma_group_of(branches, expanded, count - 1, index);
        let rest = remote_rows(branches, expanded, count - 1);
        assert(remote_rows(branches, expanded, count)[q] == rest[q]);
        q
    }
}

/// How many rows stand before those of the remotes.
spec fn rows_before_remotes(
    graph: RepositoryGraphDocument,
    occupied: Seq<String>,
    fits: Option<Seq<bool>>,
) -> int {
    2 + local_rows(
        graph.local_branches@,
        occupied,
        fits,
        graph.local_branches@.len() as int,
    ).len() as int
}

/// The list of branches is the heading of the local branches, the rows of those, the heading of the
/// remotes and the rows of those.
pub proof fn rail_has_two_sections(
    graph: RepositoryGraphDocument,
    occupied: Seq<String>,
    expanded: Option<Seq<String>>,
    fits: Option<Seq<bool>>,
    p: int,
) -> (middle: int)
    requires
        graph.local_branches@.len() <= usize::MAX,
        graph.remote_branches@.len() <= usize::MAX,
        0 <= p < rail_rows(graph, occupied, expanded, fits).len(),
    ensures
        ({
            let rows = rail_rows(graph, occupied, expanded, fits);
            &&& 0 < middle < rows.len()
            &&& rows[0] is LocalHeading
            &&& rows[middle] is RemoteHeading
            &&& 0 < p < middle ==> rows[p] is Local || rows[p] is LocalMeta
            &&& middle < p ==> rows[p] is RemoteGroup || rows[p] is Remote
        }),
{
    let base = rows_before_remotes(graph, occupied, fits);
    let rows = rail_rows(graph, occupied, expanded, fits);
    let count = graph.remote_branches@.len() as int;
    if 0 < p < base - 1 {
        lemma_local_row(
            graph.local_branches@,
            occupied,
            fits,
            graph.local_branches@.len() as int,
            p - 1,
        );
    }
    if p >= base {
        lemma_remote_order(graph.remote_branches@, expanded, count, p - base, p - base);
        assert(rows[p] == remote_rows(graph.remote_branches@, expanded, count)[p - base]);
    }
    base - 1
}

/// Right above the listed branches of a remote stands the heading with the remote's name: between a
/// branch and the nearest heading above it are only branches, and that heading names its remote.
pub proof fn branch_stands_below_its_remote(
    graph: RepositoryGraphDocument,
    occupied: Seq<String>,
    expanded: Option<Seq<String>>,
    fits: Option<Seq<bool>>,
    p: int,
    branch: usize,
) -> (q: int)
    requires
        graph.local_branches@.len() <= usize::MAX,
        graph.remote_branches@.len() <= usize::MAX,
        0 <= p < rail_rows(graph, occupied, expanded, fits).len(),
        rail_rows(graph, occupied, expanded, fits)[p] == (RailRow::Remote { index: branch }),
    ensures
        ({
            let rows = rail_rows(graph, occupied, expanded, fits);
            &&& branch < graph.remote_branches@.len()
            &&& 0 <= q < p
            &&& rows[q] matches RailRow::RemoteGroup { index, expanded: open } && index
                < graph.remote_branches@.len() && graph.remote_branches@[index as int].remote_name@
                == graph.remote_branches@[branch as int].remote_name@ && open
            &&& forall|r: int| q < r < p ==> (#[trigger] rows[r]) is Remote
        }),
{
    let base = rows_before_remotes(graph, occupied, fits);
    let rows = rail_rows(graph, occupied, expanded, fits);
    let count = graph.remote_branches@.len() as int;
    let remotes = remote_rows(graph.remote_branches@, expanded, count);
    rail_has_two_sections(graph, occupied, expanded, fits, p);
    if 0 < p < base - 1 {
        lemma_local_row(
            graph.local_branches@,
            occupied,
            fits,
            graph.local_branches@.len() as int,
            p - 1,
        );
    }
    assert(rows[p] == remotes[p - base]);
    lemma_remote_order(graph.remote_branches@, expanded, count, p - base, p - base);
    let q = lemma_group_above(graph.remote_branches@, expanded, count, p - base);
    lemma_remote_order(graph.remote_branches@, expanded, count, q, q);
    assert(rows[base + q] == remotes[q]);
    assert forall|r: int| base + q < r < p implies (#[trigger] rows[r]) is Remote by {
        assert(rows[r] == remotes[r - base]);
    }
    base + q
}

/// Every remote that has a branch has a heading, and the heading says that the remote is open
/// exactly where it is one of the open ones, or where all are.
pub proof fn every_remote_has_a_heading(
    graph: RepositoryGraphDocument,
    occupied: Seq<String>,
    expanded: Option<Seq<String>>,
    fits: Option<Seq<bool>>,
    branch: int,
) -> (q: int)
    requires
        graph.local_branches@.len() <= usize::MAX,
        0 <= branch < graph.remote_branches@.len() <= usize::MAX,
    ensures
        ({
            let rows = rail_rows(graph, occupied, expanded, fits);
            let name = graph.remote_branches@[branch].remote_name@;
            &&& 0 <= q < rows.len()
            &&& rows[q] matches RailRow::RemoteGroup { index, expanded: open } && index
                < graph.remote_branches@.len() && graph.remote_branches@[index as int].remote_name@
                == name && open == (expanded is None || exists|k: int|
                0 <= k < expanded->0.len() && (#[trigger] expanded->0[k])@ == name)
        }),
{
    let base = rows_before_remotes(graph, occupied, fits);
    let rows = rail_rows(graph, occupied, expanded, fits);
    let count = graph.remote_branches@.len() as int;
    let remotes = remote_rows(graph.remote_branches@, expanded, count);
    let name = graph.remote_branches@[branch].remote_name@;
    let q = lemma_group_of(graph.remote_branches@, expanded, count, branch);
    lemma_remote_order(graph.remote_branches@, expanded, count, q, q);
    assert(rows[base + q] == remotes[q]);
    if expanded is Some {
        let names = expanded->0;
        if strings::views(names).contains(name) {
            let k = choose|k: int| 0 <= k < strings::views(names).len() && strings::views(names)[k]
                == name;
            assert(names[k]@ == name);
        }
        if exists|k: int| 0 <= k < names.len() && (#[trigger] names[k])@ == name {
            let k = choose|k: int| 0 <= k < names.len() && (#[trigger] names[k])@ == name;
            assert(strings::views(names)[k] == name);
        }
    }
    base + q
}

/// Where the branches of each remote are listed together, a remote has one heading.
pub proof fn remotes_have_one_heading_each(
    graph: RepositoryGraphDocument,
    occupied: Seq<String>,
    expanded: Option<Seq<String>>,
    fits: Option<Seq<bool>>,
    p: int,
    q: int,
    first: usize,
    second: usize,
    open_first: bool,
    open_second: bool,
)
    requires
        graph.local_branches@.len() <= usize::MAX,
        graph.remote_branches@.len() <= usize::MAX,
        forall|i: int, j: int, k: int|
            #![trigger graph.remote_branches@[i], graph.remote_branches@[j], graph.remote_branches@[k]]
            0 <= i <= j <= k < graph.remote_branches@.len()
                && graph.remote_branches@[i].remote_name@ == graph.remote_branches@[k].remote_name@
                ==> graph.remote_branches@[j].remote_name@
                == graph.remote_branches@[i].remote_name@,
        0 <= p < q < rail_rows(graph, occupied, expanded, fits).len(),
        rail_rows(graph, occupied, expanded, fits)[p] == (RailRow::RemoteGroup {
            index: first,
            expanded: open_first,
        }),
        rail_rows(graph, occupied, expanded, fits)[q] == (RailRow::RemoteGroup {
            index: second,
            expanded: open_second,
        }),
    ensures
        first < second < graph.remote_branches@.len(),
        graph.remote_branches@[first as int].remote_name@
            != graph.remote_branches@[second as int].remote_name@,
{
    let base = rows_before_remotes(graph, occupied, fits);
    let rows = rail_rows(graph, occupied, expanded, fits);
    let branches = graph.remote_branches@;
    let count = branches.len() as int;
    let remotes = remote_rows(branches, expanded, count);
    if 0 < p < base - 1 {
        lemma_local_row(
            graph.local_branches@,
            occupied,
            fits,
            graph.local_branches@.len() as int,
            p - 1,
        );
    }
    assert(rows[p] == remotes[p - base]);
    assert(rows[q] == remotes[q - base]);
    lemma_remote_order(branches, expanded, count, p - base, q - base);
    lemma_remote_order(branches, expanded, count, p - base, p - base);
    let i = first as int;
    let j = second - 1;
    let k = second as int;
    assert(branches[i].remote_name@ == branches[k].remote_name@ ==> branches[j].remote_name@
        == branches[i].remote_name@);
}

/// The branches of remotes are listed in the order of the repository, none twice.
pub proof fn remote_branches_are_listed_in_order(
    graph: RepositoryGraphDocument,
    occupied: Seq<String>,
    expanded: Option<Seq<String>>,
    fits: Option<Seq<bool>>,
    p: int,
    q: int,
    first: usize,
    second: usize,
)
    requires
        graph.local_branches@.len() <= usize::MAX,
        graph.remote_branches@.len() <= usize::MAX,
        0 <= p < q < rail_rows(graph, occupied, expanded, fits).len(),
        rail_rows(graph, occupied, expanded, fits)[p] == (RailRow::Remote { index: first }),
        rail_rows(graph, occupied, expanded, fits)[q] == (RailRow::Remote { index: second }),
    ensures
        first < second < graph.remote_branches@.len(),
{
    let base = rows_before_remotes(graph, occupied, fits);
    let rows = rail_rows(graph, occupied, expanded, fits);
    let count = graph.remote_branches@.len() as int;
    let remotes = remote_rows(graph.remote_branches@, expanded, count);
    if 0 < p < base - 1 {
        lemma_local_row(
            graph.local_branches@,
            occupied,
            fits,
            graph.local_branches@.len() as int,
            p - 1,
        );
    }
    assert(rows[p] == remotes[p - base]);
    assert(rows[q] == remotes[q - base]);
    lemma_remote_order(graph.remote_branches@, expanded, count, p - base, q - base);
}

/// What a row of the local branches says.
proof fn lemma_local_row(
    branches: Seq<LocalBranchEntry>,
    occupied: Seq<String>,
    fits: Option<Seq<bool>>,
    count: int,
    p: int,
)
    requires
        0 <= count <= branches.len() <= usize::MAX,
        0 <= p < local_rows(branches, occupied, fits, count).len(),
    ensures
        ({
            let rows = local_rows(branches, occupied, fits, count);
            match rows[p] {
                RailRow::Local { index, is_worktree_occupied, inline_upstream } => {
                    let tracks = branches[index as int].upstream is Some;
                    &&& index < count
                    &&& is_worktree_occupied == repository_state::lists_name(
                        occupied,
                        branches[index as int].name@,
                    )
                    &&& inline_upstream == (tracks && fits_inline(fits, index as int))
                    &&& (p + 1 < rows.len() && rows[p + 1] == (RailRow::LocalMeta { index })) == (
                    tracks && !inline_upstream)
                },
                RailRow::LocalMeta { index } => p > 0 && (rows[p - 1] matches RailRow::Local {
                    index: above,
                    ..
                } && above == index),
                _ => false,
            }
        }),
    decreases count,
{
    if count > 0 {
        let rest = local_rows(branches, occupied, fits, count - 1);
        let rows = local_rows(branches, occupied, fits, count);
        assert(rows[rest.len() as int] is Local);
        if p < rest.len() {
            lemma_local_row(branches, occupied, fits, count - 1, p);
            assert(rows[p] == rest[p]);
            if p > 0 {
                assert(rows[p - 1] == rest[p - 1]);
            }
            if p + 1 < rest.len() {
                assert(rows[p + 1] == rest[p + 1]);
            }
        }
    }
}

/// The row of a local branch says whether a worktree occupies it, and what the branch tracks stands
/// in that row or in one of its own right below, but never in both and in neither only where it
/// tracks nothing. It stands in the row where that fits.
pub proof fn local_row_tells_occupation_and_upstream(
    graph: RepositoryGraphDocument,
    occupied: Seq<String>,
    expanded: Option<Seq<String>>,
    fits: Option<Seq<bool>>,
    p: int,
    branch: usize,
    is_worktree_occupied: bool,
    inline_upstream: bool,
)
    requires
        graph.local_branches@.len() <= usize::MAX,
        graph.remote_branches@.len() <= usize::MAX,
        0 <= p < rail_rows(graph, occupied, expanded, fits).len(),
        rail_rows(graph, occupied, expanded, fits)[p] == (RailRow::Local {
            index: branch,
            is_worktree_occupied,
            inline_upstream,
        }),
    ensures
        ({
            let rows = rail_rows(graph, occupied, expanded, fits);
            let entry = graph.local_branches@[branch as int];
            let below = p + 1 < rows.len() && rows[p + 1] == (RailRow::LocalMeta { index: branch });
            &&& branch < graph.local_branches@.len()
            &&& is_worktree_occupied == exists|k: int|
                0 <= k < occupied.len() && (#[trigger] occupied[k])@ == entry.name@
            &&& entry.upstream is None ==> !inline_upstream && !below
            &&& entry.upstream is Some ==> inline_upstream != below
            &&& entry.upstream is Some && fits is None ==> inline_upstream
            &&& entry.upstream is Some && fits is Some && branch < fits->0.len() ==> inline_upstream
                == fits->0[branch as int]
        }),
{
    let base = rows_before_remotes(graph, occupied, fits);
    let rows = rail_rows(graph, occupied, expanded, fits);
    let count = graph.local_branches@.len() as int;
    let locals = local_rows(graph.local_branches@, occupied, fits, count);
    if p >= base {
        let remotes = graph.remote_branches@.len() as int;
        lemma_remote_order(graph.remote_branches@, expanded, remotes, p - base, p - base);
        assert(rows[p] == remote_rows(graph.remote_branches@, expanded, remotes)[p - base]);
    }
    assert(rows[p] == locals[p - 1]);
    lemma_local_row(graph.local_branches@, occupied, fits, count, p - 1);
    if p < locals.len() {
        assert(rows[p + 1] == locals[p]);
    } else {
        assert(rows[p + 1] is RemoteHeading);
    }
    let name = graph.local_branches@[branch as int].name@;
    if strings::views(occupied).contains(name) {
        let k = choose|k: int|
            0 <= k < strings::views(occupied).len() && strings::views(occupied)[k] == name;
        assert(occupied[k]@ == name);
    }
    if exists|k: int| 0 <= k < occupied.len() && (#[trigger] occupied[k])@ == name {
        let k = choose|k: int| 0 <= k < occupied.len() && (#[trigger] occupied[k])@ == name;
        assert(strings::views(occupied)[k] == name);
    }
}

/// A row of the list of all branches selects the branch that it names, and is marked as the
/// checked-out one where that branch is. A local branch tells what it tracks, and a branch of a
/// remote which local branch tracks it, where one does.
pub proof fn listed_row_selects_the_branch_it_names(
    graph: RepositoryGraphDocument,
    row: RailRow,
)
    requires
        row_fits(graph, row),
    ensures
        row matches RailRow::Local { index, is_worktree_occupied: busy, .. } ==> (full_row(
            graph,
            row,
        ) matches BranchRailRowView::Branch {
            selection,
            name,
            kind,
            metadata,
            is_head,
            is_worktree_occupied,
        } && {
            let branch = graph.local_branches@[index as int];
            &&& selection == (BranchSelectionView::Local { name: branch.name@ })
            &&& name == branch.name@
            &&& kind is Local
            &&& metadata is Some == branch.upstream is Some
            &&& is_head == branch.is_head
            &&& is_worktree_occupied == busy
        }),
        row matches RailRow::Remote { index } ==> (full_row(graph, row)
            matches BranchRailRowView::Branch {
            selection,
            name,
            kind,
            metadata,
            is_head,
            is_worktree_occupied,
        } && {
            let branch = graph.remote_branches@[index as int];
            &&& selection == (BranchSelectionView::Remote { full_ref: branch.full_ref@ })
            &&& name == branch.short_name@
            &&& kind is Remote
            &&& metadata is Some == branch.tracked_by_local is Some
            &&& branch.tracked_by_local matches Some(local) ==> metadata->0.len() == 7
                + local@.len() && metadata->0.skip(7) == local@
            &&& !is_head
            &&& !is_worktree_occupied
        }),
        row matches RailRow::RemoteGroup { index, .. } ==> full_row(graph, row) == (
        BranchRailRowView::RemoteGroup {
            remote_name: graph.remote_branches@[index as int].remote_name@,
        }),
        row is LocalHeading ==> full_row(graph, row) == (BranchRailRowView::SectionHeader {
            label: "LOCAL"@,
        }),
        row is RemoteHeading ==> full_row(graph, row) == (BranchRailRowView::SectionHeader {
            label: "REMOTE"@,
        }),
{
    reveal_strlit("tracks ");
    if let RailRow::Remote { index } = row {
        if let Some(local) = graph.remote_branches@[index as int].tracked_by_local {
            assert(("tracks "@ + local@).skip(7) =~= local@);
        }
    }
}

/// What a branch tracks is told by the remote and the branch there, with how far it is ahead before
/// how far it is behind.
pub proof fn upstream_text_tells_ahead_before_behind(upstream: BranchTrackingInfo)
    ensures
        ({
            let text = upstream_text(upstream);
            let first = upstream.remote_name@.len() + 1 + upstream.remote_ref@.len() + 4;
            let ahead = strings::decimal(upstream.ahead as nat);
            let behind = strings::decimal(upstream.behind as nat);
            &&& text.len() == first + ahead.len() + 4 + behind.len()
            &&& text.take(upstream.remote_name@.len() as int) == upstream.remote_name@
            &&& text[upstream.remote_name@.len() as int] == '/'
            &&& text.subrange(
                upstream.remote_name@.len() as int + 1,
                upstream.remote_name@.len() as int + 1 + upstream.remote_ref@.len(),
            ) == upstream.remote_ref@
            &&& text[first - 1] == '+'
            &&& text.subrange(first as int, (first + ahead.len()) as int) == ahead
            &&& text[(first + ahead.len() + 3) as int] == '-'
            &&& text.skip((first + ahead.len() + 4) as int) == behind
        }),
{
    reveal_strlit("/");
    reveal_strlit(" \u{b7} +");
    reveal_strlit(" / -");
    let text = upstream_text(upstream);
    let first = upstream.remote_name@.len() + 1 + upstream.remote_ref@.len() + 4;
    let ahead = strings::decimal(upstream.ahead as nat);
    let behind = strings::decimal(upstream.behind as nat);
    assert(text.take(upstream.remote_name@.len() as int) =~= upstream.remote_name@);
    assert(text.subrange(
        upstream.remote_name@.len() as int + 1,
        upstream.remote_name@.len() as int + 1 + upstream.remote_ref@.len(),
    ) =~= upstream.remote_ref@);
    assert(text.subrange(first as int, (first + ahead.len()) as int) =~= ahead);
    assert(text.skip((first + ahead.len() + 4) as int) =~= behind);
}

/// In the rail a remote branch stands below the heading of its own remote, with only branches in
/// between.
pub proof fn laid_out_branch_stands_below_its_remote(
    graph: &RepositoryGraphDocument,
    occupied: &Vec<String>,
    expanded: Option<&Vec<String>>,
    fits: Option<&Vec<bool>>,
    rows: Vec<RailRow>,
    p: int,
    branch: usize,
) -> (q: int)
    requires
        graph.local_branches@.len() <= usize::MAX,
        graph.remote_branches@.len() <= usize::MAX,
        call_ensures(layout_branch_rail, (graph, occupied, expanded, fits), rows),
        0 <= p < rows@.len(),
        rows@[p] == (RailRow::Remote { index: branch }),
    ensures
        branch < graph.remote_branches@.len(),
        0 <= q < p,
        rows@[q] matches RailRow::RemoteGroup { index, expanded: open } && index
            < graph.remote_branches@.len() && graph.remote_branches@[index as int].remote_name@
            == graph.remote_branches@[branch as int].remote_name@ && open,
        forall|r: int| q < r < p ==> (#[trigger] rows@[r]) is Remote,
{
    branch_stands_below_its_remote(
        *graph,
        occupied@,
        optional_list(expanded),
        optional_list(fits),
        p,
        branch,
    )
}

} // verus!
