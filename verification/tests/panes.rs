use orcashell_ui::branch_rail::{layout_branch_rail, RailRow};
use orcashell_ui::diff_cache::{hunk_at_line, update_line_cache, update_stash_line_cache};
use orcashell_ui::conflict_document::{ConflictAcceptChoice, ConflictEditorDocument};
use orcashell_ui::diff_elements::{
    render_conflict_line_element, render_conflict_lines, render_diff_line_element,
    render_diff_lines, render_stash_diff_lines, LineGutter,
};
use orcashell_ui::conflict_highlight::LineHighlighter;
use orcashell_ui::diff_explorer::{
    DiffExplorerView, ExplorerContent, ExplorerKey, LeftPane, RightPane,
};
use orcashell_ui::diff_header::{
    action_button, action_label, action_tooltip, click_action, header_buttons, render_action_bar,
    render_header, render_stash_action_bar, ActionEffect, DiffAction,
};
use orcashell_ui::diff_panes::{
    commit_input_cleared, commit_input_takes_key, conflict_action_label,
    render_conflict_helper_strip, render_conflict_status_row, render_diff_pane, render_mode_banner,
    render_tree_pane, tree_section_heading, ConflictAction, DiffPane, TreePane,
};
use orcashell_ui::diff_rows::{
    diff_file_header, directory_row_text, file_row_counts, file_tree_row, menu_replaces_selection, render_tree_rows,
    row_click, row_menu_items, section_row_id, section_row_marks, stash_row_marks, RowClick,
    RowMenuAction,
};
use orcashell_ui::diff_stash::{
    render_stash_diff_pane, render_stash_row, render_stash_tree_pane, StashDiffPane, StashTreePane,
};
use orcashell_ui::diff_state::{
    ConflictDocumentEntry, ConflictDocumentState, DiffDocument, DiffFileState, DiffIndexState, DiffRenderSnapshot, DiffTabStashState,
    DiffTabState, DiffTabViewMode, FileDiffDocument, FileDiffHunk, GitSnapshotSummary,
    GitTrackingStatus, ManagedWorktreeSummary, MergeState, RemoveWorktreeConfirm,
    StashDetailDocument, StashDetailState, StashEntrySummary, StashFileDiffDocument,
    StashFileSelection, StashFileState, StashListState,
};
use orcashell_ui::diff_text::{selection_range_for_line, DiffPosition, DiffSelection};
use orcashell_ui::feed::{
    detail_key_copies, feed_section_heading, render_feed_diff_pane, render_feed_tree_pane,
    CapturedDiff,
    render_feed_note, CapturedDiffFailure, CapturedDiffFile, ChangeFeedEntry, FeedCaptureState,
    FeedDetailView, FeedDiffPane, FeedEntryOrigin, FeedScopeKind, FeedTreeEntry, FeedTreePane,
};
use orcashell_ui::keys::Modifiers;
use orcashell_ui::live_diff_stream::{
    click_row_action, feed_age_label, hidden_files_note, preferred_open_diff_selection,
    render_feed_body, render_feed_header, render_feed_item, render_feed_row, render_preview_line, render_row_actions, row_action_label, summarize_paths,
    DetailStep, FeedBody, FeedListUpdate, FeedPreviewFile, FeedPreviewLayout, FeedRowAction,
    FeedRowBody, FeedRowEffect, LiveDiffFeedState, LiveDiffStreamView,
};
use orcashell_ui::model::{
    ChangedFile, DiffLineKind, DiffLineView, DiffSectionKind, DiffSelectionKey, GitFileStatus,
    HighlightedSpan, RelativePath,
};
use orcashell_ui::conflict_lines::{classify_conflict_render_lines, ConflictHighlightMode};
use orcashell_ui::repository_actions;
use orcashell_ui::repository_actions::{
    repository_branch_context_menu_items, repository_graph_meta_lines, repository_pull_action_state,
    selected_local_branch_name, RepositoryAction, RepositoryEffect,
};
use orcashell_ui::repository_browser::{BrowserContent, RepositoryBrowserView};
use orcashell_ui::repository_graph::{
    graph_has_lane_overflow, render_graph_lanes, select_visible_graph_lanes, style_commit_rows,
    BranchTrackingInfo, CommitGraphNode, CommitRefKind, CommitRefLabel, GraphLaneAccent, GraphLaneKind,
    GraphLaneSegment, HeadState, LocalBranchEntry, Oid, RemoteBranchEntry,
    RepositoryGraphDocument,
};
use orcashell_ui::repository_keys::{branch_rail_cache_key, hash_names};
use orcashell_ui::repository_panes::{
    click_branch_row, commit_file_header, graph_lane_accent_color, render_branch_pane, render_commit_changed_file_row,
    render_commit_detail, render_commit_pane, render_commit_row, render_detail_pane, BranchClick,
    BranchElement, CommitPane, DetailPane,
};
use orcashell_ui::repository_state::{
    tab_state, CommitChangedFile, CommitDetailDocument, CommitFileDiffDocument,
    CommitFileSelection, CommitFileStatus, RepositoryBranchAction, RepositoryBranchSelection,
};
use orcashell_ui::theme::{OrcaTheme, ThemeId, Tint};
use orcashell_ui::tree::{build_diff_tree, collect_file_keys};
use orcashell_ui::widgets::{
    diff_banner_look, inline_destructive_button, inline_hunk_discard_button, radio_option,
    status_pill, ActionBanner, ActionBannerKind,
};

const TOO_LARGE: &str = "Too large";

fn palette() -> OrcaTheme {
    OrcaTheme {
        ABYSS: 0x01,
        DEEP: 0x02,
        CURRENT: 0x03,
        SURFACE: 0x04,
        SLATE: 0x05,
        FOG: 0x06,
        BONE: 0x07,
        PATCH: 0x08,
        ORCA_BLUE: 0x09,
        STATUS_GREEN: 0x0A,
        STATUS_AMBER: 0x0B,
        STATUS_CORAL: 0x0C,
        SEAFOAM: 0x0D,
        BORDER_DEFAULT: 0x0E,
        BORDER_EMPHASIS: 0x0F,
    }
}

fn file(path: &str) -> ChangedFile {
    ChangedFile {
        relative_path: RelativePath::parse(path),
        status: GitFileStatus::Modified,
        is_binary: false,
        insertions: 3,
        deletions: 1,
    }
}

fn key(section: DiffSectionKind, path: &str) -> DiffSelectionKey {
    DiffSelectionKey {
        section,
        relative_path: RelativePath::parse(path),
    }
}

fn line(text: &str, kind: DiffLineKind) -> DiffLineView {
    DiffLineView {
        kind,
        old_lineno: Some(3),
        new_lineno: None,
        text: text.to_string(),
        highlights: None,
        inline_changes: None,
    }
}

fn oid(value: u64) -> Oid {
    Oid { high: 0, low: value as u128 }
}

fn plain() -> Modifiers {
    Modifiers {
        control: false,
        alt: false,
        shift: false,
        platform: false,
        function: false,
    }
}

fn summary() -> GitSnapshotSummary {
    GitSnapshotSummary {
        repo_root: "/repo".to_string(),
        scope_root: "/repo".to_string(),
        generation: 7,
        content_fingerprint: 7,
        branch_name: "main".to_string(),
        remotes: Vec::new(),
        is_worktree: false,
        worktree_name: None,
        changed_files: 2,
        insertions: 1,
        deletions: 0,
    }
}

fn tab() -> DiffTabState {
    DiffTabState {
        scope_root: "/repo".to_string(),
        view_mode: DiffTabViewMode::WorkingTree,
        index: DiffIndexState {
            document: Some(DiffDocument {
                snapshot: summary(),
                tracking: GitTrackingStatus {
                    upstream_ref: None,
                    ahead: 0,
                    behind: 0,
                },
                merge_state: None,
                repo_state_warning: None,
                conflicted_files: Vec::new(),
                staged_files: vec![file("a.rs")],
                unstaged_files: vec![file("b.rs"), file("src/c.rs")],
            }),
            error: None,
            loading: false,
            requested_generation: None,
        },
        selected_file: None,
        file: DiffFileState {
            document: None,
            error: None,
            loading: false,
        },
        stash: DiffTabStashState {
            list: StashListState {
                document: None,
                error: None,
                loading: false,
            },
            detail: StashDetailState {
                document: None,
                error: None,
                loading: false,
            },
            file_diff: StashFileState {
                document: None,
                error: None,
                loading: false,
            },
            selected_stash: None,
            expanded_stash: None,
            selected_file: None,
        },
        conflict_documents: Vec::new(),
        multi_select: Vec::new(),
        commit_message: String::new(),
        local_action_in_flight: false,
        remote_op_in_flight: false,
        last_action_banner: None,
        remove_worktree_confirm: None,
        managed_worktree: None,
    }
}

#[test]
fn trees_list_every_file_once_in_order() {
    let files = vec![file("z.rs"), file("b/x.rs"), file("a.rs"), file("b/a/y.rs")];
    let tree = build_diff_tree(&files);
    let rows = render_tree_rows(&tree, 0);
    let shown: Vec<(String, usize, bool)> = rows
        .iter()
        .map(|row| (row.name.clone(), row.depth, row.file.is_some()))
        .collect();
    assert_eq!(
        shown,
        vec![
            ("b".to_string(), 0, false),
            ("a".to_string(), 1, false),
            ("y.rs".to_string(), 2, true),
            ("x.rs".to_string(), 1, true),
            ("a.rs".to_string(), 0, true),
            ("z.rs".to_string(), 0, true),
        ]
    );
    let mut keys = Vec::new();
    collect_file_keys(&tree, DiffSectionKind::Staged, &mut keys);
    let listed: Vec<String> = keys.iter().map(|key| key.relative_path.display()).collect();
    let row_files: Vec<String> = rows
        .iter()
        .filter_map(|row| row.file.as_ref().map(|file| file.relative_path.display()))
        .collect();
    assert_eq!(listed, row_files);
    assert!(build_diff_tree(&Vec::new()).is_empty());
}

#[test]
fn rows_of_changed_files() {
    let mut binary = file("a.bin");
    binary.is_binary = true;
    let counts = file_row_counts(&binary);
    assert_eq!((counts.inserted.as_str(), counts.deleted.as_str()), ("+3", "-1"));
    assert!(counts.binary_note.is_some());
    let header = diff_file_header(&file("src/a.rs"), Some("stale"));
    assert_eq!(header.path, "src/a.rs");
    assert_eq!(header.error.as_deref(), Some("stale"));
    let id = section_row_id(DiffSectionKind::Unstaged, "", "");
    assert_eq!(
        id,
        "diff-Unstaged-14695981039346656037-14695981039346656037"
    );
    let mut keys = plain();
    assert_eq!(row_click(&keys), RowClick::Replace);
    keys.shift = true;
    assert_eq!(row_click(&keys), RowClick::Range);
    keys.platform = true;
    assert_eq!(row_click(&keys), RowClick::Toggle);
}

#[test]
fn the_menu_of_a_row_depends_on_its_section() {
    let mut tab = tab();
    let snap = DiffRenderSnapshot::from_tab(&tab, TOO_LARGE);
    let items = row_menu_items(&snap, DiffSectionKind::Staged, false);
    assert_eq!(items[0].label, "Unstage");
    assert!(items[0].enabled);
    let items = row_menu_items(&snap, DiffSectionKind::Conflicted, true);
    assert_eq!(items[0].action, RowMenuAction::MarkResolved);
    assert!(items[0].enabled);
    tab.remote_op_in_flight = true;
    let snap = DiffRenderSnapshot::from_tab(&tab, TOO_LARGE);
    assert!(!row_menu_items(&snap, DiffSectionKind::Unstaged, false)[0].enabled);
}

#[test]
fn an_empty_tab_says_why() {
    let mut tab = tab();
    let snap = DiffRenderSnapshot::from_tab(&tab, TOO_LARGE);
    assert!(matches!(render_tree_pane(&snap), TreePane::Entries(_)));
    assert!(tree_section_heading(&snap, DiffSectionKind::Unstaged).contains('2'));
    assert!(matches!(
        render_diff_pane(&snap, Some(7), false, false, TOO_LARGE),
        DiffPane::Message(_)
    ));
    tab.view_mode = DiffTabViewMode::Stashes;
    let snap = DiffRenderSnapshot::from_tab(&tab, TOO_LARGE);
    assert!(matches!(render_tree_pane(&snap), TreePane::Stashes));
    assert!(matches!(
        render_diff_pane(&snap, Some(7), false, false, TOO_LARGE),
        DiffPane::Stashes
    ));
    assert!(matches!(
        render_stash_tree_pane(&snap),
        StashTreePane::Message(_)
    ));
}

fn shown_file(tab: &mut DiffTabState, generation: u64) {
    let selection = key(DiffSectionKind::Unstaged, "b.rs");
    tab.selected_file = Some(selection.clone());
    tab.file.document = Some(FileDiffDocument {
        generation,
        selection,
        file: file("b.rs"),
        lines: vec![
            line("diff --git", DiffLineKind::FileHeader),
            line("@@ -1 +1 @@", DiffLineKind::HunkHeader),
            line("+x", DiffLineKind::Addition),
        ],
        hunks: vec![FileDiffHunk {
            hunk_index: 0,
            line_start: 1,
        }],
    });
}

#[test]
fn lines_are_kept_while_the_file_stays_the_same() {
    let mut tab = tab();
    shown_file(&mut tab, 7);
    let mut cache = None;
    {
        let snap = DiffRenderSnapshot::from_tab(&tab, TOO_LARGE);
        assert!(update_line_cache(&mut cache, &snap));
        assert!(!update_line_cache(&mut cache, &snap));
        assert_eq!(cache.as_ref().unwrap().lines.len(), 2);
    }
    shown_file(&mut tab, 8);
    let snap = DiffRenderSnapshot::from_tab(&tab, TOO_LARGE);
    assert!(update_line_cache(&mut cache, &snap));
    assert_eq!(cache.as_ref().unwrap().generation, 8);
}

#[test]
fn keys_of_a_diff_tab() {
    let mut tab = tab();
    let mut copy = plain();
    copy.control = true;
    {
        let snap = DiffRenderSnapshot::from_tab(&tab, TOO_LARGE);
        assert_eq!(
            DiffExplorerView::key_down(Some(&snap), "c", &copy, &None, false),
            ExplorerKey::Copy
        );
        assert_eq!(
            DiffExplorerView::key_down(None, "x", &plain(), &None, false),
            ExplorerKey::Ignore
        );
    }
    tab.selected_file = Some(key(DiffSectionKind::Conflicted, "b.rs"));
    let snap = DiffRenderSnapshot::from_tab(&tab, TOO_LARGE);
    assert!(matches!(
        DiffExplorerView::key_down(Some(&snap), "c", &copy, &None, false),
        ExplorerKey::Conflict(_)
    ));
}

#[test]
fn discarding_everything_asks_first() {
    let tab = tab();
    let snap = DiffRenderSnapshot::from_tab(&tab, TOO_LARGE);
    assert!(header_buttons(&snap, true)
        .iter()
        .any(|button| button.action == DiffAction::DiscardAll));
    assert!(matches!(
        click_action(&snap, None, DiffAction::DiscardAll, "/repo".to_string()),
        ActionEffect::Prompt(spec) if spec.title == "Discard All"
    ));
    assert!(matches!(
        click_action(&snap, None, DiffAction::Pull, "/repo".to_string()),
        ActionEffect::Perform(DiffAction::Pull)
    ));
    assert!(matches!(
        click_action(&snap, Some(&summary()), DiffAction::Publish, "/repo".to_string()),
        ActionEffect::Warn(_)
    ));
}

#[test]
fn drawn_lines_have_numbers_and_colours() {
    let palette = palette();
    let added = line("x", DiffLineKind::Addition);
    let drawn = render_diff_line_element(&palette, &added, 0, None, false);
    assert!(matches!(&drawn.gutter, LineGutter::Numbers { old, new } if old == "3" && new == ""));
    assert_eq!(
        drawn.colors.background,
        Some(Tint {
            color: palette.STATUS_GREEN,
            alpha: 0x1F
        })
    );
    let lines = classify_conflict_render_lines("ab\ncd\n");
    let element = render_conflict_line_element(&palette, &lines[1], None, 4, None);
    assert_eq!(element.number, "2");
    assert_eq!(element.cursor_column, Some(1));
    let other = render_conflict_line_element(&palette, &lines[0], None, 4, None);
    assert_eq!(other.cursor_column, None);
}

#[test]
fn small_buttons_and_radios() {
    let palette = palette();
    assert!(!inline_destructive_button(&palette, true).clickable);
    assert_eq!(
        inline_destructive_button(&palette, false).text,
        palette.STATUS_CORAL
    );
    assert_eq!(inline_hunk_discard_button(4), "diff-discard-hunk-4");
    assert_eq!(radio_option(&palette, true).fill, palette.FOG);
    assert_eq!(radio_option(&palette, false).fill, palette.DEEP);
}

#[test]
fn a_stash_row_names_its_stash() {
    let tab = tab();
    let snap = DiffRenderSnapshot::from_tab(&tab, TOO_LARGE);
    let entry = StashEntrySummary {
        stash_oid: oid(5),
        label: "stash@{0}".to_string(),
        message: "On main: tidy".to_string(),
        committed_at_unix: 1_000,
        includes_untracked: false,
    };
    let row = render_stash_row(&palette(), &snap, &entry, 1_000 + 7_200);
    assert_eq!(row.title, "\u{25B8} tidy");
    assert_eq!(row.age, "2h");
    assert_eq!(row.label, "stash@{0}");
}

fn commit(id: u64, lanes: &[u16], parents: &[u64]) -> CommitGraphNode {
    CommitGraphNode {
        oid: oid(id),
        short_oid: oid(id).to_short_hex(),
        summary: format!("commit {id}"),
        author_name: "Orca".to_string(),
        authored_at_unix: 1_000,
        parent_oids: parents.iter().map(|parent| oid(*parent)).collect(),
        primary_lane: lanes[0],
        row_lanes: lanes
            .iter()
            .map(|lane| GraphLaneSegment {
                lane: *lane,
                kind: GraphLaneKind::Through,
                target_lane: None,
            })
            .collect(),
        ref_labels: vec![CommitRefLabel {
            name: "main".to_string(),
            kind: CommitRefKind::LocalBranch,
        }],
    }
}

fn graph() -> RepositoryGraphDocument {
    RepositoryGraphDocument {
        scope_root: "/repo".to_string(),
        repo_root: "/repo".to_string(),
        head: HeadState::Branch {
            name: "main".to_string(),
            oid: oid(3),
        },
        local_branches: vec![LocalBranchEntry {
            name: "main".to_string(),
            full_ref: "refs/heads/main".to_string(),
            target: oid(3),
            is_head: true,
            upstream: Some(BranchTrackingInfo {
                remote_name: "origin".to_string(),
                remote_ref: "main".to_string(),
                ahead: 2,
                behind: 1,
            }),
        }],
        remote_branches: vec![RemoteBranchEntry {
            remote_name: "origin".to_string(),
            short_name: "main".to_string(),
            full_ref: "refs/remotes/origin/main".to_string(),
            target: oid(3),
            tracked_by_local: Some("main".to_string()),
        }],
        commits: vec![
            commit(3, &[0, 1], &[2]),
            commit(2, &[0], &[1]),
            commit(1, &[0], &[]),
        ],
        truncated: true,
    }
}

#[test]
fn names_hash_alike_in_any_order() {
    let one = vec!["b".to_string(), "a".to_string(), "c".to_string()];
    let other = vec!["c".to_string(), "b".to_string(), "a".to_string()];
    assert_eq!(hash_names(&one), hash_names(&other));
    assert_ne!(hash_names(&one), hash_names(&vec!["a".to_string()]));
    let first = branch_rail_cache_key(&graph(), &one, &Vec::new(), 3);
    let second = branch_rail_cache_key(&graph(), &other, &Vec::new(), 3);
    assert_eq!(first, second);
    assert_ne!(first, branch_rail_cache_key(&graph(), &one, &Vec::new(), 4));
}

#[test]
fn remotes_open_and_close() {
    let graph = graph();
    let closed = layout_branch_rail(&graph, &Vec::new(), Some(&Vec::new()), Some(&vec![true]));
    assert_eq!(
        closed,
        vec![
            RailRow::LocalHeading,
            RailRow::Local {
                index: 0,
                is_worktree_occupied: false,
                inline_upstream: true
            },
            RailRow::RemoteHeading,
            RailRow::RemoteGroup {
                index: 0,
                expanded: false
            },
        ]
    );
    let open = layout_branch_rail(
        &graph,
        &vec!["main".to_string()],
        Some(&vec!["origin".to_string()]),
        Some(&vec![false]),
    );
    assert!(open.contains(&RailRow::LocalMeta { index: 0 }));
    let locals = |rows: &Vec<RailRow>| {
        rows.iter()
            .filter(|row| matches!(row, RailRow::Local { .. }))
            .count()
    };
    assert_eq!((locals(&closed), locals(&open)), (1, 1));
    assert!(!closed.contains(&RailRow::Remote { index: 0 }));
    assert_eq!(open.last(), Some(&RailRow::Remote { index: 0 }));
    let elements = render_branch_pane(&palette(), &graph, &None, &open);
    assert!(elements
        .iter()
        .any(|element| matches!(element, BranchElement::Branch { worktree_badge: true, .. })));
}

#[test]
fn rows_of_the_commit_graph() {
    let graph = graph();
    let rows = style_commit_rows(&graph);
    assert_eq!(rows.len(), 3);
    assert!(rows[0].is_checked_out_tip);
    assert_eq!(select_visible_graph_lanes(&graph.commits[0]), vec![0, 1]);
    assert!(!graph_has_lane_overflow(&graph.commits[0]));
    let cells = render_graph_lanes(&rows[0], &graph.commits[0]);
    assert_eq!(cells.len(), 2);
    assert!(cells[0].unwrap().shows_node);
    assert!(!cells[1].unwrap().shows_node);
    let shown = render_commit_row(
        &palette(),
        &rows[0],
        &graph.commits[0],
        false,
        &Some("main".to_string()),
        1_000 + 60,
    );
    assert_eq!(shown.age, "1m");
    assert_eq!(shown.id, format!("repo-commit-{:040x}", 3));
    assert_eq!(shown.pills[0].border, palette().ORCA_BLUE);
}

#[test]
fn the_detail_of_a_branch() {
    let mut state = tab_state();
    state.graph.document = Some(graph());
    assert!(matches!(
        render_detail_pane(&palette(), &state),
        DetailPane::Message(message) if message.title == "No selection"
    ));
    state.selected_branch = Some(RepositoryBranchSelection::Local {
        name: "main".to_string(),
    });
    match render_detail_pane(&palette(), &state) {
        DetailPane::Branch(detail) => {
            assert_eq!(detail.title, "main");
            assert!(detail.meta.contains(&"Ref refs/heads/main".to_string()));
            assert!(detail.meta.contains(&"Current branch".to_string()));
        }
        other => panic!("unexpected pane {other:?}"),
    }
    let items = repository_branch_context_menu_items(
        &graph(),
        &RepositoryBranchSelection::Local {
            name: "main".to_string(),
        },
        false,
    );
    assert!(items.iter().any(|item| !item.enabled));
    let (meta, _detail) = repository_graph_meta_lines(Some(&graph()));
    assert!(!meta.is_empty());
}

#[test]
fn the_repository_browser_keeps_its_rows() {
    let mut state = tab_state();
    state.graph.document = Some(graph());
    let mut view = RepositoryBrowserView::new("project-1".to_string());
    view.sync_graph_cache(Some(&state), 3, &vec![true]);
    assert_eq!(view.commit_rows.len(), 3);
    view.sync_graph_cache(None, 3, &vec![true]);
    assert!(view.commit_rows.is_empty());
}

fn entry(id: u64, capture_state: FeedCaptureState) -> ChangeFeedEntry {
    ChangeFeedEntry {
        id,
        scope_root: "/repo".to_string(),
        scope_kind: FeedScopeKind::ManagedWorktree,
        worktree_name: Some("wt".to_string()),
        branch_name: "topic".to_string(),
        source_terminal_id: Some("t1".to_string()),
        generation: 9,
        origin: FeedEntryOrigin::LiveDelta,
        changed_file_count: 4,
        insertions: 5,
        deletions: 6,
        files: vec![file("a.rs"), file("src/b.rs"), file("c.rs")],
        capture_state,
    }
}

fn captured() -> CapturedDiff {
    let selection = key(DiffSectionKind::Unstaged, "a.rs");
    CapturedDiff {
        files: vec![CapturedDiffFile {
            selection: selection.clone(),
            file: file("a.rs"),
            document: FileDiffDocument {
                generation: 1,
                selection,
                file: file("a.rs"),
                lines: vec![line("one two", DiffLineKind::Context)],
                hunks: Vec::new(),
            },
        }],
        failed_files: Vec::new(),
    }
}

fn feed(entries: Vec<ChangeFeedEntry>) -> LiveDiffFeedState {
    LiveDiffFeedState {
        entries,
        unread_count: 0,
        live_follow: true,
        detail_pane_open: false,
        selected_entry_id: None,
        tracked_scope_count: 1,
        latest_scope_error: None,
    }
}

#[test]
fn entries_that_come_in_are_appended() {
    let mut view = LiveDiffStreamView::new("p".to_string(), None);
    let one = feed(vec![entry(1, FeedCaptureState::Pending)]);
    let two = feed(vec![
        entry(1, FeedCaptureState::Pending),
        entry(2, FeedCaptureState::Pending),
        entry(3, FeedCaptureState::Pending),
    ]);
    let other = feed(vec![entry(2, FeedCaptureState::Pending)]);
    assert_eq!(
        view.sync_feed_list_state(Some(&one)),
        FeedListUpdate::Append { at: 0, count: 1 }
    );
    assert_eq!(
        view.sync_feed_list_state(Some(&one)),
        FeedListUpdate::Unchanged
    );
    assert_eq!(
        view.sync_feed_list_state(Some(&two)),
        FeedListUpdate::Append { at: 1, count: 2 }
    );
    assert_eq!(
        view.sync_feed_list_state(Some(&other)),
        FeedListUpdate::Reset { count: 1 }
    );
    assert_eq!(view.scroll_to_live(), FeedListUpdate::Reset { count: 1 });
}

#[test]
fn the_detail_opens_and_closes_with_the_feed() {
    let mut view = LiveDiffStreamView::new("p".to_string(), None);
    let mut state = feed(vec![entry(7, FeedCaptureState::Pending)]);
    state.detail_pane_open = true;
    state.selected_entry_id = Some(7);
    assert_eq!(view.sync_detail(Some(&state)), DetailStep::Open { index: 0 });
    assert_eq!(view.sync_detail(Some(&state)), DetailStep::Keep);
    assert!(matches!(
        render_feed_body(&view, Some(&state)),
        FeedBody::Detail
    ));
    assert_eq!(view.invalidate_theme_cache(Some(&state)), Some(0));
    state.selected_entry_id = Some(8);
    assert_eq!(view.sync_detail(Some(&state)), DetailStep::CloseMissing);
    state.selected_entry_id = Some(7);
    view.sync_detail(Some(&state));
    state.detail_pane_open = false;
    assert_eq!(view.sync_detail(Some(&state)), DetailStep::Close);
    assert_eq!(view.sync_detail(Some(&state)), DetailStep::Keep);
}

#[test]
fn the_header_of_the_feed() {
    let palette = palette();
    let header = render_feed_header(&palette, None, None);
    assert_eq!(header.project_name, "Missing Project");
    assert_eq!(header.state, "LIVE");
    assert_eq!(header.back_to_live, None);
    assert_eq!(header.events, "0 event(s)");
    let mut state = feed(vec![entry(1, FeedCaptureState::Pending)]);
    state.live_follow = false;
    state.unread_count = 3;
    let header = render_feed_header(&palette, Some("orca"), Some(&state));
    assert_eq!(header.state, "PAUSED");
    assert_eq!(header.state_color, palette.STATUS_AMBER);
    assert_eq!(header.back_to_live.as_deref(), Some("Back to Live (3)"));
    assert_eq!(header.scopes, "1 tracked scope(s)");
    assert_eq!(header.close, None);
    state.detail_pane_open = true;
    let header = render_feed_header(&palette, Some("orca"), Some(&state));
    assert_eq!(header.close.as_deref(), Some("Close"));
    assert!(matches!(
        render_feed_body(&LiveDiffStreamView::new("p".to_string(), None), None),
        FeedBody::Empty(message) if message.title == "No git scopes are active"
    ));
}

#[test]
fn cards_of_the_feed() {
    let palette = palette();
    let ready = entry(1, FeedCaptureState::Truncated(captured()));
    let layout = FeedPreviewLayout {
        files: vec![FeedPreviewFile {
            relative_path: RelativePath::parse("src/b.rs"),
            lines: vec![line("x", DiffLineKind::Addition), line("y", DiffLineKind::Context)],
        }],
        hidden_file_count: 1,
        hidden_file_names: vec![RelativePath::parse("c")],
    };
    let row = render_feed_row(&palette, &ready, &layout, 3_600);
    assert_eq!(row.scope_chip, "WT");
    assert_eq!(row.scope_label, "wt");
    assert_eq!(row.event_label, "LIVE DELTA");
    assert_eq!(row.age, "1h ago");
    assert_eq!(row.generation, "gen 9");
    assert_eq!(row.file_count, "4 files");
    assert_eq!(row.insertions, "+5");
    assert_eq!(row.deletions, "-6");
    assert_eq!(row.paths, "a.rs  src/b.rs  +2 more");
    match row.body {
        FeedRowBody::Preview { files, hidden, cut_off } => {
            assert_eq!(files.len(), 1);
            assert_eq!(files[0].path, "src/b.rs");
            assert_eq!(files[0].lines[0].text, "+ x");
            assert_eq!(files[0].lines[0].color, palette.STATUS_GREEN);
            assert_eq!(files[0].lines[1].text, "  y");
            assert_eq!(hidden.as_deref(), Some("+1 more file(s) (c)"));
            assert_eq!(
                cut_off.as_deref(),
                Some("Preview truncated at the event capture limit.")
            );
        }
        other => panic!("unexpected body {other:?}"),
    }
    assert_eq!(
        render_row_actions(&ready, true),
        vec![
            FeedRowAction::ViewDetails,
            FeedRowAction::OpenDiff,
            FeedRowAction::OpenTerminal
        ]
    );
    let pending = entry(2, FeedCaptureState::Pending);
    assert_eq!(
        render_row_actions(&pending, false),
        vec![FeedRowAction::OpenDiff]
    );
    assert_eq!(
        preferred_open_diff_selection(&ready),
        Some(key(DiffSectionKind::Unstaged, "a.rs"))
    );
    assert_eq!(preferred_open_diff_selection(&pending), None);
    let mut clean = entry(3, FeedCaptureState::Ready(captured()));
    clean.changed_file_count = 0;
    clean.files = Vec::new();
    assert_eq!(summarize_paths(&clean), "No changed files");
    assert!(matches!(
        render_feed_row(&palette, &clean, &layout, 59).body,
        FeedRowBody::Note { text, framed: true, .. } if text == "Returned to clean"
    ));
    assert_eq!(feed_age_label(59), "59s ago");
    assert_eq!(feed_age_label(60), "1m ago");
    let deleted = render_preview_line(&palette, &line("x", DiffLineKind::Deletion));
    assert_eq!((deleted.text.as_str(), deleted.color), ("- x", palette.STATUS_CORAL));
    let failed = entry(
        4,
        FeedCaptureState::Failed {
            message: "gone".to_string(),
        },
    );
    assert!(matches!(
        render_feed_row(&palette, &failed, &layout, 0).body,
        FeedRowBody::Note { text, .. } if text == "gone"
    ));
}

#[test]
fn previews_name_the_files_they_leave_out() {
    let mut layout = FeedPreviewLayout {
        files: Vec::new(),
        hidden_file_count: 0,
        hidden_file_names: Vec::new(),
    };
    assert_eq!(hidden_files_note(&layout), None);
    layout.hidden_file_count = 3;
    assert_eq!(hidden_files_note(&layout).as_deref(), Some("+3 more file(s)"));
    layout.hidden_file_names = vec![RelativePath::parse("a/b"), RelativePath::parse("c")];
    assert_eq!(
        hidden_files_note(&layout).as_deref(),
        Some("+3 more file(s) (a/b, c)")
    );
}

#[test]
fn the_detail_of_an_entry_copies_what_is_selected() {
    let mut view = FeedDetailView::new(entry(1, FeedCaptureState::Ready(captured())));
    view.select_file(key(DiffSectionKind::Unstaged, "a.rs"));
    view.click(0, 5, 2);
    assert_eq!(view.copy_selection().as_deref(), Some("two"));
    let mut copy = plain();
    copy.platform = true;
    assert!(detail_key_copies("c", &copy));
    assert!(!detail_key_copies("c", &plain()));
}

#[test]
fn the_detail_of_an_entry_follows_the_entry() {
    let mut view = FeedDetailView::new(entry(1, FeedCaptureState::Ready(captured())));
    assert!(matches!(render_feed_tree_pane(&view), FeedTreePane::Entries(_)));
    assert!(matches!(
        render_feed_diff_pane(&view, TOO_LARGE),
        FeedDiffPane::Lines { header } if header.path == "a.rs"
    ));
    assert!(!view.update_entry(entry(1, FeedCaptureState::Truncated(captured()))));
    assert!(view.update_entry(entry(1, FeedCaptureState::Pending)));
    assert_eq!(view.selected_file, None);
    assert!(matches!(
        render_feed_diff_pane(&view, TOO_LARGE),
        FeedDiffPane::Message(_)
    ));
}

#[test]
fn the_notes_below_captured_files() {
    let palette = palette();
    let mut diff = captured();
    diff.failed_files = vec![CapturedDiffFailure {
        selection: key(DiffSectionKind::Unstaged, "b/c.rs"),
        relative_path: RelativePath::parse("b/c.rs"),
    }];
    let view = FeedDetailView::new(entry(1, FeedCaptureState::Truncated(diff)));
    let section = FeedTreeEntry::Section(DiffSectionKind::Unstaged);
    match render_feed_tree_pane(&view) {
        FeedTreePane::Entries(entries) => assert_eq!(
            entries,
            vec![section, FeedTreeEntry::Truncated, FeedTreeEntry::Failure { index: 0 }]
        ),
        other => panic!("unexpected pane {other:?}"),
    }
    let note = render_feed_note(&palette, &view, FeedTreeEntry::Truncated).unwrap();
    assert_eq!(note.text.text, "Capture truncated at limit");
    assert_eq!(note.border, palette.STATUS_AMBER);
    assert!(note.detail.is_none());
    let note = render_feed_note(&palette, &view, FeedTreeEntry::Failure { index: 0 }).unwrap();
    assert_eq!(note.text.text, "b/c.rs");
    let detail = note.detail.unwrap();
    assert_eq!((detail.text.as_str(), detail.color), ("unavailable", palette.FOG));
    assert!(render_feed_note(&palette, &view, FeedTreeEntry::Failure { index: 1 }).is_none());
    assert!(render_feed_note(&palette, &view, section).is_none());
}

#[test]
fn a_captured_file_is_shown_under_its_path_and_counts() {
    let mut oversize = captured();
    oversize.files[0].document.lines = vec![line(TOO_LARGE, DiffLineKind::BinaryNotice)];
    for (diff, is_oversize) in [(captured(), false), (oversize, true)] {
        let view = FeedDetailView::new(entry(1, FeedCaptureState::Ready(diff)));
        let header = match render_feed_diff_pane(&view, TOO_LARGE) {
            FeedDiffPane::Lines { header } => {
                assert!(!is_oversize);
                header
            }
            FeedDiffPane::Oversize { header, message } => {
                assert!(is_oversize);
                assert_eq!(message.title, "Diff too large");
                header
            }
            other => panic!("unexpected pane {other:?}"),
        };
        assert_eq!(header.path, "a.rs");
        assert_eq!(header.counts.inserted, "+3");
        assert_eq!(header.counts.deleted, "-1");
        assert_eq!(header.error, None);
    }
}

#[test]
fn dragging_changes_the_selection_alone() {
    let mut view = DiffExplorerView::new("/repo".to_string());
    view.has_commit_input = true;
    view.conflict_select_anchor = Some(4);
    let start = DiffPosition { line: 1, col: 2 };
    let end = DiffPosition { line: 3, col: 0 };
    assert!(!view.drag_selection(end));
    view.selection = Some(DiffSelection {
        start,
        end: start,
        is_selecting: true,
    });
    assert!(view.drag_selection(end));
    assert_eq!(view.selection.unwrap().end, end);
    view.conflict_is_selecting = true;
    assert!(view.release_drag());
    assert!(!view.selection.unwrap().is_selecting);
    assert!(!view.conflict_is_selecting);
    assert!(!view.release_drag());
    assert!(view.has_commit_input);
    assert_eq!(view.conflict_select_anchor, Some(4));
    assert_eq!(view.scope_root, "/repo");
}

#[test]
fn the_header_of_a_diff_tab() {
    let palette = palette();
    let mut tab = tab();
    shown_file(&mut tab, 6);
    tab.index.loading = true;
    let live = summary();
    {
        let snap = DiffRenderSnapshot::from_tab(&tab, TOO_LARGE);
        let header = render_header(&palette, &snap, Some(&live), "/repo");
        assert_eq!((header.branch.text.as_str(), header.branch.color), ("main", palette.PATCH));
        assert_eq!((header.scope.text.as_str(), header.scope.color), ("/repo", palette.FOG));
        let badges: Vec<(&str, u32)> = header
            .badges
            .iter()
            .map(|badge| (badge.text.as_str(), badge.color))
            .collect();
        assert_eq!(
            badges,
            vec![
                ("loading", palette.ORCA_BLUE),
                ("stale", palette.STATUS_AMBER),
                ("gen 7", palette.FOG)
            ]
        );
        assert_eq!(header.question, None);
        let shown: Vec<(String, bool)> = header
            .buttons
            .iter()
            .map(|button| (action_label(&snap, button.action), button.disabled))
            .collect();
        assert_eq!(
            shown,
            vec![
                ("Pull".to_string(), true),
                ("Publish".to_string(), false),
                ("Discard All".to_string(), false),
                ("Stash\u{2026}".to_string(), false),
                ("Stashes (0)".to_string(), false),
                ("Merge".to_string(), true),
                ("Remove".to_string(), true),
            ]
        );
        assert!(action_tooltip(DiffAction::DiscardAll).is_some());
        assert_eq!(action_tooltip(DiffAction::Pull), None);
        let without = render_header(&palette, &snap, None, "/repo");
        assert!(without.buttons[1].disabled);
        assert_eq!(without.badges.len(), 1);
    }
    tab.remove_worktree_confirm = Some(RemoveWorktreeConfirm { delete_branch: true });
    tab.managed_worktree = Some(ManagedWorktreeSummary {
        branch_name: "topic".to_string(),
    });
    {
        let snap = DiffRenderSnapshot::from_tab(&tab, TOO_LARGE);
        let header = render_header(&palette, &snap, Some(&live), "/repo");
        assert_eq!(header.question.unwrap().text, "Remove worktree topic?");
        assert_eq!(header.buttons.len(), 3);
        assert_eq!(
            action_label(&snap, header.buttons[0].action),
            "\u{2611} Delete branch"
        );
        assert_eq!(action_button(&palette, header.buttons[2]).border, palette.STATUS_CORAL);
        assert_eq!(action_button(&palette, header.buttons[0]).hover_text, None);
    }
    tab.index.document.as_mut().unwrap().merge_state = Some(MergeState {
        can_complete: false,
        can_abort: true,
        conflicted_file_count: 1,
    });
    let snap = DiffRenderSnapshot::from_tab(&tab, TOO_LARGE);
    let header = render_header(&palette, &snap, Some(&live), "/repo");
    assert_eq!(header.question, None);
    assert_eq!(header.buttons[0].action, DiffAction::CompleteMerge);
    assert!(header.buttons[0].disabled);
    assert!(!header.buttons[1].disabled);
    let banner = render_mode_banner(&palette, &snap).unwrap();
    assert_eq!(banner.look.border.alpha, 0x24);
    assert_eq!(banner.look.text, palette.STATUS_AMBER);
}

#[test]
fn bars_above_the_files() {
    let mut tab = tab();
    tab.commit_message = "  ".to_string();
    {
        let snap = DiffRenderSnapshot::from_tab(&tab, TOO_LARGE);
        let disabled: Vec<bool> = render_action_bar(&snap)
            .iter()
            .map(|button| button.disabled)
            .collect();
        assert_eq!(disabled, vec![false, false, true]);
        assert!(render_stash_action_bar(&snap).iter().all(|button| button.disabled));
        assert!(!commit_input_cleared(&snap, "draft"));
    }
    tab.commit_message = "fix".to_string();
    tab.stash.selected_stash = Some(oid(5));
    {
        let snap = DiffRenderSnapshot::from_tab(&tab, TOO_LARGE);
        assert!(!render_action_bar(&snap)[2].disabled);
        assert!(render_stash_action_bar(&snap).iter().all(|button| !button.disabled));
        assert!(matches!(
            click_action(&snap, None, DiffAction::DropStash, "/repo".to_string()),
            ActionEffect::Prompt(spec) if spec.title == "Drop stash"
        ));
    }
    tab.commit_message = String::new();
    let snap = DiffRenderSnapshot::from_tab(&tab, TOO_LARGE);
    assert!(commit_input_cleared(&snap, "draft"));
    assert!(!commit_input_cleared(&snap, ""));
    assert!(commit_input_takes_key("a"));
    assert!(!commit_input_takes_key("enter"));
    assert!(!commit_input_takes_key("escape"));
}

#[test]
fn publishing_takes_the_only_remote_or_asks() {
    let tab = tab();
    let snap = DiffRenderSnapshot::from_tab(&tab, TOO_LARGE);
    let mut live = summary();
    live.remotes = vec!["origin".to_string()];
    assert!(matches!(
        click_action(&snap, Some(&live), DiffAction::Publish, "/repo".to_string()),
        ActionEffect::Command(_)
    ));
    live.remotes.push("fork".to_string());
    match click_action(&snap, Some(&live), DiffAction::Publish, "/repo".to_string()) {
        ActionEffect::Prompt(spec) => {
            assert_eq!(spec.title, "Publish main");
            assert_eq!(spec.confirm_label, "Publish");
            let options = spec.selection.unwrap();
            assert_eq!(options.initial_selected, 0);
            assert_eq!(options.options[1].value, "fork");
        }
        other => panic!("unexpected effect {other:?}"),
    }
}

#[test]
fn the_lines_of_a_diff_show_their_hunks() {
    let palette = palette();
    let mut tab = tab();
    shown_file(&mut tab, 7);
    tab.file.document.as_mut().unwrap().hunks[0].line_start = 0;
    let mut cache = None;
    let snap = DiffRenderSnapshot::from_tab(&tab, TOO_LARGE);
    update_line_cache(&mut cache, &snap);
    let cached = cache.unwrap();
    assert_eq!(hunk_at_line(&cached.hunk_headers, 0).unwrap().hunk_index, 0);
    assert_eq!(hunk_at_line(&cached.hunk_headers, 1), None);
    let rows = render_diff_lines(&palette, &cached, 0, 2, None, true);
    assert_eq!(rows.len(), 2);
    assert_eq!(rows[0].hunk.unwrap().hunk_index, 0);
    assert!(matches!(rows[0].element.gutter, LineGutter::Action));
    assert_eq!(rows[1].hunk, None);
    let rows = render_diff_lines(&palette, &cached, 0, 1, None, false);
    assert_eq!(rows[0].hunk, None);
    assert!(matches!(rows[0].element.gutter, LineGutter::Numbers { .. }));
    assert!(matches!(
        render_diff_pane(&snap, Some(7), true, false, TOO_LARGE),
        DiffPane::Lines {
            header,
            discard_disabled: Some(false),
            hunk_actions: true
        } if header.path == "b.rs"
    ));
    assert!(matches!(
        render_diff_pane(&snap, Some(8), true, false, TOO_LARGE),
        DiffPane::Lines {
            discard_disabled: Some(true),
            hunk_actions: false,
            ..
        }
    ));
}

fn conflict(text: &str) -> ConflictEditorDocument {
    ConflictEditorDocument {
        generation: 1,
        version: 1,
        selection: key(DiffSectionKind::Conflicted, "a/c.rs"),
        file: file("a/c.rs"),
        initial_raw_text: text.to_string(),
        raw_text: text.to_string(),
        blocks: Vec::new(),
        has_base_sections: false,
        parse_error: None,
        is_dirty: true,
        cursor_pos: 3,
        selection_range: None,
        active_block_index: None,
    }
}

#[test]
fn rows_of_the_conflict_editor() {
    let document = conflict("ab\ncd\n");
    let row = render_conflict_status_row(&document);
    assert_eq!(row.path, "a/c.rs");
    assert_eq!(row.position, "0 of 0 conflicts");
    assert!(row.previous_disabled && row.next_disabled);
    let strip = render_conflict_helper_strip(&document, false, true);
    let shown: Vec<(&str, bool)> = strip
        .iter()
        .map(|button| (conflict_action_label(button.action), button.disabled))
        .collect();
    assert_eq!(
        shown,
        vec![
            ("Accept Ours", true),
            ("Accept Theirs", true),
            ("Accept Both", true),
            ("Save", false),
            ("Reset", true),
            ("Mark Resolved", false),
        ]
    );
    assert_eq!(
        conflict_action_label(ConflictAction::Accept(ConflictAcceptChoice::Base)),
        "Accept Base"
    );
    let lines = classify_conflict_render_lines("ab\ncd\n");
    let drawn = render_conflict_lines(&palette(), &lines, &document, 0, 2);
    assert_eq!(drawn.len(), 2);
    assert_eq!(drawn[0].cursor_column, None);
    assert_eq!(drawn[1].cursor_column, Some(0));
    assert_eq!(drawn[1].number, "2");
}

#[test]
fn marks_of_selected_rows() {
    let palette = palette();
    let mut tab = tab();
    tab.selected_file = Some(key(DiffSectionKind::Unstaged, "b.rs"));
    tab.multi_select = vec![key(DiffSectionKind::Unstaged, "src/c.rs")];
    tab.stash.selected_file = Some(StashFileSelection {
        stash_oid: oid(5),
        relative_path: RelativePath::parse("a.rs"),
    });
    let snap = DiffRenderSnapshot::from_tab(&tab, TOO_LARGE);
    let primary = section_row_marks(&snap, &key(DiffSectionKind::Unstaged, "b.rs"));
    assert!(primary.is_primary && !primary.is_multi);
    assert_eq!(file_tree_row(&palette, primary).text, palette.PATCH);
    let other = section_row_marks(&snap, &key(DiffSectionKind::Staged, "b.rs"));
    assert!(!other.is_primary);
    assert!(!menu_replaces_selection(&snap, &key(DiffSectionKind::Unstaged, "src/c.rs")));
    assert!(menu_replaces_selection(&snap, &key(DiffSectionKind::Unstaged, "b.rs")));
    assert!(stash_row_marks(&snap, oid(5), &file("a.rs")).is_primary);
    assert!(!stash_row_marks(&snap, oid(6), &file("a.rs")).is_primary);
    let pill = status_pill(&palette, GitFileStatus::Modified);
    assert_eq!(pill.letter, 'M');
    assert_eq!(pill.fill.alpha, 0x12);
    let look = diff_banner_look(&palette, ActionBannerKind::Error);
    assert_eq!(look.text, palette.STATUS_CORAL);
}

#[test]
fn the_pane_of_a_stash() {
    let mut tab = tab();
    tab.view_mode = DiffTabViewMode::Stashes;
    tab.stash.list.document = Some(vec![StashEntrySummary {
        stash_oid: oid(5),
        label: "stash@{0}".to_string(),
        message: "On main: tidy".to_string(),
        committed_at_unix: 0,
        includes_untracked: true,
    }]);
    {
        let snap = DiffRenderSnapshot::from_tab(&tab, TOO_LARGE);
        assert!(matches!(
            render_stash_diff_pane(&snap, None, TOO_LARGE),
            StashDiffPane::Message(message) if message.title == "Select a stash"
        ));
    }
    tab.stash.selected_stash = Some(oid(5));
    tab.stash.detail.document = Some(StashDetailDocument {
        stash_oid: oid(5),
        message: "tidy".to_string(),
        files: vec![file("a.rs")],
        includes_untracked: true,
    });
    {
        let snap = DiffRenderSnapshot::from_tab(&tab, TOO_LARGE);
        match render_stash_diff_pane(&snap, None, TOO_LARGE) {
            StashDiffPane::Summary { title, message, contents } => {
                assert_eq!(title, "stash@{0}");
                assert_eq!(message, "tidy");
                assert_eq!(contents.as_deref(), Some("1 file, includes untracked files"));
            }
            other => panic!("unexpected pane {other:?}"),
        }
    }
    let selection = StashFileSelection {
        stash_oid: oid(5),
        relative_path: RelativePath::parse("a.rs"),
    };
    tab.stash.selected_file = Some(selection.clone());
    tab.stash.file_diff.document = Some(StashFileDiffDocument {
        stash_oid: oid(5),
        selection,
        file: file("a.rs"),
        lines: vec![line("+x", DiffLineKind::Addition)],
    });
    let snap = DiffRenderSnapshot::from_tab(&tab, TOO_LARGE);
    assert!(matches!(
        render_stash_diff_pane(&snap, Some(false), TOO_LARGE),
        StashDiffPane::Lines { header } if header.path == "a.rs"
    ));
    assert!(matches!(
        render_stash_diff_pane(&snap, Some(true), TOO_LARGE),
        StashDiffPane::Oversize { message, .. } if message.title == TOO_LARGE
    ));
    let mut cache = None;
    update_stash_line_cache(&mut cache, &snap, ThemeId::Dark, TOO_LARGE);
    let cached = cache.unwrap();
    let drawn = render_stash_diff_lines(&palette(), &cached, 0, cached.lines.len());
    assert_eq!(drawn.len(), 1);
    assert!(!drawn[0].trailing_action);
}

#[test]
fn clicks_on_branches() {
    let graph = graph();
    let rows = layout_branch_rail(
        &graph,
        &Vec::new(),
        Some(&vec!["origin".to_string()]),
        Some(&vec![true]),
    );
    let elements = render_branch_pane(&palette(), &graph, &None, &rows);
    assert!(matches!(
        click_branch_row(&elements[0], false, Some(&graph), false),
        BranchClick::Nothing
    ));
    assert!(matches!(
        click_branch_row(&elements[1], false, None, false),
        BranchClick::Select {
            selection: RepositoryBranchSelection::Local { name }
        } if name == "main"
    ));
    assert!(matches!(
        click_branch_row(&elements[1], true, None, false),
        BranchClick::Nothing
    ));
    match click_branch_row(&elements[1], true, Some(&graph), false) {
        BranchClick::ShowMenu { items, .. } => {
            let labels: Vec<(&str, bool)> = items
                .iter()
                .map(|item| (item.label.as_str(), item.enabled))
                .collect();
            assert_eq!(
                labels,
                vec![
                    ("Checkout", false),
                    ("Create Branch From Here\u{2026}", true),
                    ("Delete Branch\u{2026}", false),
                ]
            );
        }
        other => panic!("unexpected click {other:?}"),
    }
    assert!(matches!(
        click_branch_row(&elements[3], false, None, false),
        BranchClick::ToggleGroup { remote_name } if remote_name == "origin"
    ));
    assert!(matches!(
        click_branch_row(&elements[3], true, Some(&graph), false),
        BranchClick::Nothing
    ));
}

#[test]
fn the_header_of_the_repository_browser() {
    let palette = palette();
    let mut state = tab_state();
    state.graph.document = Some(graph());
    state.fetch_in_flight = true;
    state.active_branch_action = Some(RepositoryBranchAction::Create);
    state.selected_branch = Some(RepositoryBranchSelection::Local {
        name: "main".to_string(),
    });
    state.action_banner = Some(ActionBanner {
        kind: ActionBannerKind::Warning,
        message: "careful".to_string(),
    });
    let pull = repository_pull_action_state(None, None, false, false);
    let header =
        repository_actions::render_header(&palette, "orca", &state, true, false, &pull);
    assert_eq!(header.project_name.text, "orca");
    assert_eq!(header.scope.text, "/repo");
    let labels: Vec<&str> = header
        .buttons
        .iter()
        .map(|button| button.label.as_str())
        .collect();
    assert_eq!(
        labels,
        vec![
            "Fetching\u{2026}",
            pull.label.as_str(),
            "Checkout",
            "Creating\u{2026}",
            "Delete Branch"
        ]
    );
    assert!(!header.buttons[0].look.clickable);
    assert_eq!(header.meta.text, "3 commits");
    assert_eq!(header.meta_detail.unwrap().text, "bounded view");
    let banner = header.banner.unwrap();
    assert_eq!(banner.message, "careful");
    assert_eq!(banner.look.text, palette.STATUS_AMBER);
    assert!(matches!(
        repository_actions::click_action(&state, RepositoryAction::Fetch),
        RepositoryEffect::Perform(RepositoryAction::Fetch)
    ));
    match repository_actions::click_action(&state, RepositoryAction::CreateBranch) {
        RepositoryEffect::Prompt(spec) => {
            assert_eq!(spec.title, "Create Branch From main");
            assert_eq!(
                spec.detail.as_deref(),
                Some("Target commit 00000000. The new branch will be checked out in /repo.")
            );
        }
        other => panic!("unexpected effect {other:?}"),
    }
    state.selected_branch = None;
    assert!(matches!(
        repository_actions::click_action(&state, RepositoryAction::DeleteBranch),
        RepositoryEffect::Nothing
    ));
}

#[test]
fn the_middle_of_the_repository_browser() {
    let palette = palette();
    let mut state = tab_state();
    assert!(matches!(
        render_commit_pane(&state, 0, false),
        CommitPane::Message(message) if message.title == "No commit graph available"
    ));
    assert!(matches!(render_commit_pane(&state, 3, false), CommitPane::Rows));
    state.graph.error = Some("broken".to_string());
    assert!(matches!(
        render_commit_pane(&state, 3, false),
        CommitPane::Message(message) if message.detail.as_deref() == Some("broken")
    ));
    let selection = || CommitFileSelection {
        commit_oid: oid(3),
        relative_path: RelativePath::parse("src/a.rs"),
    };
    state.selected_commit_file = Some(selection());
    let document = CommitFileDiffDocument {
        commit_oid: oid(3),
        selection: selection(),
        lines: Vec::new(),
    };
    let (path, commit) = commit_file_header(&document);
    assert_eq!(path, "src/a.rs");
    assert_eq!(commit, format!("Commit {:040x}", 3));
    state.commit_file_diff.document = Some(document);
    assert!(matches!(
        render_commit_pane(&state, 3, true),
        CommitPane::FileDiff { path, commit, back }
            if path == "src/a.rs" && commit.starts_with("Commit 0") && back == "Back to History"
    ));
    assert!(matches!(
        render_commit_pane(&state, 3, false),
        CommitPane::Message(message) if message.title == "No rendered diff lines"
    ));
    let detail = CommitDetailDocument {
        oid: oid(3),
        short_oid: "0000003".to_string(),
        summary: "Fix".to_string(),
        author_name: "Orca".to_string(),
        author_email: "orca@sea".to_string(),
        committed_at_unix: 86_400,
        message_body: String::new(),
        changed_files: vec![CommitChangedFile {
            path: RelativePath::parse("src/a.rs"),
            status: CommitFileStatus::Renamed,
            additions: 2,
            deletions: 1,
        }],
    };
    let shown = render_commit_detail(&palette, &detail, &state.selected_commit_file);
    assert_eq!(shown.files.len(), 1);
    assert_eq!(shown.files[0].selection, selection());
    assert!(shown.files[0].row.fill.is_some());
    assert_eq!(shown.commit, "Commit 0000003");
    assert_eq!(shown.author, "Author Orca <orca@sea>");
    assert!(shown.committed.starts_with("Committed 1970-01-02"));
    assert_eq!(shown.message_body, None);
    assert_eq!(shown.files_heading, "FILES (1)");
    let row = render_commit_changed_file_row(&palette, &detail.changed_files[0], true);
    assert_eq!((row.additions.as_str(), row.deletions.as_str()), ("+2", "-1"));
    assert_eq!(row.status_color, palette.STATUS_AMBER);
    assert_eq!(row.hover_fill, None);
}

#[test]
fn a_selection_has_no_direction() {
    let shown = line("onetwo", DiffLineKind::Context);
    let down = DiffSelection {
        start: DiffPosition { line: 1, col: 2 },
        end: DiffPosition { line: 1, col: 5 },
        is_selecting: false,
    };
    let up = DiffSelection {
        start: down.end,
        end: down.start,
        is_selecting: false,
    };
    let selected = selection_range_for_line(Some(down), 1, &shown).unwrap();
    assert_eq!((selected.start, selected.end), (2, 5));
    assert_eq!(selection_range_for_line(Some(up), 1, &shown), Some(selected));
    assert_eq!(selection_range_for_line(Some(down), 2, &shown), None);
}

#[test]
fn a_frame_of_the_feed() {
    let palette = palette();
    let mut view = LiveDiffStreamView::new("p".to_string(), None);
    let mut state = feed(vec![entry(7, FeedCaptureState::Ready(captured()))]);
    state.latest_scope_error = Some("no such branch".to_string());
    let frame = view.render(&palette, Some("orca"), Some(&state));
    assert_eq!(frame.list_update, FeedListUpdate::Append { at: 0, count: 1 });
    assert_eq!(frame.detail_step, DetailStep::Keep);
    assert_eq!(frame.header.project_name, "orca");
    assert!(matches!(frame.body, FeedBody::List));
    assert_eq!(frame.scope_error.as_deref(), Some("no such branch"));
    state.detail_pane_open = true;
    state.selected_entry_id = Some(7);
    let frame = view.render(&palette, Some("orca"), Some(&state));
    assert_eq!(frame.list_update, FeedListUpdate::Unchanged);
    assert_eq!(frame.detail_step, DetailStep::Open { index: 0 });
    assert!(matches!(frame.body, FeedBody::Detail));
    assert_eq!(frame.scope_error, None);

    let layout = FeedPreviewLayout {
        files: Vec::new(),
        hidden_file_count: 0,
        hidden_file_names: Vec::new(),
    };
    let item = render_feed_item(&palette, Some(&state), 0, &layout, true, 5).unwrap();
    assert_eq!(item.actions.len(), 3);
    assert_eq!(item.row.age, "5s ago");
    assert!(render_feed_item(&palette, Some(&state), 1, &layout, true, 5).is_none());
    assert!(matches!(
        click_row_action(&state.entries[0], FeedRowAction::ViewDetails),
        FeedRowEffect::SelectEntry { id: 7 }
    ));
    assert!(matches!(
        click_row_action(&state.entries[0], FeedRowAction::OpenDiff),
        FeedRowEffect::OpenDiff { scope_root, selection: Some(_) } if scope_root == "/repo"
    ));
    assert!(matches!(
        click_row_action(&state.entries[0], FeedRowAction::OpenTerminal),
        FeedRowEffect::FocusTerminal { terminal_id } if terminal_id == "t1"
    ));
    state.entries[0].source_terminal_id = None;
    assert!(matches!(
        click_row_action(&state.entries[0], FeedRowAction::OpenTerminal),
        FeedRowEffect::Nothing
    ));
}

fn highlighter() -> LineHighlighter<
    impl Fn(u64, &str) -> (u64, Vec<HighlightedSpan>),
    impl Fn(&str) -> Option<Vec<HighlightedSpan>>,
> {
    LineHighlighter {
        initial: None,
        step: |checkpoint: u64, _line: &str| (checkpoint, Vec::new()),
        alone: |_line: &str| None,
    }
}

#[test]
fn a_frame_of_a_diff_tab() {
    let palette = palette();
    let highlighter = highlighter();
    let live = summary();
    let mut view = DiffExplorerView::new("/repo".to_string());
    assert!(matches!(
        view.render(&palette, None, None, ThemeId::Dark, TOO_LARGE, &highlighter),
        ExplorerContent::Missing(message) if message.title == "Diff tab closed"
    ));
    let mut tab = tab();
    shown_file(&mut tab, 7);
    tab.last_action_banner = Some(ActionBanner {
        kind: ActionBannerKind::Success,
        message: "staged".to_string(),
    });
    view.has_commit_input = true;
    {
        let snap = DiffRenderSnapshot::from_tab(&tab, TOO_LARGE);
        match view.render(&palette, Some(&snap), Some(&live), ThemeId::Dark, TOO_LARGE, &highlighter)
        {
            ExplorerContent::Tab(frame) => {
                assert!(frame.reset);
                assert_eq!(frame.header.branch.text, "main");
                assert_eq!(frame.action_banner.unwrap().message, "staged");
                assert!(frame.mode_banner.is_none());
                assert!(matches!(frame.left, LeftPane::Files(TreePane::Entries(_))));
                assert!(matches!(frame.right, RightPane::File(DiffPane::Lines { .. })));
            }
            other => panic!("unexpected content {other:?}"),
        }
        assert!(view.has_commit_input);
        match view.render(&palette, Some(&snap), Some(&live), ThemeId::Dark, TOO_LARGE, &highlighter)
        {
            ExplorerContent::Tab(frame) => assert!(!frame.reset),
            other => panic!("unexpected content {other:?}"),
        }
    }
    tab.selected_file = Some(key(DiffSectionKind::Conflicted, "a/c.rs"));
    tab.conflict_documents = vec![ConflictDocumentEntry {
        relative_path: RelativePath::parse("a/c.rs"),
        state: ConflictDocumentState::Loaded(conflict("ab\n")),
    }];
    {
        let snap = DiffRenderSnapshot::from_tab(&tab, TOO_LARGE);
        match view.render(&palette, Some(&snap), Some(&live), ThemeId::Dark, TOO_LARGE, &highlighter)
        {
            ExplorerContent::Tab(frame) => {
                assert!(matches!(frame.right, RightPane::File(DiffPane::ConflictEditor)));
            }
            other => panic!("unexpected content {other:?}"),
        }
        let kept = view.conflict_line_cache.as_ref().unwrap();
        assert_eq!(kept.lines.len(), 1);
        assert!(kept.lines[0].highlights.is_none());
        assert_eq!(kept.lines[0].highlight_mode, ConflictHighlightMode::Fallback);
        assert!(kept.anchors.is_empty());
    }
    tab.conflict_documents[0].state = ConflictDocumentState::Unavailable {
        file: file("a/c.rs"),
        message: "binary file".to_string(),
    };
    {
        let snap = DiffRenderSnapshot::from_tab(&tab, TOO_LARGE);
        match view.render(&palette, Some(&snap), Some(&live), ThemeId::Dark, TOO_LARGE, &highlighter)
        {
            ExplorerContent::Tab(frame) => match frame.right {
                RightPane::File(DiffPane::ConflictUnavailable { header, message }) => {
                    assert_eq!(header.error.as_deref(), Some("binary file"));
                    assert_eq!(message.title, "Conflict editor unavailable");
                }
                other => panic!("unexpected pane {other:?}"),
            },
            other => panic!("unexpected content {other:?}"),
        }
        assert!(view.conflict_line_cache.is_none());
    }
    tab.view_mode = DiffTabViewMode::Stashes;
    let snap = DiffRenderSnapshot::from_tab(&tab, TOO_LARGE);
    match view.render(&palette, Some(&snap), None, ThemeId::Dark, TOO_LARGE, &highlighter) {
        ExplorerContent::Tab(frame) => {
            assert!(matches!(frame.left, LeftPane::Stashes(_)));
            assert!(matches!(frame.right, RightPane::Stash(_)));
        }
        other => panic!("unexpected content {other:?}"),
    }
    assert!(view.tree_cache.is_none());
    assert!(!view.has_commit_input);
}

#[test]
fn a_frame_of_the_repository_browser() {
    let palette = palette();
    let mut view = RepositoryBrowserView::new("project-1".to_string());
    let fits = vec![true];
    assert!(matches!(
        view.render(&palette, None, None, None, false, false, 3, &fits),
        BrowserContent::Missing(message) if message.title == "Repository browser unavailable"
    ));
    let mut state = tab_state();
    state.graph.document = Some(graph());
    state.selected_commit = Some(oid(3));
    state.commit_detail.document = Some(CommitDetailDocument {
        oid: oid(3),
        short_oid: "0000003".to_string(),
        summary: "Fix".to_string(),
        author_name: "Orca".to_string(),
        author_email: "orca@sea".to_string(),
        committed_at_unix: 0,
        message_body: "why".to_string(),
        changed_files: Vec::new(),
    });
    match view.render(&palette, None, Some(&state), None, false, false, 3, &fits) {
        BrowserContent::Tab(frame) => {
            assert!(frame.reset);
            assert_eq!(frame.header.project_name.text, "Missing Project");
            assert_eq!(frame.header.buttons[1].label, "Pull (1)");
            assert!(frame.header.buttons[1].look.clickable);
            assert_eq!(frame.branches.len(), 4);
            assert!(matches!(frame.commits, CommitPane::Rows));
            match frame.detail {
                DetailPane::Commit(detail) => {
                    assert_eq!(detail.message_body.as_deref(), Some("why"));
                    assert!(detail.files.is_empty());
                }
                other => panic!("unexpected pane {other:?}"),
            }
        }
        other => panic!("unexpected content {other:?}"),
    }
    let picked = view.render_commit_row_at(&palette, &state, 0, 1_060).unwrap();
    assert_eq!(picked.id, format!("repo-commit-{:040x}", 3));
    assert_eq!(picked.look.border, palette.SURFACE);
    assert_eq!(picked.lanes.len(), 2);
    assert!(!picked.overflow_gutter);
    let other = view.render_commit_row_at(&palette, &state, 1, 1_060).unwrap();
    assert_ne!(other.look.border, palette.SURFACE);
    assert!(view.render_commit_row_at(&palette, &state, 3, 1_060).is_none());
    assert_eq!(view.click_commit_row(&state, 0), Some(oid(3)));
    assert_eq!(view.click_commit_row(&state, 3), None);
    let rows = view.branch_rows.clone();
    view.render(&palette, None, Some(&state), None, false, false, 3, &vec![false]);
    assert_eq!(view.branch_rows, rows);
    view.render(&palette, None, Some(&state), None, false, false, 4, &vec![false]);
    assert_ne!(view.branch_rows, rows);
}

#[test]
fn small_parts_of_the_panes() {
    let palette = palette();
    assert_eq!(directory_row_text("src"), "\u{25BE} src");
    assert_eq!(row_action_label(FeedRowAction::OpenTerminal), "Open Terminal");
    let mut state = tab_state();
    assert_eq!(selected_local_branch_name(&state), None);
    state.selected_branch = Some(RepositoryBranchSelection::Local {
        name: "topic".to_string(),
    });
    assert_eq!(selected_local_branch_name(&state).as_deref(), Some("topic"));
    state.selected_branch = Some(RepositoryBranchSelection::Remote {
        full_ref: "refs/remotes/origin/topic".to_string(),
    });
    assert_eq!(selected_local_branch_name(&state), None);
    let view = FeedDetailView::new(entry(1, FeedCaptureState::Ready(captured())));
    assert!(view.row_marks(&key(DiffSectionKind::Unstaged, "a.rs")).is_primary);
    assert!(!view.row_marks(&key(DiffSectionKind::Staged, "a.rs")).is_primary);
    assert!(feed_section_heading(&view, DiffSectionKind::Unstaged).ends_with("(1)"));
    let mut stream = LiveDiffStreamView::new("p".to_string(), None);
    stream.detail_entry_id = Some(4);
    stream.close_detail();
    assert_eq!(stream.detail_entry_id, None);
    assert_eq!(
        graph_lane_accent_color(GraphLaneAccent::Active, &palette),
        palette.ORCA_BLUE
    );
}
